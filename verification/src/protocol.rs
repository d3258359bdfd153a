//! Envelopes: the values exchanged between the manager and its workers, the
//! rules on their reserved metadata, trusted stamping at transport edges,
//! and the length-prefixed frames that carry them.
use vstd::prelude::*;
use vstd::string::StringExecFns;

use crate::json::{
    key_views, lemma_entries_insert_text, lemma_text_lt_asymmetric, lemma_text_lt_irreflexive,
    object_content, object_entries, object_insert_text, JsonView,
    object_keys, object_lookup_text, object_new, strictly_ascending, text_lt, Data, Meta,
};
use crate::text::{chars_of, text_eq};

verus! {

// ── Reserved metadata ────────────────────────────────────────────────────

/// The reserved key holding the trusted worker identity.
pub open spec fn key_worker_id() -> Seq<char> {
    "x_wid"@
}

/// The reserved key holding the trusted socket path.
pub open spec fn key_socket_path() -> Seq<char> {
    "x_spath"@
}

/// The reserved key holding the optional lifecycle operation.
pub open spec fn key_operation() -> Seq<char> {
    "x_op"@
}

/// Keys that begin with `x_` are reserved by Runpy.
pub open spec fn is_reserved(key: Seq<char>) -> bool {
    key.len() >= 2 && key[0] == 'x' && key[1] == '_'
}

/// The lifecycle operations the protocol knows.
pub open spec fn is_operation(op: Seq<char>) -> bool {
    ||| op == "ready"@
    ||| op == "execute"@
    ||| op == "retry"@
    ||| op == "terminate"@
    ||| op == "done"@
    ||| op == "error"@
    ||| op == "log"@
}

/// Operations the manager may send to a worker.
pub open spec fn manager_operations() -> Seq<Seq<char>> {
    seq!["execute"@, "retry"@, "terminate"@]
}

/// Operations a worker may send to the manager.
pub open spec fn worker_operations() -> Seq<Seq<char>> {
    seq!["ready"@, "done"@, "error"@, "log"@]
}

/// A metadata entry that a received envelope may not carry: an unknown `x_`
/// key, a reserved identity/path that is not a string, or an operation that
/// is not a string or not a known operation.
pub open spec fn key_is_faulty(key: Seq<char>, value: Option<Seq<char>>) -> bool {
    &&& is_reserved(key)
    &&& if key == key_worker_id() || key == key_socket_path() {
        value is None
    } else if key == key_operation() {
        value is None || !is_operation(value->0)
    } else {
        true
    }
}

/// The error that a faulty metadata entry raises.
pub open spec fn fault_error(key: Seq<char>, value: Option<Seq<char>>, e: EnvelopeError) -> bool {
    if key == key_worker_id() || key == key_socket_path() {
        e matches EnvelopeError::InvalidReservedMetadata(k) && k@ == key
    } else if key == key_operation() {
        match value {
            None => e matches EnvelopeError::InvalidReservedMetadata(k) && k@ == key,
            Some(op) => e matches EnvelopeError::InvalidOperation(o) && o@ == op,
        }
    } else {
        e matches EnvelopeError::UnknownReservedMetadata(k) && k@ == key
    }
}

/// Metadata a received envelope may carry: no entry is faulty.
pub open spec fn wire_meta_valid(entries: Map<Seq<char>, Option<Seq<char>>>) -> bool {
    forall|k: Seq<char>| #[trigger] entries.contains_key(k) ==> !key_is_faulty(k, entries[k])
}

/// `key` is the least faulty key of `entries` in key order.
pub open spec fn least_faulty_key(entries: Map<Seq<char>, Option<Seq<char>>>, key: Seq<char>) -> bool {
    &&& entries.contains_key(key)
    &&& key_is_faulty(key, entries[key])
    &&& forall|k: Seq<char>|
        #[trigger] entries.contains_key(k) && key_is_faulty(k, entries[k]) ==> !text_lt(k, key)
}

/// `key` is the least reserved key of `entries` in key order.
pub open spec fn least_reserved_key(entries: Map<Seq<char>, Option<Seq<char>>>, key: Seq<char>) -> bool {
    &&& entries.contains_key(key)
    &&& is_reserved(key)
    &&& forall|k: Seq<char>| #[trigger] entries.contains_key(k) && is_reserved(k) ==> !text_lt(k, key)
}

/// The operation of an envelope with metadata `entries`: the text of `x_op`
/// when that entry is a string; a missing or non-string entry gives none.
pub open spec fn operation_of(entries: Map<Seq<char>, Option<Seq<char>>>) -> Option<Seq<char>> {
    if entries.contains_key(key_operation()) {
        entries[key_operation()]
    } else {
        None
    }
}

/// An envelope with operation `op` may travel in a direction that allows
/// `allowed`: it carries no operation, or one of them.
pub open spec fn direction_allows(op: Option<Seq<char>>, allowed: Seq<Seq<char>>) -> bool {
    match op {
        None => true,
        Some(o) => allowed.contains(o),
    }
}

// ── Errors ───────────────────────────────────────────────────────────────

/// Why an envelope was refused.
#[derive(Debug, Clone, PartialEq, Eq)]
pub enum EnvelopeError {
    /// An application-built envelope used an `x_` metadata key.
    ReservedMetadata(String),
    /// A received envelope carried an `x_` key Runpy does not define.
    UnknownReservedMetadata(String),
    /// A received envelope carried a reserved key whose value is not a string.
    InvalidReservedMetadata(String),
    /// A received envelope named an operation Runpy does not define.
    InvalidOperation(String),
    /// A known operation travelled in the wrong direction.
    WrongDirection { operation: String, direction: &'static str },
}

/// The human-readable text of an error.
pub open spec fn error_text(e: EnvelopeError) -> Seq<char> {
    match e {
        EnvelopeError::ReservedMetadata(k) => "metadata key '"@ + k@ + "' is reserved by Runpy"@,
        EnvelopeError::UnknownReservedMetadata(k) => "unknown Runpy metadata key '"@ + k@ + "'"@,
        EnvelopeError::InvalidReservedMetadata(k) => "Runpy metadata '"@ + k@
            + "' must be a string"@,
        EnvelopeError::InvalidOperation(o) => "unknown Runpy operation '"@ + o@ + "'"@,
        EnvelopeError::WrongDirection { operation, direction } => "Runpy operation '"@
            + operation@ + "' is invalid for "@ + direction@ + " envelopes"@,
    }
}

fn quoted(before: &str, middle: &str, after: &str) -> (s: String)
    ensures
        s@ == before@ + middle@ + after@,
{
    let mut s = String::from_str(before);
    s.append(middle);
    s.append(after);
    s
}

impl EnvelopeError {
    /// The error's message, as `Display` renders it.
    pub fn message(&self) -> (text: String)
        ensures
            text@ == error_text(*self),
    {
        match self {
            EnvelopeError::ReservedMetadata(k) => quoted(
                "metadata key '",
                k.as_str(),
                "' is reserved by Runpy",
            ),
            EnvelopeError::UnknownReservedMetadata(k) => quoted(
                "unknown Runpy metadata key '",
                k.as_str(),
                "'",
            ),
            EnvelopeError::InvalidReservedMetadata(k) => quoted(
                "Runpy metadata '",
                k.as_str(),
                "' must be a string",
            ),
            EnvelopeError::InvalidOperation(o) => quoted(
                "unknown Runpy operation '",
                o.as_str(),
                "'",
            ),
            EnvelopeError::WrongDirection { operation, direction } => {
                let mut s = quoted("Runpy operation '", operation.as_str(), "' is invalid for ");
                s.append(direction);
                s.append(" envelopes");
                s
            },
        }
    }
}

// ── Key and operation checks ─────────────────────────────────────────────

/// Whether a metadata key is in the reserved `x_` namespace.
pub fn is_reserved_key(key: &str) -> (r: bool)
    ensures
        r == is_reserved(key@),
{
    let c = chars_of(key);
    c.len() >= 2 && c[0] == 'x' && c[1] == '_'
}

/// Whether `op` names a known lifecycle operation.
pub fn is_known_operation(op: &str) -> (r: bool)
    ensures
        r == is_operation(op@),
{
    text_eq(op, "ready") || text_eq(op, "execute") || text_eq(op, "retry") || text_eq(
        op,
        "terminate",
    ) || text_eq(op, "done") || text_eq(op, "error") || text_eq(op, "log")
}

/// The texts of a sequence of string slices.
pub open spec fn str_views(s: Seq<&str>) -> Seq<Seq<char>> {
    s.map_values(|x: &str| x@)
}

/// The text of an optional string slice.
pub open spec fn opt_view(o: Option<&str>) -> Option<Seq<char>> {
    match o {
        Some(s) => Some(s@),
        None => None,
    }
}

/// Accepts a missing operation or one that `allowed` lists; any other
/// operation is `WrongDirection` with the given `direction`.
pub fn validate_direction(operation: Option<&str>, allowed: &[&str], direction: &'static str) -> (r:
    Result<(), EnvelopeError>)
    ensures
        r is Ok <==> direction_allows(opt_view(operation), str_views(allowed@)),
        r matches Err(e) ==> e matches EnvelopeError::WrongDirection { operation: o, direction: d }
            && opt_view(operation) == Some(o@) && d@ == direction@,
{
    match operation {
        None => Ok(()),
        Some(op) => {
            let ghost views = str_views(allowed@);
            let mut i: usize = 0;
            while i < allowed.len()
                invariant
                    i <= allowed@.len(),
                    operation == Some(op),
                    views == str_views(allowed@),
                    forall|j: int| 0 <= j < i ==> views[j] != op@,
                decreases allowed.len() - i,
            {
                if text_eq(allowed[i], op) {
                    assert(views[i as int] == op@);
                    assert(views.contains(op@));
                    assert(opt_view(operation) == Some(op@));
                    return Ok(());
                }
                i += 1;
            }
            assert(!views.contains(op@));
            Err(EnvelopeError::WrongDirection { operation: String::from_str(op), direction })
        },
    }
}

/// When every key before index `i` of the ascending key sequence `views` fails
/// `pred`, the key at `i` is not above any key of the object that meets `pred`.
proof fn lemma_first_is_least(
    views: Seq<Seq<char>>,
    entries: Map<Seq<char>, Option<Seq<char>>>,
    i: int,
    pred: spec_fn(Seq<char>) -> bool,
)
    requires
        strictly_ascending(views),
        views.to_set() == entries.dom(),
        0 <= i < views.len(),
        forall|j: int| 0 <= j < i ==> !pred(#[trigger] views[j]),
    ensures
        forall|k: Seq<char>| #[trigger] entries.contains_key(k) && pred(k) ==> !text_lt(k, views[i]),
{
    assert forall|k: Seq<char>| #[trigger] entries.contains_key(k) && pred(k) implies !text_lt(
        k,
        views[i],
    ) by {
        assert(views.to_set().contains(k));
        let j = choose|j: int| 0 <= j < views.len() && views[j] == k;
        if j == i {
            lemma_text_lt_irreflexive(k);
        } else {
            assert(!(j < i));
            lemma_text_lt_asymmetric(views[i], k);
        }
    }
}

/// Checks the reserved metadata of a received envelope: `x_wid` and
/// `x_spath` must be strings, `x_op` a known operation, and no other `x_` key
/// may appear. The error names the least faulty key.
pub fn validate_wire_meta(meta: &Meta) -> (r: Result<(), EnvelopeError>)
    ensures
        r is Ok <==> wire_meta_valid(object_entries(*meta)),
        r matches Err(e) ==> exists|k: Seq<char>|
            least_faulty_key(object_entries(*meta), k) && fault_error(
                k,
                object_entries(*meta)[k],
                e,
            ),
{
    let ghost entries = object_entries(*meta);
    let ghost pred = |k: Seq<char>| key_is_faulty(k, entries[k]);
    let keys = object_keys(meta);
    let ghost views = key_views(keys@);
    let mut i: usize = 0;
    while i < keys.len()
        invariant
            entries == object_entries(*meta),
            pred == (|k: Seq<char>| key_is_faulty(k, entries[k])),
            views == key_views(keys@),
            views.to_set() == entries.dom(),
            strictly_ascending(views),
            i <= keys.len(),
            forall|j: int| 0 <= j < i ==> !pred(#[trigger] views[j]),
        decreases keys.len() - i,
    {
        let key = keys[i].as_str();
        let ghost k = views[i as int];
        proof {
            assert(views.contains(k));
            assert(views.to_set().contains(k));
        }
        if is_reserved_key(key) {
            let found = object_lookup_text(meta, key);
            let mut fault: Option<EnvelopeError> = None;
            if text_eq(key, "x_wid") || text_eq(key, "x_spath") {
                if let Some(None) = found {
                    fault = Some(EnvelopeError::InvalidReservedMetadata(keys[i].clone()));
                }
            } else if text_eq(key, "x_op") {
                match found {
                    Some(None) => {
                        fault = Some(EnvelopeError::InvalidReservedMetadata(keys[i].clone()));
                    },
                    Some(Some(op)) => {
                        if !is_known_operation(op.as_str()) {
                            fault = Some(EnvelopeError::InvalidOperation(op));
                        }
                    },
                    None => {},
                }
            } else {
                fault = Some(EnvelopeError::UnknownReservedMetadata(keys[i].clone()));
            }
            match fault {
                Some(e) => {
                    proof {
                        assert(pred(k));
                        lemma_first_is_least(views, entries, i as int, pred);
                        assert(least_faulty_key(entries, k));
                        assert(fault_error(k, entries[k], e));
                    }
                    return Err(e);
                },
                None => {
                    assert(!pred(k));
                },
            }
        }
        i += 1;
    }
    proof {
        assert forall|k: Seq<char>| #[trigger] entries.contains_key(k) implies !key_is_faulty(
            k,
            entries[k],
        ) by {
            assert(views.to_set().contains(k));
            let j = choose|j: int| 0 <= j < views.len() && views[j] == k;
            assert(!pred(views[j]));
        }
    }
    Ok(())
}

// ── Frames ───────────────────────────────────────────────────────────────

/// The number that little-endian bytes encode.
pub open spec fn le_value(bytes: Seq<u8>) -> nat
    decreases bytes.len(),
{
    if bytes.len() == 0 {
        0
    } else {
        bytes[0] as nat + 256 * le_value(bytes.drop_first())
    }
}

/// The `count` least significant bytes of `n`, least significant first.
pub open spec fn le_bytes(n: nat, count: nat) -> Seq<u8>
    decreases count,
{
    if count == 0 {
        Seq::empty()
    } else {
        seq![(n % 256) as u8] + le_bytes(n / 256, (count - 1) as nat)
    }
}

/// `256` to the power `count`.
pub open spec fn pow256(count: nat) -> nat
    decreases count,
{
    if count == 0 {
        1
    } else {
        256 * pow256((count - 1) as nat)
    }
}

/// Reading back little-endian bytes gives the number written, when it fits.
pub proof fn lemma_le_roundtrip(n: nat, count: nat)
    requires
        n < pow256(count),
    ensures
        le_bytes(n, count).len() == count,
        le_value(le_bytes(n, count)) == n,
    decreases count,
{
    if count > 0 {
        let rest = (count - 1) as nat;
        assert(n / 256 < pow256(rest)) by (nonlinear_arith)
            requires
                n < 256 * pow256(rest),
        ;
        lemma_le_roundtrip(n / 256, rest);
        let s = le_bytes(n, count);
        assert(s.drop_first() =~= le_bytes(n / 256, rest));
        assert(n == n % 256 + 256 * (n / 256)) by (nonlinear_arith);
    }
}

/// The eight-byte little-endian length header of a frame.
pub fn frame_header(length: u64) -> (h: [u8; 8])
    ensures
        h@ == le_bytes(length as nat, 8),
{
    let q0 = length;
    let q1 = q0 / 256;
    let q2 = q1 / 256;
    let q3 = q2 / 256;
    let q4 = q3 / 256;
    let q5 = q4 / 256;
    let q6 = q5 / 256;
    let q7 = q6 / 256;
    let h: [u8; 8] = [
        (q0 % 256) as u8,
        (q1 % 256) as u8,
        (q2 % 256) as u8,
        (q3 % 256) as u8,
        (q4 % 256) as u8,
        (q5 % 256) as u8,
        (q6 % 256) as u8,
        (q7 % 256) as u8,
    ];
    proof {
        reveal_with_fuel(le_bytes, 9);
        assert(h@ =~= le_bytes(length as nat, 8));
    }
    h
}

/// The payload length that a frame's header announces.
pub fn frame_length(header: &[u8; 8]) -> (n: u64)
    ensures
        n as nat == le_value(header@),
{
    let mut acc: u64 = header[7] as u64;
    let mut i: usize = 7;
    proof {
        reveal_with_fuel(pow256, 2);
        reveal_with_fuel(le_value, 2);
        assert(header@.subrange(7, 8).drop_first() =~= Seq::<u8>::empty());
    }
    while i > 0
        invariant
            i <= 7,
            acc as nat == le_value(header@.subrange(i as int, 8)),
            acc < pow256((8 - i) as nat),
        decreases i,
    {
        let ghost rest = header@.subrange(i as int, 8);
        proof {
            reveal_with_fuel(pow256, 9);
            assert(header@.subrange(i - 1, 8).drop_first() =~= rest);
        }
        assert(acc < pow256((8 - i) as nat));
        assert(acc * 256 + 255 < pow256((8 - i + 1) as nat)) by (nonlinear_arith)
            requires
                acc < pow256((8 - i) as nat),
                pow256((8 - i + 1) as nat) == 256 * pow256((8 - i) as nat),
        ;
        i -= 1;
        acc = acc * 256 + header[i] as u64;
    }
    assert(header@.subrange(0, 8) =~= header@);
    acc
}

/// A complete frame: the little-endian length of `payload`, then `payload`.
pub fn encode_frame(payload: &[u8]) -> (frame: Vec<u8>)
    requires
        payload@.len() + 8 <= usize::MAX,
    ensures
        frame@ == le_bytes(payload@.len(), 8) + payload@,
{
    let header = frame_header(payload.len() as u64);
    let mut frame: Vec<u8> = Vec::new();
    let mut i: usize = 0;
    while i < 8
        invariant
            i <= 8,
            header@ == le_bytes(payload@.len(), 8),
            frame@ == header@.subrange(0, i as int),
        decreases 8 - i,
    {
        frame.push(header[i]);
        i += 1;
        assert(frame@ =~= header@.subrange(0, i as int));
    }
    let mut j: usize = 0;
    while j < payload.len()
        invariant
            j <= payload@.len(),
            header@ == le_bytes(payload@.len(), 8),
            frame@ == header@ + payload@.subrange(0, j as int),
        decreases payload@.len() - j,
    {
        frame.push(payload[j]);
        j += 1;
        assert(frame@ =~= header@ + payload@.subrange(0, j as int));
    }
    assert(payload@.subrange(0, payload@.len() as int) =~= payload@);
    frame
}

/// A reader that decodes a frame's header obtains the length of the payload
/// that the writer framed, and the bytes after the header are that payload.
pub proof fn lemma_frame_roundtrip(payload: Seq<u8>)
    requires
        payload.len() <= u64::MAX,
    ensures
        le_value((le_bytes(payload.len(), 8) + payload).subrange(0, 8)) == payload.len(),
        (le_bytes(payload.len(), 8) + payload).subrange(8, payload.len() as int + 8) == payload,
{
    reveal_with_fuel(pow256, 9);
    lemma_le_roundtrip(payload.len(), 8);
    let f = le_bytes(payload.len(), 8) + payload;
    assert(f.subrange(0, 8) =~= le_bytes(payload.len(), 8));
    assert(f.subrange(8, payload.len() as int + 8) =~= payload);
}

/// How reading a frame's header failed.
#[derive(Debug, Clone, Copy, PartialEq, Eq)]
pub enum ReadFailure {
    /// The peer closed the connection cleanly between frames.
    UnexpectedEof,
    /// The peer reset the connection.
    ConnectionReset,
    /// The peer closed while a write was pending.
    BrokenPipe,
    /// Any other read error.
    Other,
}

impl ReadFailure {
    /// The severity at which the failure is logged.
    pub open spec fn severity_of(&self) -> Option<crate::level::LogLevel> {
        match *self {
            ReadFailure::UnexpectedEof => None,
            ReadFailure::ConnectionReset => Some(crate::level::LogLevel::Debug),
            ReadFailure::BrokenPipe => Some(crate::level::LogLevel::Debug),
            ReadFailure::Other => Some(crate::level::LogLevel::Error),
        }
    }

    /// The severity at which the failure is logged: a clean close is silent,
    /// a reset or broken pipe is a debug message, anything else an error.
    pub fn severity(&self) -> (level: Option<crate::level::LogLevel>)
        ensures
            level == self.severity_of(),
    {
        match self {
            ReadFailure::UnexpectedEof => None,
            ReadFailure::ConnectionReset => Some(crate::level::LogLevel::Debug),
            ReadFailure::BrokenPipe => Some(crate::level::LogLevel::Debug),
            ReadFailure::Other => Some(crate::level::LogLevel::Error),
        }
    }

    /// The record logged for the failure, at its severity: nothing for a
    /// clean close, a fixed message for a reset or broken pipe, and
    /// `Read error: <detail>` otherwise.
    pub fn log_entry(&self, detail: &str) -> (entry: Option<(crate::level::LogLevel, String)>)
        ensures
            match entry {
                None => self.severity_of() is None,
                Some((level, text)) => Some(level) == self.severity_of() && text@ == match *self {
                    ReadFailure::ConnectionReset => "Connection reset by peer"@,
                    ReadFailure::BrokenPipe => "Broken pipe - peer closed unexpectedly"@,
                    _ => "Read error: "@ + detail@,
                },
            },
    {
        match self {
            ReadFailure::UnexpectedEof => None,
            ReadFailure::ConnectionReset => Some(
                (crate::level::LogLevel::Debug, String::from_str("Connection reset by peer")),
            ),
            ReadFailure::BrokenPipe => Some(
                (
                    crate::level::LogLevel::Debug,
                    String::from_str("Broken pipe - peer closed unexpectedly"),
                ),
            ),
            ReadFailure::Other => {
                let mut text = String::from_str("Read error: ");
                text.append(detail);
                Some((crate::level::LogLevel::Error, text))
            },
        }
    }
}

// ── Envelope ─────────────────────────────────────────────────────────────

/// The complete value exchanged between the Rust manager and Python workers.
///
/// Both `meta` and `data` are JSON objects. Keys beginning with `x_` are
/// reserved for Runpy and cannot be supplied through [`Envelope::new`].
#[derive(Debug, Clone, PartialEq)]
pub struct Envelope {
    meta: Meta,
    data: Data,
}

impl Envelope {
    /// The metadata object.
    pub closed spec fn meta_object(&self) -> Meta {
        self.meta
    }

    /// The payload object.
    pub closed spec fn data_object(&self) -> Data {
        self.data
    }

    /// What the metadata holds: each key with its JSON value.
    pub open spec fn meta_content(&self) -> Map<Seq<char>, JsonView> {
        object_content(self.meta_object())
    }

    /// What the metadata holds, as the protocol reads it.
    pub open spec fn meta_entries(&self) -> Map<Seq<char>, Option<Seq<char>>> {
        object_entries(self.meta_object())
    }

    /// Build an application-defined envelope. Metadata with a reserved key is
    /// refused, naming its least reserved key.
    pub fn new(meta: Meta, data: Data) -> (r: Result<Self, EnvelopeError>)
        ensures
            r is Ok <==> forall|k: Seq<char>| #[trigger]
                object_entries(meta).contains_key(k) ==> !is_reserved(k),
            r matches Ok(e) ==> e.meta_object() == meta && e.data_object() == data,
            r matches Err(e) ==> e matches EnvelopeError::ReservedMetadata(k) && least_reserved_key(
                object_entries(meta),
                k@,
            ),
    {
        let keys = object_keys(&meta);
        let ghost views = key_views(keys@);
        let mut i: usize = 0;
        while i < keys.len()
            invariant
                views == key_views(keys@),
                views.to_set() == object_entries(meta).dom(),
                strictly_ascending(views),
                i <= keys.len(),
                forall|j: int| 0 <= j < i ==> !is_reserved(#[trigger] views[j]),
            decreases keys.len() - i,
        {
            if is_reserved_key(keys[i].as_str()) {
                let ghost key = views[i as int];
                proof {
                    assert(views.contains(key));
                    assert(views.to_set().contains(key));
                    assert(object_entries(meta).contains_key(key));
                    assert(is_reserved(key));
                    assert forall|k: Seq<char>| #[trigger]
                        object_entries(meta).contains_key(k) && is_reserved(k) implies !text_lt(
                        k,
                        key,
                    ) by {
                        assert(views.to_set().contains(k));
                        let j = choose|j: int| 0 <= j < views.len() && views[j] == k;
                        if j == i {
                            lemma_text_lt_irreflexive(key);
                        } else {
                            lemma_text_lt_asymmetric(key, k);
                        }
                    }
                }
                return Err(EnvelopeError::ReservedMetadata(keys[i].clone()));
            }
            i += 1;
        }
        proof {
            assert forall|k: Seq<char>| #[trigger]
                object_entries(meta).contains_key(k) implies !is_reserved(k) by {
                assert(views.to_set().contains(k));
            }
        }
        Ok(Envelope { meta, data })
    }

    /// Build a manager request that executes a worker payload.
    pub fn execute(data: Data) -> (e: Self)
        ensures
            e.meta_content() == Map::<Seq<char>, JsonView>::empty().insert(
                key_operation(),
                JsonView::Str("execute"@),
            ),
            e.meta_entries() == Map::<Seq<char>, Option<Seq<char>>>::empty().insert(
                key_operation(),
                Some("execute"@),
            ),
            e.data_object() == data,
    {
        Self::with_operation("execute", data)
    }

    /// Build a manager request that repeats the most recent execution.
    pub fn retry() -> (e: Self)
        ensures
            e.meta_content() == Map::<Seq<char>, JsonView>::empty().insert(
                key_operation(),
                JsonView::Str("retry"@),
            ),
            e.meta_entries() == Map::<Seq<char>, Option<Seq<char>>>::empty().insert(
                key_operation(),
                Some("retry"@),
            ),
            object_content(e.data_object()) == Map::<Seq<char>, JsonView>::empty(),
    {
        Self::with_operation("retry", object_new())
    }

    /// Build a manager request that gracefully terminates a worker.
    pub fn terminate() -> (e: Self)
        ensures
            e.meta_content() == Map::<Seq<char>, JsonView>::empty().insert(
                key_operation(),
                JsonView::Str("terminate"@),
            ),
            e.meta_entries() == Map::<Seq<char>, Option<Seq<char>>>::empty().insert(
                key_operation(),
                Some("terminate"@),
            ),
            object_content(e.data_object()) == Map::<Seq<char>, JsonView>::empty(),
    {
        Self::with_operation("terminate", object_new())
    }

    /// The metadata object.
    pub fn meta(&self) -> (m: &Meta)
        ensures
            *m == self.meta_object(),
    {
        &self.meta
    }

    /// The payload object.
    pub fn data(&self) -> (d: &Data)
        ensures
            *d == self.data_object(),
    {
        &self.data
    }

    fn with_operation(operation: &str, data: Data) -> (e: Self)
        ensures
            e.meta_content() == Map::<Seq<char>, JsonView>::empty().insert(
                key_operation(),
                JsonView::Str(operation@),
            ),
            e.meta_entries() == Map::<Seq<char>, Option<Seq<char>>>::empty().insert(
                key_operation(),
                Some(operation@),
            ),
            e.data_object() == data,
    {
        let mut meta = object_new();
        object_insert_text(&mut meta, String::from_str("x_op"), String::from_str(operation));
        proof {
            assert(object_entries(meta) =~= Map::<Seq<char>, Option<Seq<char>>>::empty().insert(
                key_operation(),
                Some(operation@),
            ));
        }
        Envelope { meta, data }
    }

    /// The envelope's operation: the text of `x_op` when it is a string.
    pub fn operation(&self) -> (op: Option<String>)
        ensures
            match op {
                Some(s) => operation_of(self.meta_entries()) == Some(s@),
                None => operation_of(self.meta_entries()) is None,
            },
    {
        match object_lookup_text(&self.meta, "x_op") {
            Some(Some(s)) => Some(s),
            _ => None,
        }
    }

    /// Overwrite `x_wid` and `x_spath` with trusted values; every other entry
    /// and the payload stay as they were.
    pub fn stamp_trusted(&mut self, worker_id: &str, socket_path: &str)
        ensures
            final(self).meta_content() == old(self).meta_content().insert(
                key_worker_id(),
                JsonView::Str(worker_id@),
            ).insert(key_socket_path(), JsonView::Str(socket_path@)),
            final(self).meta_entries() == old(self).meta_entries().insert(
                key_worker_id(),
                Some(worker_id@),
            ).insert(key_socket_path(), Some(socket_path@)),
            final(self).data_object() == old(self).data_object(),
    {
        let ghost before = object_content(self.meta);
        object_insert_text(&mut self.meta, String::from_str("x_wid"), String::from_str(worker_id));
        object_insert_text(
            &mut self.meta,
            String::from_str("x_spath"),
            String::from_str(socket_path),
        );
        proof {
            lemma_entries_insert_text(before, key_worker_id(), worker_id@);
            lemma_entries_insert_text(
                before.insert(key_worker_id(), JsonView::Str(worker_id@)),
                key_socket_path(),
                socket_path@,
            );
        }
    }

    /// Accept a missing operation or one the manager may send.
    pub fn validate_manager_to_worker(&self) -> (r: Result<(), EnvelopeError>)
        ensures
            r is Ok <==> direction_allows(operation_of(self.meta_entries()), manager_operations()),
            r matches Err(e) ==> e matches EnvelopeError::WrongDirection { operation: o, direction: d }
                && operation_of(self.meta_entries()) == Some(o@) && d@ == "manager-to-worker"@,
    {
        let op = self.operation();
        let allowed: [&str; 3] = ["execute", "retry", "terminate"];
        proof {
            assert(str_views(allowed@) =~= manager_operations());
        }
        match &op {
            Some(s) => validate_direction(Some(s.as_str()), &allowed, "manager-to-worker"),
            None => validate_direction(None, &allowed, "manager-to-worker"),
        }
    }

    /// Accept a missing operation or one a worker may send.
    pub fn validate_worker_to_manager(&self) -> (r: Result<(), EnvelopeError>)
        ensures
            r is Ok <==> direction_allows(operation_of(self.meta_entries()), worker_operations()),
            r matches Err(e) ==> e matches EnvelopeError::WrongDirection { operation: o, direction: d }
                && operation_of(self.meta_entries()) == Some(o@) && d@ == "worker-to-manager"@,
    {
        let op = self.operation();
        let allowed: [&str; 4] = ["ready", "done", "error", "log"];
        proof {
            assert(str_views(allowed@) =~= worker_operations());
        }
        match &op {
            Some(s) => validate_direction(Some(s.as_str()), &allowed, "worker-to-manager"),
            None => validate_direction(None, &allowed, "worker-to-manager"),
        }
    }
}

impl Envelope {
    /// Accept a received wire envelope: `meta` and `data` as parsed, provided
    /// the reserved metadata is valid (see [`validate_wire_meta`]).
    pub fn from_wire(meta: Meta, data: Data) -> (r: Result<Self, EnvelopeError>)
        ensures
            r is Ok <==> wire_meta_valid(object_entries(meta)),
            r matches Ok(e) ==> e.meta_object() == meta && e.data_object() == data,
            r matches Err(e) ==> exists|k: Seq<char>|
                least_faulty_key(object_entries(meta), k) && fault_error(
                    k,
                    object_entries(meta)[k],
                    e,
                ),
    {
        match validate_wire_meta(&meta) {
            Ok(()) => Ok(Envelope { meta, data }),
            Err(e) => Err(e),
        }
    }

    /// Take in an envelope a worker sent: refuse an operation only the
    /// manager may send, then stamp the trusted worker identity and socket
    /// path over whatever the peer supplied.
    pub fn accept_inbound(self, worker_id: &str, socket_path: &str) -> (r: Result<Self, EnvelopeError>)
        ensures
            r is Ok <==> direction_allows(operation_of(self.meta_entries()), worker_operations()),
            r matches Ok(e) ==> e.meta_content() == self.meta_content().insert(
                key_worker_id(),
                JsonView::Str(worker_id@),
            ).insert(key_socket_path(), JsonView::Str(socket_path@)) && e.meta_entries()
                == self.meta_entries().insert(key_worker_id(), Some(worker_id@)).insert(
                key_socket_path(),
                Some(socket_path@),
            ) && e.data_object() == self.data_object(),
            r matches Err(e) ==> e matches EnvelopeError::WrongDirection { operation: o, direction: d }
                && operation_of(self.meta_entries()) == Some(o@) && d@ == "worker-to-manager"@,
    {
        match self.validate_worker_to_manager() {
            Ok(()) => {
                let mut envelope = self;
                envelope.stamp_trusted(worker_id, socket_path);
                Ok(envelope)
            },
            Err(e) => Err(e),
        }
    }

    /// Prepare an envelope for sending to a worker: refuse an operation only
    /// a worker may send, then stamp the trusted worker identity and socket
    /// path.
    pub fn prepare_outbound(self, worker_id: &str, socket_path: &str) -> (r: Result<Self, EnvelopeError>)
        ensures
            r is Ok <==> direction_allows(operation_of(self.meta_entries()), manager_operations()),
            r matches Ok(e) ==> e.meta_content() == self.meta_content().insert(
                key_worker_id(),
                JsonView::Str(worker_id@),
            ).insert(key_socket_path(), JsonView::Str(socket_path@)) && e.meta_entries()
                == self.meta_entries().insert(key_worker_id(), Some(worker_id@)).insert(
                key_socket_path(),
                Some(socket_path@),
            ) && e.data_object() == self.data_object(),
            r matches Err(e) ==> e matches EnvelopeError::WrongDirection { operation: o, direction: d }
                && operation_of(self.meta_entries()) == Some(o@) && d@ == "manager-to-worker"@,
    {
        match self.validate_manager_to_worker() {
            Ok(()) => {
                let mut envelope = self;
                envelope.stamp_trusted(worker_id, socket_path);
                Ok(envelope)
            },
            Err(e) => Err(e),
        }
    }
}

// ── Session steps ────────────────────────────────────────────────────────

/// A handler of inbound envelopes.
#[derive(Debug, Clone, Copy, PartialEq, Eq, Structural)]
pub enum HandlerSlot {
    /// The manager-wide handler.
    Global,
    /// The handler of the worker that sent the envelope.
    Worker,
}

/// The handlers an inbound envelope reaches, in order: the manager-wide
/// handler first, then the worker's own, each only where one is installed.
pub open spec fn handler_order(has_global: bool, has_worker: bool) -> Seq<HandlerSlot> {
    (if has_global {
        seq![HandlerSlot::Global]
    } else {
        Seq::empty()
    }) + (if has_worker {
        seq![HandlerSlot::Worker]
    } else {
        Seq::empty()
    })
}

/// What a session does with an envelope a worker sent.
pub enum InboundStep {
    /// Log the message as a protocol error and close the connection.
    Close(String),
    /// Hand the stamped envelope to these handlers, in this order.
    Deliver(Envelope, Vec<HandlerSlot>),
}

/// The session's step on an envelope received from a worker: an operation
/// only the manager may send closes the connection with the refusal's
/// message; any other envelope is stamped with the trusted identity and
/// socket path and delivered to the manager-wide handler, then to the
/// worker's own.
pub fn inbound_step(
    envelope: Envelope,
    worker_id: &str,
    socket_path: &str,
    has_global: bool,
    has_worker: bool,
) -> (step: InboundStep)
    ensures
        match step {
            InboundStep::Close(m) => !direction_allows(
                operation_of(envelope.meta_entries()),
                worker_operations(),
            ) && exists|o: Seq<char>|
                operation_of(envelope.meta_entries()) == Some(o) && m@ == "Runpy operation '"@ + o
                    + "' is invalid for worker-to-manager envelopes"@,
            InboundStep::Deliver(e, handlers) => direction_allows(
                operation_of(envelope.meta_entries()),
                worker_operations(),
            ) && e.meta_content() == stamped_content(envelope.meta_content(), worker_id@, socket_path@)
                && e.meta_entries() == stamped(envelope.meta_entries(), worker_id@, socket_path@)
                && e.data_object() == envelope.data_object() && handlers@ == handler_order(
                has_global,
                has_worker,
            ),
        },
{
    let ghost original = envelope;
    match envelope.accept_inbound(worker_id, socket_path) {
        Ok(e) => {
            let mut handlers: Vec<HandlerSlot> = Vec::new();
            if has_global {
                handlers.push(HandlerSlot::Global);
            }
            if has_worker {
                handlers.push(HandlerSlot::Worker);
            }
            assert(handlers@ =~= handler_order(has_global, has_worker));
            InboundStep::Deliver(e, handlers)
        },
        Err(error) => {
            let m = error.message();
            proof {
                if let EnvelopeError::WrongDirection { operation: o, direction: d } = error {
                    assert(m@ == "Runpy operation '"@ + o@ + "' is invalid for "@ + d@
                        + " envelopes"@);
                    reveal_strlit("worker-to-manager");
                    reveal_strlit(" envelopes");
                    reveal_strlit("' is invalid for ");
                    reveal_strlit("' is invalid for worker-to-manager envelopes");
                    assert(m@ =~= "Runpy operation '"@ + o@
                        + "' is invalid for worker-to-manager envelopes"@);
                }
            }
            InboundStep::Close(m)
        },
    }
}

// ── Laws ─────────────────────────────────────────────────────────────────

/// Metadata after the trusted identity and socket path were stamped over it.
pub open spec fn stamped(
    entries: Map<Seq<char>, Option<Seq<char>>>,
    worker_id: Seq<char>,
    socket_path: Seq<char>,
) -> Map<Seq<char>, Option<Seq<char>>> {
    entries.insert(key_worker_id(), Some(worker_id)).insert(key_socket_path(), Some(socket_path))
}

/// Whatever identity and socket path a peer supplied, stamped metadata
/// carries the trusted ones, keeps the envelope's operation, and leaves every
/// other entry as it was.
pub proof fn lemma_stamp_is_trusted(
    entries: Map<Seq<char>, Option<Seq<char>>>,
    worker_id: Seq<char>,
    socket_path: Seq<char>,
)
    ensures
        stamped(entries, worker_id, socket_path)[key_worker_id()] == Some(worker_id),
        stamped(entries, worker_id, socket_path)[key_socket_path()] == Some(socket_path),
        operation_of(stamped(entries, worker_id, socket_path)) == operation_of(entries),
        forall|k: Seq<char>|
            k != key_worker_id() && k != key_socket_path() ==> (#[trigger] stamped(
                entries,
                worker_id,
                socket_path,
            ).contains_key(k) == entries.contains_key(k) && (entries.contains_key(k) ==> stamped(
                entries,
                worker_id,
                socket_path,
            )[k] == entries[k])),
{
    reveal_strlit("x_wid");
    reveal_strlit("x_spath");
    reveal_strlit("x_op");
    assert(key_worker_id().len() == 5);
    assert(key_socket_path().len() == 7);
    assert(key_operation().len() == 4);
}

/// Metadata values after the trusted identity and socket path were stamped.
pub open spec fn stamped_content(
    content: Map<Seq<char>, JsonView>,
    worker_id: Seq<char>,
    socket_path: Seq<char>,
) -> Map<Seq<char>, JsonView> {
    content.insert(key_worker_id(), JsonView::Str(worker_id)).insert(
        key_socket_path(),
        JsonView::Str(socket_path),
    )
}

/// Stamping sets the trusted identity and socket path as JSON strings and
/// leaves every other key with the JSON value it had, whatever its kind
/// (a number such as a correlation id, an object, an array, ...).
pub proof fn lemma_stamp_keeps_other_values(
    content: Map<Seq<char>, JsonView>,
    worker_id: Seq<char>,
    socket_path: Seq<char>,
)
    ensures
        stamped_content(content, worker_id, socket_path)[key_worker_id()] == JsonView::Str(
            worker_id,
        ),
        stamped_content(content, worker_id, socket_path)[key_socket_path()] == JsonView::Str(
            socket_path,
        ),
        forall|k: Seq<char>|
            k != key_worker_id() && k != key_socket_path() ==> (#[trigger] stamped_content(
                content,
                worker_id,
                socket_path,
            ).contains_key(k) == content.contains_key(k) && (content.contains_key(k)
                ==> stamped_content(content, worker_id, socket_path)[k] == content[k])),
{
    reveal_strlit("x_wid");
    reveal_strlit("x_spath");
    assert(key_worker_id().len() == 5);
    assert(key_socket_path().len() == 7);
}

/// Stamping keeps received metadata valid: an envelope that passed wire
/// validation still passes it with the trusted identity and path stamped in.
pub proof fn lemma_stamp_keeps_wire_validity(
    entries: Map<Seq<char>, Option<Seq<char>>>,
    worker_id: Seq<char>,
    socket_path: Seq<char>,
)
    requires
        wire_meta_valid(entries),
    ensures
        wire_meta_valid(stamped(entries, worker_id, socket_path)),
{
    lemma_stamp_is_trusted(entries, worker_id, socket_path);
    let s = stamped(entries, worker_id, socket_path);
    assert forall|k: Seq<char>| #[trigger] s.contains_key(k) implies !key_is_faulty(k, s[k]) by {
        if k != key_worker_id() && k != key_socket_path() {
            assert(entries.contains_key(k));
        }
    }
}

/// The lifecycle requests `execute`, `retry` and `terminate` are valid on the
/// wire, travel from the manager to a worker, and are refused in the other
/// direction.
pub proof fn lemma_lifecycle_requests_travel_to_workers(op: Seq<char>)
    requires
        manager_operations().contains(op),
    ensures
        wire_meta_valid(Map::<Seq<char>, Option<Seq<char>>>::empty().insert(key_operation(), Some(op))),
        direction_allows(
            operation_of(Map::<Seq<char>, Option<Seq<char>>>::empty().insert(key_operation(), Some(op))),
            manager_operations(),
        ),
        !direction_allows(
            operation_of(Map::<Seq<char>, Option<Seq<char>>>::empty().insert(key_operation(), Some(op))),
            worker_operations(),
        ),
{
    reveal_strlit("x_wid");
    reveal_strlit("x_spath");
    reveal_strlit("x_op");
    reveal_strlit("ready");
    reveal_strlit("execute");
    reveal_strlit("retry");
    reveal_strlit("terminate");
    reveal_strlit("done");
    reveal_strlit("error");
    reveal_strlit("log");
    let m = Map::<Seq<char>, Option<Seq<char>>>::empty().insert(key_operation(), Some(op));
    assert(op == manager_operations()[0] || op == manager_operations()[1] || op
        == manager_operations()[2]);
    assert(is_operation(op));
    assert forall|k: Seq<char>| #[trigger] m.contains_key(k) implies !key_is_faulty(k, m[k]) by {
        assert(k == key_operation());
    }
    assert(!worker_operations().contains(op)) by {
        if worker_operations().contains(op) {
            let i = choose|i: int| 0 <= i < 4 && worker_operations()[i] == op;
            assert(worker_operations()[i].len() != op.len() || worker_operations()[i][2] != op[2]);
        }
    }
}

/// A worker's reports `ready`, `done`, `error` and `log` are valid on the
/// wire, travel from a worker to the manager, and are refused in the other
/// direction.
pub proof fn lemma_worker_reports_travel_to_manager(op: Seq<char>)
    requires
        op == "ready"@ || op == "done"@ || op == "error"@ || op == "log"@,
    ensures
        wire_meta_valid(Map::<Seq<char>, Option<Seq<char>>>::empty().insert(key_operation(), Some(op))),
        direction_allows(
            operation_of(Map::<Seq<char>, Option<Seq<char>>>::empty().insert(key_operation(), Some(op))),
            worker_operations(),
        ),
        !direction_allows(
            operation_of(Map::<Seq<char>, Option<Seq<char>>>::empty().insert(key_operation(), Some(op))),
            manager_operations(),
        ),
{
    reveal_strlit("x_wid");
    reveal_strlit("x_spath");
    reveal_strlit("x_op");
    reveal_strlit("ready");
    reveal_strlit("execute");
    reveal_strlit("retry");
    reveal_strlit("terminate");
    reveal_strlit("done");
    reveal_strlit("error");
    reveal_strlit("log");
    let m = Map::<Seq<char>, Option<Seq<char>>>::empty().insert(key_operation(), Some(op));
    assert(is_operation(op));
    assert forall|k: Seq<char>| #[trigger] m.contains_key(k) implies !key_is_faulty(k, m[k]) by {
        assert(k == key_operation());
    }
    assert(worker_operations().contains(op)) by {
        if op == "ready"@ {
            assert(worker_operations()[0] == op);
        } else if op == "done"@ {
            assert(worker_operations()[1] == op);
        } else if op == "error"@ {
            assert(worker_operations()[2] == op);
        } else {
            assert(worker_operations()[3] == op);
        }
    }
    assert(!manager_operations().contains(op)) by {
        if manager_operations().contains(op) {
            let i = choose|i: int| 0 <= i < 3 && manager_operations()[i] == op;
            assert(manager_operations()[i].len() != op.len() || manager_operations()[i][2] != op[2]);
        }
    }
}

/// Every installed handler receives each delivered envelope exactly once,
/// no other handler does, and the manager-wide handler comes first.
pub proof fn lemma_every_installed_handler_is_called(has_global: bool, has_worker: bool)
    ensures
        handler_order(has_global, has_worker).contains(HandlerSlot::Global) <==> has_global,
        handler_order(has_global, has_worker).contains(HandlerSlot::Worker) <==> has_worker,
        handler_order(has_global, has_worker).len() == (if has_global {
            1int
        } else {
            0int
        }) + (if has_worker {
            1int
        } else {
            0int
        }),
        has_global ==> handler_order(has_global, has_worker)[0] == HandlerSlot::Global,
{
    let h = handler_order(has_global, has_worker);
    if has_global {
        assert(h[0] == HandlerSlot::Global);
    }
    if has_worker {
        assert(h[h.len() - 1] == HandlerSlot::Worker);
    }
    if !has_global {
        assert forall|i: int| 0 <= i < h.len() implies h[i] != HandlerSlot::Global by {}
    }
    if !has_worker {
        assert forall|i: int| 0 <= i < h.len() implies h[i] != HandlerSlot::Worker by {}
    }
}

/// Application envelopes carry no reserved metadata, so they are valid on
/// the wire and may travel in either direction.
pub proof fn lemma_custom_envelopes_travel_both_ways(entries: Map<Seq<char>, Option<Seq<char>>>)
    requires
        forall|k: Seq<char>| #[trigger] entries.contains_key(k) ==> !is_reserved(k),
    ensures
        wire_meta_valid(entries),
        operation_of(entries) is None,
        direction_allows(operation_of(entries), manager_operations()),
        direction_allows(operation_of(entries), worker_operations()),
{
    reveal_strlit("x_op");
    assert(is_reserved(key_operation()));
}

} // verus!
