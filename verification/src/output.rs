//! Attributed worker output: bounded line records cut from a process
//! stream, their escaped text, and the accounting of records dropped when
//! the shared output queue is full.
use vstd::prelude::*;
use vstd::string::StringExecFns;

use crate::level::LogLevel;
use crate::text::string_of;

verus! {

/// A record holds at most this many bytes of one line.
pub const MAX_RECORD_BYTES: usize = 16384;

/// The shared output queue holds at most this many records.
pub const OUTPUT_QUEUE_CAPACITY: usize = 256;

/// Which process stream a record came from.
#[derive(Debug, Clone, Copy, PartialEq, Eq, Hash)]
pub enum WorkerOutputStream {
    Stdout,
    Stderr,
}

/// One attributed record of worker output.
#[derive(Debug, Clone, PartialEq, Eq)]
pub struct WorkerOutput {
    /// The trusted identity of the worker that wrote it.
    pub worker_id: String,
    /// The stream it was read from.
    pub stream: WorkerOutputStream,
    /// The newline-free, escaped text.
    pub line: String,
    /// The line continues in the next record (it reached the byte bound).
    pub truncated: bool,
    /// Records dropped on the full queue since the previous accepted record.
    pub dropped_lines_before: u64,
}

// ── Cutting lines ────────────────────────────────────────────────────────

/// A cut piece of a stream: its bytes, and whether the line continues.
pub type Piece = (Seq<u8>, bool);

/// One byte more of a stream, given the records cut so far and the pending
/// bytes of the current line: a newline ends the line; any other byte joins
/// it, after the pending bytes are cut as a continuing record when they
/// already fill the bound.
pub open spec fn cut_step(state: (Seq<Piece>, Seq<u8>), b: u8) -> (Seq<Piece>, Seq<u8>) {
    let (done, cur) = state;
    if b == 10 {
        (done.push((cur, false)), Seq::empty())
    } else if cur.len() == MAX_RECORD_BYTES {
        (done.push((cur, true)), seq![b])
    } else {
        (done, cur.push(b))
    }
}

/// Cut all of `bytes` starting from `state`.
pub open spec fn cut_all(state: (Seq<Piece>, Seq<u8>), bytes: Seq<u8>) -> (Seq<Piece>, Seq<u8>)
    decreases bytes.len(),
{
    if bytes.len() == 0 {
        state
    } else {
        cut_step(cut_all(state, bytes.drop_last()), bytes.last())
    }
}

/// The bytes that pieces stand for: each piece followed by a newline unless
/// it continues.
pub open spec fn rejoin(pieces: Seq<Piece>) -> Seq<u8>
    decreases pieces.len(),
{
    if pieces.len() == 0 {
        Seq::empty()
    } else {
        let last = pieces.last();
        rejoin(pieces.drop_last()) + last.0 + if last.1 {
            Seq::empty()
        } else {
            seq![10u8]
        }
    }
}

/// Pieces are bounded and newline-free.
pub open spec fn pieces_wf(pieces: Seq<Piece>) -> bool {
    forall|i: int|
        0 <= i < pieces.len() ==> (#[trigger] pieces[i]).0.len() <= MAX_RECORD_BYTES && !pieces[i].0.contains(
            10u8,
        )
}

/// Pending bytes are bounded and newline-free.
pub open spec fn pending_wf(cur: Seq<u8>) -> bool {
    cur.len() <= MAX_RECORD_BYTES && !cur.contains(10u8)
}

/// A record cut from a stream.
#[derive(Debug, Clone, PartialEq, Eq)]
pub struct RawLine {
    /// The line's bytes, without the newline.
    pub bytes: Vec<u8>,
    /// The line continues in the next record.
    pub truncated: bool,
}

/// The pieces that raw lines stand for.
pub open spec fn raw_views(v: Seq<RawLine>) -> Seq<Piece> {
    v.map_values(|r: RawLine| (r.bytes@, r.truncated))
}

/// Cuts one process stream into bounded, newline-free records.
pub struct LineSplitter {
    pending: Vec<u8>,
}

impl LineSplitter {
    /// The bytes of the current, unfinished line.
    pub closed spec fn pending_bytes(&self) -> Seq<u8> {
        self.pending@
    }

    /// The pending bytes are bounded and newline-free.
    #[verifier::type_invariant]
    spec fn pending_is_bounded(&self) -> bool {
        pending_wf(self.pending@)
    }

    /// A splitter with no pending bytes.
    pub fn new() -> (s: Self)
        ensures
            s.pending_bytes() == Seq::<u8>::empty(),
    {
        let pending: Vec<u8> = Vec::new();
        assert(!pending@.contains(10u8));
        LineSplitter { pending }
    }

    /// Feed a chunk read from the stream; the records it completes come back
    /// in order.
    pub fn push(&mut self, chunk: &[u8]) -> (lines: Vec<RawLine>)
        ensures
            (raw_views(lines@), final(self).pending_bytes()) == cut_all(
                (Seq::empty(), old(self).pending_bytes()),
                chunk@,
            ),
    {
        proof {
            use_type_invariant(&*self);
        }
        let mut cur: Vec<u8> = Vec::new();
        assert(!cur@.contains(10u8));
        std::mem::swap(&mut cur, &mut self.pending);
        let mut out: Vec<RawLine> = Vec::new();
        let mut i: usize = 0;
        let ghost start = cur@;
        assert(chunk@.take(0) =~= Seq::<u8>::empty());
        assert(raw_views(out@) =~= Seq::<Piece>::empty());
        while i < chunk.len()
            invariant
                i <= chunk@.len(),
                pending_wf(cur@),
                (raw_views(out@), cur@) == cut_all((Seq::empty(), start), chunk@.take(i as int)),
            decreases chunk.len() - i,
        {
            let b = chunk[i];
            let ghost before = (raw_views(out@), cur@);
            proof {
                assert(chunk@.take(i + 1).drop_last() =~= chunk@.take(i as int));
                assert(chunk@.take(i + 1).last() == b);
            }
            if b == 10 {
                let mut line: Vec<u8> = Vec::new();
                std::mem::swap(&mut line, &mut cur);
                let ghost lv = line@;
                out.push(RawLine { bytes: line, truncated: false });
                proof {
                    assert(raw_views(out@) =~= before.0.push((lv, false)));
                    assert(!cur@.contains(10u8));
                }
            } else if cur.len() == MAX_RECORD_BYTES {
                let mut line: Vec<u8> = Vec::new();
                std::mem::swap(&mut line, &mut cur);
                let ghost lv = line@;
                out.push(RawLine { bytes: line, truncated: true });
                cur.push(b);
                proof {
                    assert(raw_views(out@) =~= before.0.push((lv, true)));
                    assert(cur@ =~= seq![b]);
                    assert(!cur@.contains(10u8)) by {
                        if cur@.contains(10u8) {
                            assert(cur@[0] == b);
                        }
                    }
                }
            } else {
                cur.push(b);
                proof {
                    assert(cur@ =~= before.1.push(b));
                    assert(!cur@.contains(10u8)) by {
                        if cur@.contains(10u8) {
                            let k = choose|k: int| 0 <= k < cur@.len() && cur@[k] == 10u8;
                            if k < before.1.len() {
                                assert(before.1[k] == 10u8);
                            }
                        }
                    }
                }
            }
            i += 1;
        }
        assert(chunk@.take(chunk@.len() as int) =~= chunk@);
        self.pending = cur;
        out
    }

    /// The stream ended: an unterminated final fragment becomes a record.
    pub fn finish(&mut self) -> (line: Option<RawLine>)
        ensures
            final(self).pending_bytes() == Seq::<u8>::empty(),
            match line {
                Some(r) => r.bytes@ == old(self).pending_bytes() && !r.truncated && old(
                    self,
                ).pending_bytes().len() > 0,
                None => old(self).pending_bytes().len() == 0,
            },
    {
        if self.pending.len() == 0 {
            return None;
        }
        let mut line: Vec<u8> = Vec::new();
        assert(!line@.contains(10u8));
        std::mem::swap(&mut line, &mut self.pending);
        Some(RawLine { bytes: line, truncated: false })
    }
}

// ── Laws of cutting ──────────────────────────────────────────────────────

/// Cutting preserves the stream: the records rejoined, followed by the
/// pending bytes, are exactly the bytes read, in order; and every record is
/// bounded and newline-free.
pub proof fn lemma_cut_preserves_bytes(bytes: Seq<u8>)
    ensures
        rejoin(cut_all((Seq::empty(), Seq::empty()), bytes).0) + cut_all(
            (Seq::empty(), Seq::empty()),
            bytes,
        ).1 == bytes,
        pieces_wf(cut_all((Seq::empty(), Seq::empty()), bytes).0),
        pending_wf(cut_all((Seq::empty(), Seq::empty()), bytes).1),
    decreases bytes.len(),
{
    if bytes.len() == 0 {
        assert(Seq::<u8>::empty() + Seq::<u8>::empty() =~= bytes);
    } else {
        let prev = bytes.drop_last();
        lemma_cut_preserves_bytes(prev);
        let (done, cur) = cut_all((Seq::empty(), Seq::empty()), prev);
        let b = bytes.last();
        let (done2, cur2) = cut_step((done, cur), b);
        assert(bytes =~= prev.push(b));
        if b == 10 {
            assert(done2.drop_last() =~= done);
            assert(rejoin(done2) =~= rejoin(done) + cur + seq![10u8]);
            assert(rejoin(done2) + cur2 =~= bytes);
            assert(!Seq::<u8>::empty().contains(10u8));
        } else if cur.len() == MAX_RECORD_BYTES {
            assert(done2.drop_last() =~= done);
            assert(rejoin(done2) =~= rejoin(done) + cur);
            assert(rejoin(done2) + cur2 =~= bytes);
            assert(!cur2.contains(10u8)) by {
                if cur2.contains(10u8) {
                    assert(cur2[0] == b);
                }
            }
        } else {
            assert(rejoin(done2) + cur2 =~= bytes);
            assert(!cur2.contains(10u8)) by {
                if cur2.contains(10u8) {
                    let k = choose|k: int| 0 <= k < cur2.len() && cur2[k] == 10u8;
                    if k < cur.len() {
                        assert(cur[k] == 10u8);
                    }
                }
            }
        }
    }
}

// ── Record text ──────────────────────────────────────────────────────────

/// The text of bytes decoded as std's `String::from_utf8_lossy` decodes them.
pub uninterp spec fn lossy_utf8(bytes: Seq<u8>) -> Seq<char>;

/// Decodes bytes as UTF-8, replacing invalid sequences with U+FFFD
/// (`String::from_utf8_lossy`). Valid UTF-8 decodes to its characters.
#[verifier::external_body]
fn decode_lossy(bytes: &[u8]) -> (s: String)
    ensures
        s@ == lossy_utf8(bytes@),
        vstd::utf8::valid_utf8(bytes@) ==> s@ == vstd::utf8::decode_utf8(bytes@),
{
    String::from_utf8_lossy(bytes).into_owned()
}

/// A Unicode control character (general category `Cc`).
pub open spec fn is_control(c: char) -> bool {
    (c as u32) < 0x20 || (0x7F <= (c as u32) && (c as u32) <= 0x9F)
}

/// The lowercase hexadecimal digit for `d < 16`.
pub open spec fn hex_digit(d: nat) -> char {
    if d < 10 {
        ((48 + d) as u8) as char
    } else {
        ((87 + d) as u8) as char
    }
}

/// The lowercase hexadecimal text of `n`, without leading zeros.
pub open spec fn hex(n: nat) -> Seq<char>
    decreases n,
{
    if n < 16 {
        seq![hex_digit(n)]
    } else {
        hex(n / 16).push(hex_digit(n % 16))
    }
}

/// The escaped form of one character: a control character other than tab
/// becomes `\u{..}` with its code in lowercase hex; others stay.
pub open spec fn escape_char(c: char) -> Seq<char> {
    if is_control(c) && c != '\t' {
        "\\u{"@ + hex(c as u32 as nat) + "}"@
    } else {
        seq![c]
    }
}

/// The escaped form of a text.
pub open spec fn escaped(s: Seq<char>) -> Seq<char>
    decreases s.len(),
{
    if s.len() == 0 {
        Seq::empty()
    } else {
        escaped(s.drop_last()) + escape_char(s.last())
    }
}

/// A character that record text keeps as it is: tab, or any character
/// outside the C0 (`U+0000`..`U+001F`) and C1 (`U+007F`..`U+009F`) control
/// ranges.
pub open spec fn kept_as_is(c: char) -> bool {
    c == '\t' || ((c as u32) >= 0x20 && !(0x7F <= (c as u32) && (c as u32) <= 0x9F))
}

/// Escaping appends: a kept character is appended unchanged, and text made
/// only of kept characters escapes to itself.
pub proof fn lemma_kept_characters_stay(s: Seq<char>, c: char)
    ensures
        kept_as_is(c) ==> escaped(s.push(c)) == escaped(s).push(c),
        (forall|i: int| 0 <= i < s.len() ==> kept_as_is(#[trigger] s[i])) ==> escaped(s) == s,
    decreases s.len(),
{
    let t = s.push(c);
    assert(t.drop_last() =~= s);
    if kept_as_is(c) {
        assert(escape_char(c) =~= seq![c]);
        assert(escaped(t) =~= escaped(s).push(c));
    }
    if s.len() > 0 && (forall|i: int| 0 <= i < s.len() ==> kept_as_is(#[trigger] s[i])) {
        let p = s.drop_last();
        assert forall|i: int| 0 <= i < p.len() implies kept_as_is(#[trigger] p[i]) by {
            assert(p[i] == s[i]);
        }
        lemma_kept_characters_stay(p, s.last());
        assert(kept_as_is(s[s.len() - 1]));
        assert(p.push(s.last()) =~= s);
    }
}

/// Hex digits are ASCII digits or lowercase letters `a` to `f`.
proof fn lemma_hex_is_plain(n: nat)
    ensures
        forall|i: int|
            0 <= i < hex(n).len() ==> ('0' <= #[trigger] hex(n)[i] && hex(n)[i] <= '9') || ('a'
                <= hex(n)[i] && hex(n)[i] <= 'f'),
    decreases n,
{
    if n >= 16 {
        lemma_hex_is_plain(n / 16);
        assert forall|i: int| 0 <= i < hex(n).len() implies ('0' <= #[trigger] hex(n)[i] && hex(
            n,
        )[i] <= '9') || ('a' <= hex(n)[i] && hex(n)[i] <= 'f') by {
            if i < hex(n / 16).len() {
                assert(hex(n)[i] == hex(n / 16)[i]);
            }
        }
    }
}

/// Escaped text holds no control character other than tab.
pub proof fn lemma_escaped_has_no_controls(s: Seq<char>)
    ensures
        forall|i: int| 0 <= i < escaped(s).len() ==> kept_as_is(#[trigger] escaped(s)[i]),
    decreases s.len(),
{
    if s.len() > 0 {
        let p = s.drop_last();
        let c = s.last();
        lemma_escaped_has_no_controls(p);
        let e = escape_char(c);
        assert forall|i: int| 0 <= i < e.len() implies kept_as_is(#[trigger] e[i]) by {
            if is_control(c) && c != '\t' {
                reveal_strlit("\\u{");
                reveal_strlit("}");
                let h = hex(c as u32 as nat);
                lemma_hex_is_plain(c as u32 as nat);
                assert(e =~= seq!['\\', 'u', '{'] + h + seq!['}']);
                if 3 <= i < 3 + h.len() {
                    assert(e[i] == h[i - 3]);
                }
            }
        }
        let q = escaped(p);
        assert(escaped(s) =~= q + e);
        assert forall|i: int| 0 <= i < escaped(s).len() implies kept_as_is(
            #[trigger] escaped(s)[i],
        ) by {
            if i < q.len() {
                assert(escaped(s)[i] == q[i]);
            } else {
                assert(escaped(s)[i] == e[i - q.len()]);
            }
        }
    }
}

/// The lowercase hex digits of `n`.
fn hex_chars(n: u32) -> (v: Vec<char>)
    ensures
        v@ == hex(n as nat),
    decreases n,
{
    let d = (n % 16) as u8;
    let c = if d < 10 { (48u8 + d) as char } else { (87u8 + d) as char };
    if n < 16 {
        let mut v: Vec<char> = Vec::new();
        v.push(c);
        assert(v@ =~= seq![hex_digit(n as nat)]);
        v
    } else {
        let mut v = hex_chars(n / 16);
        v.push(c);
        v
    }
}

/// Escape control characters other than tab.
pub fn escape_text(s: &Vec<char>) -> (e: Vec<char>)
    ensures
        e@ == escaped(s@),
{
    let mut out: Vec<char> = Vec::new();
    let mut i: usize = 0;
    assert(s@.take(0) =~= Seq::<char>::empty());
    while i < s.len()
        invariant
            i <= s@.len(),
            out@ == escaped(s@.take(i as int)),
        decreases s.len() - i,
    {
        let c = s[i];
        let n = c as u32;
        proof {
            assert(s@.take(i + 1).drop_last() =~= s@.take(i as int));
            assert(s@.take(i + 1).last() == c);
        }
        let ghost before = out@;
        if (n < 0x20 || (0x7F <= n && n <= 0x9F)) && c != '\t' {
            out.push('\\');
            out.push('u');
            out.push('{');
            let digits = hex_chars(n);
            let mut j: usize = 0;
            proof {
                reveal_strlit("\\u{");
                assert(out@ =~= before + "\\u{"@ + digits@.take(0));
            }
            while j < digits.len()
                invariant
                    j <= digits@.len(),
                    out@ == before + "\\u{"@ + digits@.take(j as int),
                decreases digits.len() - j,
            {
                out.push(digits[j]);
                j += 1;
                assert(out@ =~= before + "\\u{"@ + digits@.take(j as int));
            }
            out.push('}');
            proof {
                reveal_strlit("\\u{");
                reveal_strlit("}");
                assert(digits@.take(digits@.len() as int) =~= digits@);
                assert(out@ =~= before + escape_char(c));
            }
        } else {
            out.push(c);
            assert(out@ =~= before + escape_char(c));
        }
        i += 1;
    }
    assert(s@.take(s@.len() as int) =~= s@);
    out
}

/// The text of a record: decoded lossily, control characters escaped.
pub fn record_line(bytes: &[u8]) -> (line: String)
    ensures
        line@ == escaped(lossy_utf8(bytes@)),
{
    let decoded = decode_lossy(bytes);
    let chars = crate::text::chars_of(decoded.as_str());
    let e = escape_text(&chars);
    string_of(&e)
}

/// The attributed record of a raw line.
pub fn output_record(worker_id: &str, stream: WorkerOutputStream, raw: &RawLine, dropped_lines_before: u64) -> (r: WorkerOutput)
    ensures
        r.worker_id@ == worker_id@,
        r.stream == stream,
        r.line@ == escaped(lossy_utf8(raw.bytes@)),
        r.truncated == raw.truncated,
        r.dropped_lines_before == dropped_lines_before,
{
    WorkerOutput {
        worker_id: String::from_str(worker_id),
        stream,
        line: record_line(raw.bytes.as_slice()),
        truncated: raw.truncated,
        dropped_lines_before,
    }
}

/// The log message of a record and its severity: stdout at `Info`, stderr
/// at `Warning`, as `[worker:<id>][stdout] <line>` or `[worker:<id>][stderr] <line>`.
pub fn output_log_entry(record: &WorkerOutput) -> (entry: (LogLevel, String))
    ensures
        entry.0 == match record.stream {
            WorkerOutputStream::Stdout => LogLevel::Info,
            WorkerOutputStream::Stderr => LogLevel::Warning,
        },
        entry.1@ == "[worker:"@ + record.worker_id@ + (match record.stream {
            WorkerOutputStream::Stdout => "][stdout] "@,
            WorkerOutputStream::Stderr => "][stderr] "@,
        }) + record.line@,
{
    let mut m = String::from_str("[worker:");
    m.append(record.worker_id.as_str());
    let level = match record.stream {
        WorkerOutputStream::Stdout => {
            m.append("][stdout] ");
            LogLevel::Info
        },
        WorkerOutputStream::Stderr => {
            m.append("][stderr] ");
            LogLevel::Warning
        },
    };
    m.append(record.line.as_str());
    (level, m)
}

// ── Drop accounting ──────────────────────────────────────────────────────

/// Counts records dropped on a full output queue until the next record is
/// accepted, which then reports them.
pub struct DropCounter {
    dropped: u64,
}

/// One offered record's effect on the accounting: the count it carried is
/// reported if it was accepted; otherwise the count, and the record itself,
/// remain owed.
pub open spec fn offer_step(state: (nat, nat), accepted: bool) -> (nat, nat) {
    let (reported, owed) = state;
    if accepted {
        (reported + owed, 0)
    } else {
        (reported, owed + 1)
    }
}

/// The accounting after a sequence of offers.
pub open spec fn offers(outcomes: Seq<bool>) -> (nat, nat)
    decreases outcomes.len(),
{
    if outcomes.len() == 0 {
        (0, 0)
    } else {
        offer_step(offers(outcomes.drop_last()), outcomes.last())
    }
}

/// The number of refused offers.
pub open spec fn refusals(outcomes: Seq<bool>) -> nat
    decreases outcomes.len(),
{
    if outcomes.len() == 0 {
        0
    } else {
        refusals(outcomes.drop_last()) + if outcomes.last() {
            0nat
        } else {
            1nat
        }
    }
}

impl DropCounter {
    /// Records dropped and not yet reported.
    pub closed spec fn owed(&self) -> nat {
        self.dropped as nat
    }

    /// Nothing dropped yet.
    pub fn new() -> (c: Self)
        ensures
            c.owed() == 0,
    {
        DropCounter { dropped: 0 }
    }

    /// The count the next offered record carries; the counter restarts.
    pub fn take(&mut self) -> (n: u64)
        ensures
            n as nat == old(self).owed(),
            final(self).owed() == 0,
    {
        let n = self.dropped;
        self.dropped = 0;
        n
    }

    /// The offered record, carrying `carried`, was refused: what it carried
    /// and the record itself are owed (saturating at `u64::MAX`).
    pub fn refused(&mut self, carried: u64)
        ensures
            final(self).owed() == if old(self).owed() + carried + 1 <= u64::MAX {
                (old(self).owed() + carried + 1) as nat
            } else {
                u64::MAX as nat
            },
    {
        let total = self.dropped.saturating_add(carried).saturating_add(1);
        self.dropped = total;
    }
}

/// No loss goes unreported: over any sequence of offers, the counts reported
/// by accepted records plus the count still owed equal the number of refused
/// records.
pub proof fn lemma_drops_are_reported(outcomes: Seq<bool>)
    ensures
        offers(outcomes).0 + offers(outcomes).1 == refusals(outcomes),
    decreases outcomes.len(),
{
    if outcomes.len() > 0 {
        lemma_drops_are_reported(outcomes.drop_last());
    }
}

} // verus!
