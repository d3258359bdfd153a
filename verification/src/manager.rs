//! Worker identities, the worker builder's configuration, and the launch
//! plan that spawning a worker executes.
use vstd::prelude::*;
use vstd::string::StringExecFns;

use crate::clock::{local_now_formatted, minute_stamp_text};
use crate::text::{chars_of, string_of, text_eq};

verus! {

// ── Identity ─────────────────────────────────────────────────────────────

/// An ASCII letter or digit.
pub open spec fn is_ascii_alphanumeric(c: char) -> bool {
    ('0' <= c && c <= '9') || ('A' <= c && c <= 'Z') || ('a' <= c && c <= 'z')
}

/// A worker name: script stem, timestamp and random suffix, joined by `_`.
pub open spec fn identity_name(script: Seq<char>, timestamp: Seq<char>, suffix: Seq<char>) -> Seq<
    char,
> {
    script + "_"@ + timestamp + "_"@ + suffix
}

/// The socket file name of a worker name.
pub open spec fn socket_file_name(name: Seq<char>) -> Seq<char> {
    "rp_"@ + name + ".sock"@
}

/// One character from rand's `Alphanumeric` distribution, drawn with the
/// thread-local generator (`rand::thread_rng`, `Rng::sample`). rand documents
/// the distribution as uniform over `a-z`, `A-Z` and `0-9`; which character
/// comes is chance, so only that it is one of those is stated.
#[verifier::external_body]
fn random_alphanumeric() -> (c: char)
    ensures
        is_ascii_alphanumeric(c),
{
    char::from(rand::Rng::sample(&mut rand::thread_rng(), rand::distributions::Alphanumeric))
}

/// The current local date and time to the minute, `DDMMYYYY-HHMM`.
fn minute_stamp() -> (t: String)
    ensures
        minute_stamp_text(t@),
{
    local_now_formatted("%d%m%Y-%H%M")
}

/// Unique identity assigned to one spawned worker process.
///
/// Names contain the script stem, a minute-resolution timestamp, and a
/// four-character random suffix. Socket filenames prefix that name with `rp_`
/// and append `.sock`.
#[derive(Debug, Clone, PartialEq, Eq)]
pub struct WorkerIdentity {
    /// Trusted identifier stamped into protocol messages and output records.
    pub name: String,
    /// Filename used beneath the Manager's socket directory.
    pub sock_file: String,
}

impl WorkerIdentity {
    /// The identity made of a script stem, a timestamp and a suffix.
    pub fn from_parts(script: &str, timestamp: &str, suffix: &str) -> (id: Self)
        ensures
            id.name@ == identity_name(script@, timestamp@, suffix@),
            id.sock_file@ == socket_file_name(id.name@),
    {
        let mut name = String::from_str(script);
        name.append("_");
        name.append(timestamp);
        name.append("_");
        name.append(suffix);
        let mut sock_file = String::from_str("rp_");
        sock_file.append(name.as_str());
        sock_file.append(".sock");
        WorkerIdentity { name, sock_file }
    }

    /// Generate a fresh identity for `script` from the local clock and four
    /// random alphanumeric characters.
    pub fn new(script: &str) -> (id: Self)
        ensures
            exists|timestamp: Seq<char>, suffix: Seq<char>|
                {
                    &&& minute_stamp_text(timestamp)
                    &&& suffix.len() == 4
                    &&& forall|i: int| 0 <= i < 4 ==> is_ascii_alphanumeric(#[trigger] suffix[i])
                    &&& id.name@ == identity_name(script@, timestamp, suffix)
                },
            id.sock_file@ == socket_file_name(id.name@),
    {
        let timestamp = minute_stamp();
        let mut chars: Vec<char> = Vec::new();
        let mut i: usize = 0;
        while i < 4
            invariant
                i <= 4,
                chars@.len() == i,
                forall|j: int| 0 <= j < i ==> is_ascii_alphanumeric(#[trigger] chars@[j]),
            decreases 4 - i,
        {
            chars.push(random_alphanumeric());
            i += 1;
        }
        let suffix = string_of(&chars);
        WorkerIdentity::from_parts(script, timestamp.as_str(), suffix.as_str())
    }
}

// ── Builder configuration ────────────────────────────────────────────────

/// Key/value pairs as texts.
pub open spec fn pair_views(p: Seq<(String, String)>) -> Seq<(Seq<char>, Seq<char>)> {
    p.map_values(|e: (String, String)| (e.0@, e.1@))
}

/// No key occurs twice.
pub open spec fn keys_distinct(p: Seq<(Seq<char>, Seq<char>)>) -> bool {
    forall|i: int, j: int| 0 <= i < j < p.len() ==> #[trigger] p[i].0 != #[trigger] p[j].0
}

/// Set `key` to `value`: an existing key keeps its position and takes the
/// new value; a new key is appended.
pub open spec fn set_pair(p: Seq<(Seq<char>, Seq<char>)>, key: Seq<char>, value: Seq<char>) -> Seq<
    (Seq<char>, Seq<char>),
> {
    if exists|i: int| 0 <= i < p.len() && p[i].0 == key {
        let i = choose|i: int| 0 <= i < p.len() && p[i].0 == key;
        p.update(i, (key, value))
    } else {
        p.push((key, value))
    }
}

/// Set every pair of `q`, in order.
pub open spec fn set_all(p: Seq<(Seq<char>, Seq<char>)>, q: Seq<(Seq<char>, Seq<char>)>) -> Seq<
    (Seq<char>, Seq<char>),
>
    decreases q.len(),
{
    if q.len() == 0 {
        p
    } else {
        let r = set_all(p, q.drop_last());
        set_pair(r, q.last().0, q.last().1)
    }
}

/// Setting a pair keeps keys distinct.
proof fn lemma_set_pair_distinct(p: Seq<(Seq<char>, Seq<char>)>, key: Seq<char>, value: Seq<char>)
    requires
        keys_distinct(p),
    ensures
        keys_distinct(set_pair(p, key, value)),
{
    if exists|i: int| 0 <= i < p.len() && p[i].0 == key {
        let i = choose|i: int| 0 <= i < p.len() && p[i].0 == key;
        let r = p.update(i, (key, value));
        assert forall|a: int, b: int| 0 <= a < b < r.len() implies #[trigger] r[a].0 != #[trigger] r[b].0 by {
            if a != i && b != i {
                assert(p[a].0 != p[b].0);
            } else if a == i {
                assert(p[i].0 != p[b].0);
            } else {
                assert(p[a].0 != p[i].0);
            }
        }
    } else {
        let r = p.push((key, value));
        assert forall|a: int, b: int| 0 <= a < b < r.len() implies #[trigger] r[a].0 != #[trigger] r[b].0 by {
            if b < p.len() {
                assert(p[a].0 != p[b].0);
            } else {
                assert(r[a].0 == p[a].0);
            }
        }
    }
}

/// With distinct keys, setting a key found at `i` updates position `i`.
proof fn lemma_set_pair_at(p: Seq<(Seq<char>, Seq<char>)>, k: int, key: Seq<char>, value: Seq<char>)
    requires
        keys_distinct(p),
        0 <= k < p.len(),
        p[k].0 == key,
    ensures
        set_pair(p, key, value) == p.update(k, (key, value)),
{
    assert(exists|i: int| 0 <= i < p.len() && p[i].0 == key);
    let i = choose|i: int| 0 <= i < p.len() && p[i].0 == key;
    if i != k {
        if i < k {
            assert(p[i].0 != p[k].0);
        } else {
            assert(p[k].0 != p[i].0);
        }
    }
}

/// Set `key` to `value` in a vector of pairs with distinct keys.
fn set_entry(pairs: &mut Vec<(String, String)>, key: &str, value: &str)
    requires
        keys_distinct(pair_views(old(pairs)@)),
    ensures
        pair_views(final(pairs)@) == set_pair(pair_views(old(pairs)@), key@, value@),
        keys_distinct(pair_views(final(pairs)@)),
{
    let ghost before = pair_views(pairs@);
    proof {
        lemma_set_pair_distinct(before, key@, value@);
    }
    let mut i: usize = 0;
    while i < pairs.len()
        invariant
            i <= pairs@.len(),
            pairs@ == old(pairs)@,
            before == pair_views(pairs@),
            keys_distinct(before),
            forall|j: int| 0 <= j < i ==> before[j].0 != key@,
        decreases pairs.len() - i,
    {
        if text_eq(pairs[i].0.as_str(), key) {
            proof {
                lemma_set_pair_at(before, i as int, key@, value@);
            }
            pairs.set(i, (String::from_str(key), String::from_str(value)));
            proof {
                assert(pair_views(pairs@) =~= before.update(i as int, (key@, value@)));
            }
            return;
        }
        i += 1;
    }
    pairs.push((String::from_str(key), String::from_str(value)));
    proof {
        assert(pair_views(pairs@) =~= before.push((key@, value@)));
        assert(!(exists|i: int| 0 <= i < before.len() && before[i].0 == key@));
    }
}

/// The builder's configuration of one worker: its script, environment and
/// extra arguments in the order first set, and the identity a successful
/// spawn recorded.
#[derive(Debug)]
pub struct WorkerSpec {
    script: String,
    env_vars: Vec<(String, String)>,
    extra_args: Vec<(String, String)>,
    worker_id: Option<String>,
}

impl WorkerSpec {
    /// The script stem.
    pub closed spec fn script_name(&self) -> Seq<char> {
        self.script@
    }

    /// The environment variables, in the order first set.
    pub closed spec fn env_pairs(&self) -> Seq<(Seq<char>, Seq<char>)> {
        pair_views(self.env_vars@)
    }

    /// The extra `--key=value` arguments, in the order first set.
    pub closed spec fn arg_pairs(&self) -> Seq<(Seq<char>, Seq<char>)> {
        pair_views(self.extra_args@)
    }

    /// The identity of the spawned worker, once spawned.
    pub closed spec fn spawned_as(&self) -> Option<Seq<char>> {
        match self.worker_id {
            Some(id) => Some(id@),
            None => None,
        }
    }

    /// Keys are distinct in both lists.
    #[verifier::type_invariant]
    spec fn keys_are_distinct(&self) -> bool {
        keys_distinct(pair_views(self.env_vars@)) && keys_distinct(pair_views(self.extra_args@))
    }

    /// A configuration for `script`: no environment, no arguments, not spawned.
    pub fn new(script: &str) -> (s: Self)
        ensures
            s.script_name() == script@,
            s.env_pairs() == Seq::<(Seq<char>, Seq<char>)>::empty(),
            s.arg_pairs() == Seq::<(Seq<char>, Seq<char>)>::empty(),
            s.spawned_as() is None,
    {
        let env_vars: Vec<(String, String)> = Vec::new();
        let extra_args: Vec<(String, String)> = Vec::new();
        assert(pair_views(env_vars@) =~= Seq::<(Seq<char>, Seq<char>)>::empty());
        assert(pair_views(extra_args@) =~= Seq::<(Seq<char>, Seq<char>)>::empty());
        WorkerSpec { script: String::from_str(script), env_vars, extra_args, worker_id: None }
    }

    /// The script stem.
    pub fn script(&self) -> (s: &str)
        ensures
            s@ == self.script_name(),
    {
        self.script.as_str()
    }

    /// Set or replace an environment variable.
    pub fn env(&mut self, key: &str, value: &str)
        ensures
            final(self).env_pairs() == set_pair(old(self).env_pairs(), key@, value@),
            final(self).arg_pairs() == old(self).arg_pairs(),
            final(self).script_name() == old(self).script_name(),
            final(self).spawned_as() == old(self).spawned_as(),
    {
        proof {
            use_type_invariant(&*self);
        }
        let mut pairs: Vec<(String, String)> = Vec::new();
        assert(pair_views(pairs@) =~= Seq::<(Seq<char>, Seq<char>)>::empty());
        std::mem::swap(&mut pairs, &mut self.env_vars);
        set_entry(&mut pairs, key, value);
        self.env_vars = pairs;
    }

    /// Set or replace one extra `--key=value` argument.
    pub fn arg(&mut self, key: &str, value: &str)
        ensures
            final(self).arg_pairs() == set_pair(old(self).arg_pairs(), key@, value@),
            final(self).env_pairs() == old(self).env_pairs(),
            final(self).script_name() == old(self).script_name(),
            final(self).spawned_as() == old(self).spawned_as(),
    {
        proof {
            use_type_invariant(&*self);
        }
        let mut pairs: Vec<(String, String)> = Vec::new();
        assert(pair_views(pairs@) =~= Seq::<(Seq<char>, Seq<char>)>::empty());
        std::mem::swap(&mut pairs, &mut self.extra_args);
        set_entry(&mut pairs, key, value);
        self.extra_args = pairs;
    }

    /// Set several extra arguments, in order; later values replace earlier
    /// ones for the same key.
    pub fn args(&mut self, args: &Vec<(String, String)>)
        ensures
            final(self).arg_pairs() == set_all(old(self).arg_pairs(), pair_views(args@)),
            final(self).env_pairs() == old(self).env_pairs(),
            final(self).script_name() == old(self).script_name(),
            final(self).spawned_as() == old(self).spawned_as(),
    {
        let ghost start = self.arg_pairs();
        let ghost q = pair_views(args@);
        let mut i: usize = 0;
        while i < args.len()
            invariant
                i <= args@.len(),
                q == pair_views(args@),
                self.arg_pairs() == set_all(start, q.take(i as int)),
                self.env_pairs() == old(self).env_pairs(),
                self.script_name() == old(self).script_name(),
                self.spawned_as() == old(self).spawned_as(),
            decreases args.len() - i,
        {
            assert(q.take(i + 1).drop_last() =~= q.take(i as int));
            self.arg(args[i].0.as_str(), args[i].1.as_str());
            i += 1;
        }
        assert(q.take(args@.len() as int) =~= q);
    }

    /// A spawn may begin only once.
    pub fn claim_spawn(&self) -> (r: Result<(), String>)
        ensures
            r is Ok <==> self.spawned_as() is None,
            r matches Err(m) ==> m@ == "Worker has already been spawned"@,
    {
        if self.worker_id.is_some() {
            Err(String::from_str("Worker has already been spawned"))
        } else {
            Ok(())
        }
    }

    /// Record the identity of the spawned worker.
    pub fn record_spawn(&mut self, worker_id: &str)
        ensures
            final(self).spawned_as() == Some(worker_id@),
            final(self).env_pairs() == old(self).env_pairs(),
            final(self).arg_pairs() == old(self).arg_pairs(),
            final(self).script_name() == old(self).script_name(),
    {
        proof {
            use_type_invariant(&*self);
        }
        self.worker_id = Some(String::from_str(worker_id));
    }

    /// The spawned worker's identity; messages and termination need it.
    pub fn spawned_id(&self) -> (r: Result<String, String>)
        ensures
            match r {
                Ok(id) => self.spawned_as() == Some(id@),
                Err(m) => self.spawned_as() is None && m@ == "Worker has not been spawned yet"@,
            },
    {
        match &self.worker_id {
            Some(id) => Ok(id.clone()),
            None => Err(String::from_str("Worker has not been spawned yet")),
        }
    }
}

// ── Launch plan ──────────────────────────────────────────────────────────

/// A script name names one root-level file: it is not empty, holds no `/`,
/// and is neither `.` nor `..`.
pub open spec fn single_component(name: Seq<char>) -> bool {
    &&& name.len() > 0
    &&& !name.contains('/')
    &&& name != "."@
    &&& name != ".."@
}

/// Refuse a script name that is not a single path component.
pub fn check_script_name(name: &str) -> (r: Result<(), String>)
    ensures
        r is Ok <==> single_component(name@),
        r matches Err(m) ==> m@ == "Worker script name must be a single path component"@,
{
    proof {
        reveal_strlit(".");
        reveal_strlit("..");
    }
    let c = chars_of(name);
    let mut i: usize = 0;
    while i < c.len()
        invariant
            i <= c@.len(),
            c@ == name@,
            forall|j: int| 0 <= j < i ==> c@[j] != '/',
        decreases c.len() - i,
    {
        if c[i] == '/' {
            assert(name@.contains('/'));
            return Err(String::from_str("Worker script name must be a single path component"));
        }
        i += 1;
    }
    assert(!name@.contains('/'));
    if c.len() == 0 || text_eq(name, ".") || text_eq(name, "..") {
        return Err(String::from_str("Worker script name must be a single path component"));
    }
    Ok(())
}

/// `name` beneath `dir`, as `Path::join` forms it for a relative single
/// component: no separator after an empty directory, none added after a
/// trailing `/`, one `/` otherwise.
pub open spec fn joined(dir: Seq<char>, name: Seq<char>) -> Seq<char> {
    if dir.len() == 0 {
        name
    } else if dir.last() == '/' {
        dir + name
    } else {
        dir + "/"@ + name
    }
}

/// Join a single-component `name` beneath `dir`.
pub fn join_path(dir: &str, name: &str) -> (p: String)
    ensures
        p@ == joined(dir@, name@),
{
    let c = chars_of(dir);
    if c.len() == 0 {
        String::from_str(name)
    } else if c[c.len() - 1] == '/' {
        let mut p = String::from_str(dir);
        p.append(name);
        p
    } else {
        let mut p = String::from_str(dir);
        p.append("/");
        p.append(name);
        p
    }
}

/// The file of a worker script: `<scripts_dir>/<script>.py`.
pub fn script_file(scripts_dir: &str, script: &str) -> (p: String)
    ensures
        p@ == joined(scripts_dir@, script@ + ".py"@),
{
    let mut file = String::from_str(script);
    file.append(".py");
    join_path(scripts_dir, file.as_str())
}

/// The lock file adjacent to a script file: `<script>.py.lock`.
pub fn lock_file(script_file: &str) -> (p: String)
    ensures
        p@ == script_file@ + ".lock"@,
{
    let mut p = String::from_str(script_file);
    p.append(".lock");
    p
}

// ── The uv executable ────────────────────────────────────────────────────

/// The pieces of `rest` between slashes, after a current piece `cur`; empty
/// pieces included.
pub open spec fn slash_pieces_from(rest: Seq<char>, cur: Seq<char>) -> Seq<Seq<char>>
    decreases rest.len(),
{
    if rest.len() == 0 {
        seq![cur]
    } else if rest[0] == '/' {
        seq![cur] + slash_pieces_from(rest.drop_first(), Seq::empty())
    } else {
        slash_pieces_from(rest.drop_first(), cur.push(rest[0]))
    }
}

/// The pieces of a path between slashes (at least one, possibly empty).
pub open spec fn slash_pieces(path: Seq<char>) -> Seq<Seq<char>> {
    slash_pieces_from(path, Seq::empty())
}

/// A piece that names a component: not empty and not `.`.
pub open spec fn is_named_piece(piece: Seq<char>) -> bool {
    piece.len() > 0 && piece != "."@
}

/// The number of named pieces.
pub open spec fn named_count(pieces: Seq<Seq<char>>) -> nat
    decreases pieces.len(),
{
    if pieces.len() == 0 {
        0
    } else {
        named_count(pieces.drop_last()) + if is_named_piece(pieces.last()) {
            1nat
        } else {
            0nat
        }
    }
}

/// The number of components `Path::components` yields for a relative path:
/// repeated and trailing slashes and inner `.` pieces are normalized away,
/// and a leading `.` piece is one component.
pub open spec fn relative_component_count(path: Seq<char>) -> nat {
    named_count(slash_pieces(path)) + if slash_pieces(path)[0] == "."@ {
        1nat
    } else {
        0nat
    }
}

/// The configured `uv` path is run as given when it is absolute (starts
/// with `/`) or a single component, such as `uv`, which the operating
/// system resolves; any other relative path is made absolute first.
pub open spec fn runs_as_given(path: Seq<char>) -> bool {
    (path.len() > 0 && path[0] == '/') || relative_component_count(path) == 1
}

/// The pieces of a path between slashes.
fn split_slashes(s: &Vec<char>) -> (ps: Vec<Vec<char>>)
    ensures
        ps@.map_values(|p: Vec<char>| p@) == slash_pieces(s@),
{
    let mut out: Vec<Vec<char>> = Vec::new();
    let mut cur: Vec<char> = Vec::new();
    let mut i: usize = 0;
    assert(s@.skip(0) =~= s@);
    assert(out@.map_values(|p: Vec<char>| p@) + slash_pieces(s@) =~= slash_pieces(s@));
    while i < s.len()
        invariant
            i <= s@.len(),
            out@.map_values(|p: Vec<char>| p@) + slash_pieces_from(s@.skip(i as int), cur@)
                == slash_pieces(s@),
        decreases s.len() - i,
    {
        assert(s@.skip(i as int).drop_first() =~= s@.skip(i + 1));
        if s[i] == '/' {
            let ghost before = out@.map_values(|p: Vec<char>| p@);
            let ghost cv = cur@;
            out.push(cur);
            cur = Vec::new();
            proof {
                assert(out@.map_values(|p: Vec<char>| p@) =~= before.push(cv));
                assert(before.push(cv) + slash_pieces_from(s@.skip(i + 1), Seq::empty()) =~= before
                    + (seq![cv] + slash_pieces_from(s@.skip(i + 1), Seq::empty())));
                assert(cur@ =~= Seq::<char>::empty());
            }
        } else {
            cur.push(s[i]);
        }
        i += 1;
    }
    let ghost before = out@.map_values(|p: Vec<char>| p@);
    assert(s@.skip(i as int) =~= Seq::<char>::empty());
    let ghost cv = cur@;
    out.push(cur);
    assert(out@.map_values(|p: Vec<char>| p@) =~= before + seq![cv]);
    out
}

/// Whether the configured `uv` path is run as given (see [`runs_as_given`]).
pub fn uv_runs_as_given(path: &str) -> (r: bool)
    ensures
        r == runs_as_given(path@),
{
    let chars = chars_of(path);
    if chars.len() > 0 && chars[0] == '/' {
        return true;
    }
    let pieces = split_slashes(&chars);
    let ghost views = pieces@.map_values(|p: Vec<char>| p@);
    proof {
        reveal_strlit(".");
        reveal_with_fuel(slash_pieces_from, 1);
    }
    let mut count: usize = 0;
    let mut i: usize = 0;
    while i < pieces.len()
        invariant
            i <= pieces@.len(),
            views == pieces@.map_values(|p: Vec<char>| p@),
            count == named_count(views.take(i as int)),
            count <= i,
        decreases pieces.len() - i,
    {
        proof {
            reveal_strlit(".");
            assert(views.take(i + 1).drop_last() =~= views.take(i as int));
            assert(views[i as int] == pieces@[i as int]@);
        }
        let piece = &pieces[i];
        if piece.len() > 0 && !(piece.len() == 1 && piece[0] == '.') {
            assert(is_named_piece(piece@)) by {
                if piece@ == "."@ {
                    assert(piece@.len() == 1 && piece@[0] == '.');
                }
            }
            count += 1;
        } else {
            assert(!is_named_piece(piece@)) by {
                reveal_strlit(".");
                if piece@.len() > 0 {
                    assert(piece@ =~= "."@);
                }
            }
        }
        i += 1;
    }
    assert(views.take(pieces@.len() as int) =~= views);
    let leading_dot = pieces.len() > 0 && pieces[0].len() == 1 && pieces[0][0] == '.';
    proof {
        lemma_slash_pieces_nonempty(chars@, Seq::empty());
        assert(views[0] == pieces@[0]@);
        if views[0] == "."@ {
            assert(pieces@[0]@.len() == 1 && pieces@[0]@[0] == '.');
        }
        if leading_dot {
            assert(pieces@[0]@ =~= "."@);
        }
    }
    if leading_dot {
        count == 0
    } else {
        count == 1
    }
}

/// Splitting at slashes yields at least one piece.
proof fn lemma_slash_pieces_nonempty(rest: Seq<char>, cur: Seq<char>)
    ensures
        slash_pieces_from(rest, cur).len() > 0,
    decreases rest.len(),
{
    if rest.len() > 0 && rest[0] != '/' {
        lemma_slash_pieces_nonempty(rest.drop_first(), cur.push(rest[0]));
    }
}

/// The error for a script file that does not exist.
pub fn missing_script_message(script_file: &str) -> (m: String)
    ensures
        m@ == "Worker script does not exist: '"@ + script_file@ + "'"@,
{
    let mut m = String::from_str("Worker script does not exist: '");
    m.append(script_file);
    m.append("'");
    m
}

/// The `--key=value` argument of one pair.
pub open spec fn flag_text(pair: (Seq<char>, Seq<char>)) -> Seq<char> {
    "--"@ + pair.0 + "="@ + pair.1
}

/// The `--key=value` arguments of a sequence of pairs.
pub open spec fn flags(extra: Seq<(Seq<char>, Seq<char>)>) -> Seq<Seq<char>> {
    extra.map_values(|p: (Seq<char>, Seq<char>)| flag_text(p))
}

/// The arguments given to `uv`:
/// `run --no-project [--locked] --script <script> <socket> <worker-id> [--key=value ...]`.
pub open spec fn plan_args(
    locked: bool,
    script_file: Seq<char>,
    socket_path: Seq<char>,
    worker_id: Seq<char>,
    extra: Seq<(Seq<char>, Seq<char>)>,
) -> Seq<Seq<char>> {
    seq!["run"@, "--no-project"@] + (if locked {
        seq!["--locked"@]
    } else {
        Seq::empty()
    }) + seq!["--script"@, script_file, socket_path, worker_id] + flags(extra)
}

/// The launch arguments: `run --no-project`, then `--locked` exactly when
/// the script is locked, then `--script`, the script file, the socket path
/// and the worker id, and finally one `--<key>=<value>` argument per builder
/// argument, in order, whether or not the script is locked. A locked launch
/// differs from an unlocked one only by the inserted `--locked`.
pub proof fn lemma_launch_arguments(
    locked: bool,
    script_file: Seq<char>,
    socket_path: Seq<char>,
    worker_id: Seq<char>,
    extra: Seq<(Seq<char>, Seq<char>)>,
)
    ensures
        ({
            let a = plan_args(locked, script_file, socket_path, worker_id, extra);
            let n: int = if locked {
                3
            } else {
                2
            };
            &&& a.len() == n + 4 + extra.len()
            &&& a[0] == "run"@
            &&& a[1] == "--no-project"@
            &&& locked ==> a[2] == "--locked"@
            &&& a[n] == "--script"@
            &&& a[n + 1] == script_file
            &&& a[n + 2] == socket_path
            &&& a[n + 3] == worker_id
            &&& forall|i: int|
                0 <= i < extra.len() ==> #[trigger] a[n + 4 + i] == "--"@ + extra[i].0 + "="@
                    + extra[i].1
        }),
        plan_args(true, script_file, socket_path, worker_id, extra) == plan_args(
            false,
            script_file,
            socket_path,
            worker_id,
            extra,
        ).insert(2, "--locked"@),
{
    let a = plan_args(locked, script_file, socket_path, worker_id, extra);
    let n: int = if locked {
        3
    } else {
        2
    };
    assert forall|i: int| 0 <= i < extra.len() implies #[trigger] a[n + 4 + i] == "--"@
        + extra[i].0 + "="@ + extra[i].1 by {
        assert(flags(extra)[i] == flag_text(extra[i]));
    }
    assert(plan_args(true, script_file, socket_path, worker_id, extra) =~= plan_args(
        false,
        script_file,
        socket_path,
        worker_id,
        extra,
    ).insert(2, "--locked"@));
}

/// The environment assignments applied to the worker process, in order:
/// `PYTHONPATH` (the scripts directory's parent, when it has one), the
/// builder's variables, and finally `PYTHONUNBUFFERED=1`.
pub open spec fn plan_env(parent: Option<Seq<char>>, env: Seq<(Seq<char>, Seq<char>)>) -> Seq<
    (Seq<char>, Seq<char>),
> {
    (match parent {
        Some(p) => seq![("PYTHONPATH"@, p)],
        None => Seq::empty(),
    }) + env + seq![("PYTHONUNBUFFERED"@, "1"@)]
}

/// The value a sequence of environment assignments leaves for `key`: the last
/// assignment to it wins.
pub open spec fn effective_env(assignments: Seq<(Seq<char>, Seq<char>)>, key: Seq<char>) -> Option<
    Seq<char>,
>
    decreases assignments.len(),
{
    if assignments.len() == 0 {
        None
    } else if assignments.last().0 == key {
        Some(assignments.last().1)
    } else {
        effective_env(assignments.drop_last(), key)
    }
}

/// The command that launches a worker.
#[derive(Debug, Clone)]
pub struct LaunchPlan {
    /// The `uv` executable to run.
    pub program: String,
    /// Its arguments.
    pub args: Vec<String>,
    /// Environment assignments, applied in order.
    pub env: Vec<(String, String)>,
    /// The working directory: the scripts directory's parent, when it has one.
    pub working_dir: Option<String>,
}

/// The texts of a vector of strings.
pub open spec fn texts(v: Seq<String>) -> Seq<Seq<char>> {
    v.map_values(|s: String| s@)
}

impl WorkerSpec {
    /// The launch command for this worker: `program` runs `uv run`, with the
    /// script file, socket path and worker id as positional arguments and the
    /// extra arguments as `--key=value` flags; the environment ends with
    /// `PYTHONUNBUFFERED=1`; the process starts in `scripts_parent`.
    pub fn launch_plan(
        &self,
        program: &str,
        script_file: &str,
        locked: bool,
        socket_path: &str,
        worker_id: &str,
        scripts_parent: Option<&str>,
    ) -> (plan: LaunchPlan)
        ensures
            plan.program@ == program@,
            texts(plan.args@) == plan_args(
                locked,
                script_file@,
                socket_path@,
                worker_id@,
                self.arg_pairs(),
            ),
            pair_views(plan.env@) == plan_env(
                match scripts_parent {
                    Some(p) => Some(p@),
                    None => None,
                },
                self.env_pairs(),
            ),
            match scripts_parent {
                Some(p) => plan.working_dir matches Some(w) && w@ == p@,
                None => plan.working_dir is None,
            },
    {
        let mut args: Vec<String> = Vec::new();
        args.push(String::from_str("run"));
        args.push(String::from_str("--no-project"));
        if locked {
            args.push(String::from_str("--locked"));
        }
        args.push(String::from_str("--script"));
        args.push(String::from_str(script_file));
        args.push(String::from_str(socket_path));
        args.push(String::from_str(worker_id));
        let ghost head = texts(args@);
        proof {
            assert(head =~= seq!["run"@, "--no-project"@] + (if locked {
                seq!["--locked"@]
            } else {
                Seq::empty()
            }) + seq!["--script"@, script_file@, socket_path@, worker_id@]);
        }
        let ghost extra = pair_views(self.extra_args@);
        let mut i: usize = 0;
        while i < self.extra_args.len()
            invariant
                i <= self.extra_args@.len(),
                extra == pair_views(self.extra_args@),
                texts(args@) == head + flags(extra.take(i as int)),
            decreases self.extra_args.len() - i,
        {
            let mut flag = String::from_str("--");
            flag.append(self.extra_args[i].0.as_str());
            flag.append("=");
            flag.append(self.extra_args[i].1.as_str());
            let ghost before = texts(args@);
            args.push(flag);
            i += 1;
            proof {
                assert(extra.take(i as int).drop_last() =~= extra.take(i - 1));
                assert(flags(extra.take(i as int)) =~= flags(extra.take(i - 1)).push(
                    flag_text(extra[i - 1]),
                ));
                assert(texts(args@) =~= before.push(flag@));
                assert(texts(args@) =~= head + flags(extra.take(i as int)));
            }
        }
        assert(extra.take(self.extra_args@.len() as int) =~= extra);
        let mut env: Vec<(String, String)> = Vec::new();
        let working_dir = match scripts_parent {
            Some(p) => {
                env.push((String::from_str("PYTHONPATH"), String::from_str(p)));
                Some(String::from_str(p))
            },
            None => None,
        };
        let ghost start = pair_views(env@);
        let ghost user = pair_views(self.env_vars@);
        let mut j: usize = 0;
        while j < self.env_vars.len()
            invariant
                j <= self.env_vars@.len(),
                user == pair_views(self.env_vars@),
                pair_views(env@) == start + user.take(j as int),
            decreases self.env_vars.len() - j,
        {
            let ghost before = env@;
            let k = self.env_vars[j].0.clone();
            let v = self.env_vars[j].1.clone();
            env.push((k, v));
            j += 1;
            proof {
                assert(env@ =~= before.push((k, v)));
                assert(user[j - 1] == (k@, v@));
                assert(pair_views(env@) =~= pair_views(before).push((k@, v@)));
                assert(pair_views(env@) =~= start + user.take(j as int));
            }
        }
        let ghost mid = env@;
        env.push((String::from_str("PYTHONUNBUFFERED"), String::from_str("1")));
        proof {
            assert(user.take(self.env_vars@.len() as int) =~= user);
            assert(pair_views(env@) =~= pair_views(mid).push(("PYTHONUNBUFFERED"@, "1"@)));
            assert(pair_views(env@) =~= plan_env(
                match scripts_parent {
                    Some(p) => Some(p@),
                    None => None,
                },
                user,
            ));
        }
        LaunchPlan { program: String::from_str(program), args, env, working_dir }
    }
}

// ── Laws ─────────────────────────────────────────────────────────────────

/// `PYTHONUNBUFFERED` is forced: whatever the builder set, the launched
/// process sees `1`.
pub proof fn lemma_unbuffered_is_forced(parent: Option<Seq<char>>, env: Seq<(Seq<char>, Seq<char>)>)
    ensures
        effective_env(plan_env(parent, env), "PYTHONUNBUFFERED"@) == Some("1"@),
{
}

/// Every other variable the builder set reaches the process with the value
/// last set for it.
pub proof fn lemma_builder_env_reaches_process(
    parent: Option<Seq<char>>,
    env: Seq<(Seq<char>, Seq<char>)>,
    i: int,
)
    requires
        keys_distinct(env),
        0 <= i < env.len(),
        env[i].0 != "PYTHONUNBUFFERED"@,
    ensures
        effective_env(plan_env(parent, env), env[i].0) == Some(env[i].1),
{
    let full = plan_env(parent, env);
    let prefix = match parent {
        Some(p) => seq![("PYTHONPATH"@, p)],
        None => Seq::<(Seq<char>, Seq<char>)>::empty(),
    };
    assert(full.drop_last() =~= prefix + env);
    lemma_last_assignment_wins(prefix + env, prefix.len() + i);
}

/// In a sequence whose assignment at `i` is the last one to its key, that
/// assignment is the effective value.
proof fn lemma_last_assignment_wins(a: Seq<(Seq<char>, Seq<char>)>, i: int)
    requires
        0 <= i < a.len(),
        forall|j: int| i < j < a.len() ==> #[trigger] a[j].0 != a[i].0,
    ensures
        effective_env(a, a[i].0) == Some(a[i].1),
    decreases a.len(),
{
    if i < a.len() - 1 {
        assert(a.last().0 != a[i].0);
        let b = a.drop_last();
        assert forall|j: int| i < j < b.len() implies #[trigger] b[j].0 != b[i].0 by {
            assert(b[j] == a[j]);
        }
        lemma_last_assignment_wins(b, i);
    }
}

/// A key set on the builder holds the value of its last setting, and other
/// keys keep theirs.
pub proof fn lemma_set_pair_last_write_wins(
    p: Seq<(Seq<char>, Seq<char>)>,
    key: Seq<char>,
    value: Seq<char>,
)
    requires
        keys_distinct(p),
    ensures
        set_pair(p, key, value).contains((key, value)),
        forall|j: int|
            0 <= j < p.len() && p[j].0 != key ==> set_pair(p, key, value).contains(#[trigger] p[j]),
        set_pair(p, key, value).len() == if exists|i: int| 0 <= i < p.len() && p[i].0 == key {
            p.len()
        } else {
            p.len() + 1
        },
{
    let r = set_pair(p, key, value);
    if exists|i: int| 0 <= i < p.len() && p[i].0 == key {
        let i = choose|i: int| 0 <= i < p.len() && p[i].0 == key;
        assert(r[i] == (key, value));
        assert forall|j: int| 0 <= j < p.len() && p[j].0 != key implies r.contains(#[trigger] p[j]) by {
            assert(r[j] == p[j]);
        }
    } else {
        assert(r[p.len() as int] == (key, value));
        assert forall|j: int| 0 <= j < p.len() && p[j].0 != key implies r.contains(#[trigger] p[j]) by {
            assert(r[j] == p[j]);
        }
    }
}

} // verus!
