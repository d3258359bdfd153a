//! Worker health reports: the verdict on polling a worker's process, the
//! process state, and the resident memory read from a Linux
//! `/proc/<pid>/status` text.
use vstd::prelude::*;
use vstd::string::StringExecFns;

use crate::level::LogLevel;
use crate::scribbler::{decimal, decimal_chars};
use crate::text::{chars_of, string_of};

verus! {

/// The health state of a monitored process.
#[derive(Debug, Clone, Copy, PartialEq, Eq)]
pub enum ProcessState {
    Healthy,
    Frozen,
    Dead,
}

/// A process whose status can be read is healthy; one whose status cannot
/// be read is dead. (`Frozen` is never reported.)
pub fn process_state(status_readable: bool) -> (s: ProcessState)
    ensures
        s == if status_readable {
            ProcessState::Healthy
        } else {
            ProcessState::Dead
        },
{
    if status_readable {
        ProcessState::Healthy
    } else {
        ProcessState::Dead
    }
}

/// What polling a worker's child process found.
#[derive(Debug, Clone, PartialEq, Eq)]
pub enum PollOutcome {
    /// The process is still running.
    Running,
    /// The process exited; the text is its exit status.
    Exited(String),
    /// The poll failed; the text is the error.
    Failed(String),
}

/// The watchdog's verdict on a poll: a running worker is left alone; an
/// exited worker is dead, with a warning naming its pid and exit status; a
/// worker that cannot be polled is dead, with an error.
pub fn poll_verdict(worker_name: &str, pid: u32, outcome: &PollOutcome) -> (verdict: Option<
    (LogLevel, String),
>)
    ensures
        match *outcome {
            PollOutcome::Running => verdict is None,
            PollOutcome::Exited(status) => verdict matches Some((level, text)) && level
                == LogLevel::Warning && text@ == "Worker '"@ + worker_name@ + "' (pid "@ + decimal(
                pid as nat,
            ) + ") exited with status: "@ + status@,
            PollOutcome::Failed(error) => verdict matches Some((level, text)) && level
                == LogLevel::Error && text@ == "Error checking worker '"@ + worker_name@ + "': "@
                + error@,
        },
{
    match outcome {
        PollOutcome::Running => None,
        PollOutcome::Exited(status) => {
            let digits = decimal_chars(pid);
            let mut text = String::from_str("Worker '");
            text.append(worker_name);
            text.append("' (pid ");
            text.append(string_of(&digits).as_str());
            text.append(") exited with status: ");
            text.append(status.as_str());
            Some((LogLevel::Warning, text))
        },
        PollOutcome::Failed(error) => {
            let mut text = String::from_str("Error checking worker '");
            text.append(worker_name);
            text.append("': ");
            text.append(error.as_str());
            Some((LogLevel::Error, text))
        },
    }
}

// ── Text structure ───────────────────────────────────────────────────────

/// `char::is_whitespace`: the Unicode `White_Space` characters.
pub open spec fn is_whitespace(c: char) -> bool {
    let n = c as u32;
    ||| 9 <= n <= 13
    ||| n == 32
    ||| n == 0x85
    ||| n == 0xA0
    ||| n == 0x1680
    ||| 0x2000 <= n <= 0x200A
    ||| n == 0x2028
    ||| n == 0x2029
    ||| n == 0x202F
    ||| n == 0x205F
    ||| n == 0x3000
}

/// A line without its `\r\n` ending: drop one trailing carriage return.
pub open spec fn strip_cr(line: Seq<char>) -> Seq<char> {
    if line.len() > 0 && line.last() == '\r' {
        line.drop_last()
    } else {
        line
    }
}

/// The lines of `rest` after a current line `cur`, as `str::lines` yields
/// them: split at `\n` (dropping a `\r` before it); the final line ending is
/// optional, and no empty line follows a final `\n`.
pub open spec fn lines_from(rest: Seq<char>, cur: Seq<char>) -> Seq<Seq<char>>
    decreases rest.len(),
{
    if rest.len() == 0 {
        if cur.len() == 0 {
            Seq::empty()
        } else {
            seq![cur]
        }
    } else if rest[0] == '\n' {
        seq![strip_cr(cur)] + lines_from(rest.drop_first(), Seq::empty())
    } else {
        lines_from(rest.drop_first(), cur.push(rest[0]))
    }
}

/// The lines of a text (`str::lines`).
pub open spec fn lines(s: Seq<char>) -> Seq<Seq<char>> {
    lines_from(s, Seq::empty())
}

/// The whitespace-separated words of `rest` after a current word `cur`, as
/// `str::split_whitespace` yields them.
pub open spec fn words_from(rest: Seq<char>, cur: Seq<char>) -> Seq<Seq<char>>
    decreases rest.len(),
{
    if rest.len() == 0 {
        if cur.len() == 0 {
            Seq::empty()
        } else {
            seq![cur]
        }
    } else if is_whitespace(rest[0]) {
        if cur.len() == 0 {
            words_from(rest.drop_first(), Seq::empty())
        } else {
            seq![cur] + words_from(rest.drop_first(), Seq::empty())
        }
    } else {
        words_from(rest.drop_first(), cur.push(rest[0]))
    }
}

/// The whitespace-separated words of a text.
pub open spec fn words(s: Seq<char>) -> Seq<Seq<char>> {
    words_from(s, Seq::empty())
}

/// The number that a sequence of decimal digits denotes.
pub open spec fn digits_value(d: Seq<char>) -> nat
    decreases d.len(),
{
    if d.len() == 0 {
        0
    } else {
        digits_value(d.drop_last()) * 10 + ((d.last() as u32) - 48) as nat
    }
}

/// Every character is an ASCII digit.
pub open spec fn all_digits(d: Seq<char>) -> bool {
    forall|i: int| 0 <= i < d.len() ==> '0' <= #[trigger] d[i] && d[i] <= '9'
}

/// `u64::from_str`: an optional `+`, then at least one ASCII digit, with a
/// value that fits in `u64`.
pub open spec fn parse_u64(t: Seq<char>) -> Option<u64> {
    let d = if t.len() > 0 && t[0] == '+' {
        t.drop_first()
    } else {
        t
    };
    if d.len() > 0 && all_digits(d) && digits_value(d) <= u64::MAX {
        Some(digits_value(d) as u64)
    } else {
        None
    }
}

/// A text begins with `VmRSS:`.
pub open spec fn is_rss_line(line: Seq<char>) -> bool {
    line.len() >= 6 && line.subrange(0, 6) == "VmRSS:"@
}

/// The resident memory of the first `VmRSS:` line among `ls`: its second word
/// parsed as a number; none when there is no such line, it has fewer than two
/// words, or the word is not a number.
pub open spec fn rss_of_lines(ls: Seq<Seq<char>>) -> Option<u64>
    decreases ls.len(),
{
    if ls.len() == 0 {
        None
    } else if is_rss_line(ls[0]) {
        let w = words(ls[0]);
        if w.len() >= 2 {
            parse_u64(w[1])
        } else {
            None
        }
    } else {
        rss_of_lines(ls.drop_first())
    }
}

/// The resident memory, in KiB, that a `/proc/<pid>/status` text reports.
pub open spec fn resident_memory(status: Seq<char>) -> Option<u64> {
    rss_of_lines(lines(status))
}

/// The character sequences held by a sequence of character vectors.
pub open spec fn char_vec_views(v: Seq<Vec<char>>) -> Seq<Seq<char>> {
    v.map_values(|l: Vec<char>| l@)
}

// ── Executable parsing ───────────────────────────────────────────────────

/// Whether a character is whitespace (`char::is_whitespace`).
pub fn is_whitespace_char(c: char) -> (r: bool)
    ensures
        r == is_whitespace(c),
{
    let n = c as u32;
    (9 <= n && n <= 13) || n == 32 || n == 0x85 || n == 0xA0 || n == 0x1680 || (0x2000 <= n && n
        <= 0x200A) || n == 0x2028 || n == 0x2029 || n == 0x202F || n == 0x205F || n == 0x3000
}

/// The lines of a character sequence.
pub fn split_lines(s: &Vec<char>) -> (ls: Vec<Vec<char>>)
    ensures
        char_vec_views(ls@) == lines(s@),
{
    let mut out: Vec<Vec<char>> = Vec::new();
    let mut cur: Vec<char> = Vec::new();
    let mut i: usize = 0;
    assert(s@.skip(0) =~= s@);
    assert(char_vec_views(out@) + lines(s@) =~= lines(s@));
    while i < s.len()
        invariant
            i <= s@.len(),
            char_vec_views(out@) + lines_from(s@.skip(i as int), cur@) == lines(s@),
        decreases s.len() - i,
    {
        let ghost rest = s@.skip(i as int);
        assert(rest.drop_first() =~= s@.skip(i + 1));
        if s[i] == '\n' {
            let ghost before = char_vec_views(out@);
            let mut line = cur;
            if line.len() > 0 && line[line.len() - 1] == '\r' {
                line.pop();
                assert(line@ =~= strip_cr(cur@));
            }
            let ghost lv = line@;
            assert(lv == strip_cr(cur@));
            out.push(line);
            cur = Vec::new();
            proof {
                assert(char_vec_views(out@) =~= before.push(lv));
                assert(before.push(lv) + lines_from(s@.skip(i + 1), Seq::empty()) =~= before + (
                seq![lv] + lines_from(s@.skip(i + 1), Seq::empty())));
                assert(cur@ =~= Seq::<char>::empty());
            }
        } else {
            cur.push(s[i]);
        }
        i += 1;
    }
    let ghost before = char_vec_views(out@);
    assert(s@.skip(i as int) =~= Seq::<char>::empty());
    if cur.len() > 0 {
        let ghost cv = cur@;
        out.push(cur);
        assert(char_vec_views(out@) =~= before + seq![cv]);
    } else {
        assert(before + Seq::<Seq<char>>::empty() =~= before);
    }
    out
}

/// The whitespace-separated words of a character sequence.
pub fn split_words(s: &Vec<char>) -> (ws: Vec<Vec<char>>)
    ensures
        char_vec_views(ws@) == words(s@),
{
    let mut out: Vec<Vec<char>> = Vec::new();
    let mut cur: Vec<char> = Vec::new();
    let mut i: usize = 0;
    assert(s@.skip(0) =~= s@);
    assert(char_vec_views(out@) + words(s@) =~= words(s@));
    while i < s.len()
        invariant
            i <= s@.len(),
            char_vec_views(out@) + words_from(s@.skip(i as int), cur@) == words(s@),
        decreases s.len() - i,
    {
        let ghost rest = s@.skip(i as int);
        assert(rest.drop_first() =~= s@.skip(i + 1));
        if is_whitespace_char(s[i]) {
            if cur.len() > 0 {
                let ghost before = char_vec_views(out@);
                let ghost cv = cur@;
                out.push(cur);
                cur = Vec::new();
                proof {
                    assert(char_vec_views(out@) =~= before.push(cv));
                    assert(before.push(cv) + words_from(s@.skip(i + 1), Seq::empty()) =~= before
                        + (seq![cv] + words_from(s@.skip(i + 1), Seq::empty())));
                    assert(cur@ =~= Seq::<char>::empty());
                }
            } else {
                assert(cur@ =~= Seq::<char>::empty());
                assert(words_from(rest, cur@) == words_from(s@.skip(i + 1), cur@));
            }
        } else {
            assert(words_from(rest, cur@) == words_from(s@.skip(i + 1), cur@.push(s@[i as int])));
            cur.push(s[i]);
        }
        i += 1;
    }
    let ghost before = char_vec_views(out@);
    assert(s@.skip(i as int) =~= Seq::<char>::empty());
    if cur.len() > 0 {
        let ghost cv = cur@;
        out.push(cur);
        assert(char_vec_views(out@) =~= before + seq![cv]);
    } else {
        assert(before + Seq::<Seq<char>>::empty() =~= before);
    }
    out
}

/// Parse a decimal `u64` as `u64::from_str` does.
pub fn parse_decimal(t: &Vec<char>) -> (r: Option<u64>)
    ensures
        r == parse_u64(t@),
{
    let start: usize = if t.len() > 0 && t[0] == '+' { 1 } else { 0 };
    let ghost d = if t@.len() > 0 && t@[0] == '+' {
        t@.drop_first()
    } else {
        t@
    };
    assert(d =~= t@.skip(start as int));
    assert(parse_u64(t@) == (if d.len() > 0 && all_digits(d) && digits_value(d) <= u64::MAX {
        Some(digits_value(d) as u64)
    } else {
        None
    }));
    if start >= t.len() {
        return None;
    }
    let mut value: u64 = 0;
    let mut i: usize = start;
    while i < t.len()
        invariant
            start <= i <= t@.len(),
            d == t@.skip(start as int),
            parse_u64(t@) == (if d.len() > 0 && all_digits(d) && digits_value(d) <= u64::MAX {
                Some(digits_value(d) as u64)
            } else {
                None
            }),
            all_digits(t@.subrange(start as int, i as int)),
            value as nat == digits_value(t@.subrange(start as int, i as int)),
        decreases t.len() - i,
    {
        let c = t[i];
        let ghost prefix = t@.subrange(start as int, i + 1);
        assert(prefix.drop_last() =~= t@.subrange(start as int, i as int));
        if !('0' <= c && c <= '9') {
            proof {
                assert(d[i - start] == c);
                assert(!all_digits(d));
                assert(parse_u64(t@) is None);
            }
            return None;
        }
        let digit = (c as u32 - 48) as u64;
        if value > (u64::MAX - digit) / 10 {
            proof {
                assert(digits_value(prefix) == value * 10 + digit);
                assert(digits_value(prefix) > u64::MAX) by (nonlinear_arith)
                    requires
                        value > (u64::MAX - digit) / 10,
                        digit <= 9,
                        digits_value(prefix) == value * 10 + digit,
                ;
                assert(d.subrange(0, (i + 1 - start) as int) =~= prefix);
                if all_digits(d) {
                    lemma_digits_value_monotone(d, (i + 1 - start) as int);
                }
            }
            return None;
        }
        value = value * 10 + digit;
        i += 1;
        proof {
            assert(all_digits(t@.subrange(start as int, i as int)));
        }
    }
    assert(t@.subrange(start as int, t@.len() as int) =~= d);
    Some(value)
}

/// A longer digit string never denotes less.
proof fn lemma_digits_value_monotone(d: Seq<char>, k: int)
    requires
        0 <= k <= d.len(),
        all_digits(d),
    ensures
        digits_value(d.subrange(0, k)) <= digits_value(d),
    decreases d.len() - k,
{
    if k == d.len() {
        assert(d.subrange(0, k) =~= d);
    } else {
        lemma_digits_value_monotone(d, k + 1);
        let p = d.subrange(0, k + 1);
        assert(p.drop_last() =~= d.subrange(0, k));
        assert(p.last() == d[k]);
        assert('0' <= d[k]);
    }
}

/// The resident memory, in KiB, reported by a `/proc/<pid>/status` text:
/// the second word of its first `VmRSS:` line, parsed as a number.
pub fn resident_memory_kb(status: &str) -> (kb: Option<u64>)
    ensures
        kb == resident_memory(status@),
{
    proof {
        reveal_strlit("VmRSS:");
    }
    let chars = chars_of(status);
    let ls = split_lines(&chars);
    let ghost views = char_vec_views(ls@);
    let mut i: usize = 0;
    assert(views.skip(0) =~= views);
    while i < ls.len()
        invariant
            i <= ls@.len(),
            views == char_vec_views(ls@),
            rss_of_lines(views.skip(i as int)) == resident_memory(status@),
        decreases ls.len() - i,
    {
        proof {
            reveal_strlit("VmRSS:");
        }
        let line = &ls[i];
        let ghost rest = views.skip(i as int);
        assert(rest[0] == line@);
        assert(rest.drop_first() =~= views.skip(i + 1));
        if line.len() >= 6 && line[0] == 'V' && line[1] == 'm' && line[2] == 'R' && line[3] == 'S'
            && line[4] == 'S' && line[5] == ':' {
            assert(line@.subrange(0, 6) =~= "VmRSS:"@);
            let ws = split_words(line);
            if ws.len() >= 2 {
                assert(char_vec_views(ws@)[1] == ws@[1]@);
                return parse_decimal(&ws[1]);
            }
            return None;
        } else {
            proof {
                if line@.len() >= 6 {
                    assert(line@.subrange(0, 6) != "VmRSS:"@) by {
                        let p = line@.subrange(0, 6);
                        assert(p[0] != 'V' || p[1] != 'm' || p[2] != 'R' || p[3] != 'S' || p[4]
                            != 'S' || p[5] != ':');
                    }
                }
            }
        }
        i += 1;
    }
    assert(views.skip(i as int) =~= Seq::<Seq<char>>::empty());
    None
}

} // verus!
