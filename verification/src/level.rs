//! Log severity levels.
use vstd::prelude::*;

use crate::text::{eq_ignore_ascii_case, fold_ascii, text_eq_ignore_ascii_case};

verus! {

/// Log severity levels, ordered from most to least severe; `Off` disables
/// logging. The derived order is the declaration order, which `rank` states.
#[derive(Debug, Clone, Copy, PartialEq, Eq, PartialOrd, Ord, Hash)]
pub enum LogLevel {
    Off,
    Error,
    Warning,
    Info,
    Debug,
    Verbose,
}

/// A setting value matches one of the listed spellings, ignoring ASCII case.
pub open spec fn spelled(value: Seq<char>, a: Seq<char>, b: Seq<char>, c: Seq<char>, d: Seq<char>) -> bool {
    eq_ignore_ascii_case(value, a) || eq_ignore_ascii_case(value, b) || eq_ignore_ascii_case(value, c)
        || eq_ignore_ascii_case(value, d)
}

/// The level a `LOG` setting selects. Unknown values select `Info`.
///
/// The spellings are lower-case ASCII without `k`; for them, comparing the
/// lower-cased setting (`str::to_lowercase`) with a spelling gives the same
/// answer as comparing up to ASCII case, which is what this states.
pub open spec fn level_from_setting(value: Seq<char>) -> LogLevel {
    if spelled(value, "0"@, "off"@, "none"@, "false"@) {
        LogLevel::Off
    } else if spelled(value, "1"@, "error"@, "err"@, "err"@) {
        LogLevel::Error
    } else if spelled(value, "2"@, "warning"@, "warn"@, "warn"@) {
        LogLevel::Warning
    } else if spelled(value, "3"@, "info"@, "true"@, "true"@) {
        LogLevel::Info
    } else if spelled(value, "4"@, "debug"@, "debug"@, "debug"@) {
        LogLevel::Debug
    } else if spelled(value, "5"@, "verbose"@, "trace"@, "all"@) {
        LogLevel::Verbose
    } else {
        LogLevel::Info
    }
}

/// The display prefix of a level.
pub open spec fn prefix_text(level: LogLevel) -> Seq<char> {
    match level {
        LogLevel::Off => ""@,
        LogLevel::Error => "ERROR"@,
        LogLevel::Warning => "WARN "@,
        LogLevel::Info => "INFO "@,
        LogLevel::Debug => "DEBUG"@,
        LogLevel::Verbose => "TRACE"@,
    }
}

/// The ANSI color code of a level.
pub open spec fn color_text(level: LogLevel) -> Seq<char> {
    match level {
        LogLevel::Off => ""@,
        LogLevel::Error => "\x1b[31m"@,
        LogLevel::Warning => "\x1b[33m"@,
        LogLevel::Info => "\x1b[32m"@,
        LogLevel::Debug => "\x1b[34m"@,
        LogLevel::Verbose => "\x1b[35m"@,
    }
}

impl LogLevel {
    /// The position of a level in severity order: `Off` is 0, `Verbose` 5.
    pub open spec fn rank(self) -> nat {
        match self {
            LogLevel::Off => 0,
            LogLevel::Error => 1,
            LogLevel::Warning => 2,
            LogLevel::Info => 3,
            LogLevel::Debug => 4,
            LogLevel::Verbose => 5,
        }
    }

    /// The position of this level in severity order.
    pub fn severity_rank(&self) -> (r: u8)
        ensures
            r as nat == self.rank(),
    {
        match self {
            LogLevel::Off => 0,
            LogLevel::Error => 1,
            LogLevel::Warning => 2,
            LogLevel::Info => 3,
            LogLevel::Debug => 4,
            LogLevel::Verbose => 5,
        }
    }

    /// Parse a level from the value of the `LOG` environment variable.
    pub fn from_env(value: &str) -> (level: LogLevel)
        ensures
            level == level_from_setting(value@),
    {
        if text_eq_ignore_ascii_case(value, "0") || text_eq_ignore_ascii_case(value, "off")
            || text_eq_ignore_ascii_case(value, "none") || text_eq_ignore_ascii_case(value, "false") {
            LogLevel::Off
        } else if text_eq_ignore_ascii_case(value, "1") || text_eq_ignore_ascii_case(value, "error")
            || text_eq_ignore_ascii_case(value, "err") {
            LogLevel::Error
        } else if text_eq_ignore_ascii_case(value, "2") || text_eq_ignore_ascii_case(
            value,
            "warning",
        ) || text_eq_ignore_ascii_case(value, "warn") {
            LogLevel::Warning
        } else if text_eq_ignore_ascii_case(value, "3") || text_eq_ignore_ascii_case(value, "info")
            || text_eq_ignore_ascii_case(value, "true") {
            LogLevel::Info
        } else if text_eq_ignore_ascii_case(value, "4") || text_eq_ignore_ascii_case(
            value,
            "debug",
        ) {
            LogLevel::Debug
        } else if text_eq_ignore_ascii_case(value, "5") || text_eq_ignore_ascii_case(
            value,
            "verbose",
        ) || text_eq_ignore_ascii_case(value, "trace") || text_eq_ignore_ascii_case(value, "all") {
            LogLevel::Verbose
        } else {
            LogLevel::Info
        }
    }

    /// The display prefix for this level.
    pub fn prefix(&self) -> (p: &'static str)
        ensures
            p@ == prefix_text(*self),
    {
        match self {
            LogLevel::Off => "",
            LogLevel::Error => "ERROR",
            LogLevel::Warning => "WARN ",
            LogLevel::Info => "INFO ",
            LogLevel::Debug => "DEBUG",
            LogLevel::Verbose => "TRACE",
        }
    }

    /// The ANSI color code for this level.
    pub fn color(&self) -> (c: &'static str)
        ensures
            c@ == color_text(*self),
    {
        match self {
            LogLevel::Off => "",
            LogLevel::Error => "\x1b[31m",
            LogLevel::Warning => "\x1b[33m",
            LogLevel::Info => "\x1b[32m",
            LogLevel::Debug => "\x1b[34m",
            LogLevel::Verbose => "\x1b[35m",
        }
    }
}

/// Severity ranks run from `Off` to `Verbose` without gaps or repeats, so
/// ranks order the levels as their declaration does.
pub proof fn lemma_rank_order(a: LogLevel, b: LogLevel)
    ensures
        a.rank() <= 5,
        a.rank() == b.rank() <==> a == b,
        LogLevel::Off.rank() < LogLevel::Error.rank() < LogLevel::Warning.rank()
            < LogLevel::Info.rank() < LogLevel::Debug.rank() < LogLevel::Verbose.rank(),
{
}

/// Every numeric `LOG` setting `0` to `5` selects the level of that rank.
pub proof fn lemma_numeric_settings()
    ensures
        level_from_setting("0"@) == LogLevel::Off,
        level_from_setting("1"@) == LogLevel::Error,
        level_from_setting("2"@) == LogLevel::Warning,
        level_from_setting("3"@) == LogLevel::Info,
        level_from_setting("4"@) == LogLevel::Debug,
        level_from_setting("5"@) == LogLevel::Verbose,
{
    reveal_strlit("0");
    reveal_strlit("1");
    reveal_strlit("2");
    reveal_strlit("3");
    reveal_strlit("4");
    reveal_strlit("5");
    reveal_strlit("off");
    reveal_strlit("none");
    reveal_strlit("false");
    reveal_strlit("error");
    reveal_strlit("err");
    reveal_strlit("warning");
    reveal_strlit("warn");
    reveal_strlit("info");
    reveal_strlit("true");
    reveal_strlit("debug");
    assert(eq_ignore_ascii_case("0"@, "0"@));
    assert(eq_ignore_ascii_case("1"@, "1"@));
    assert(eq_ignore_ascii_case("2"@, "2"@));
    assert(eq_ignore_ascii_case("3"@, "3"@));
    assert(eq_ignore_ascii_case("4"@, "4"@));
    assert(eq_ignore_ascii_case("5"@, "5"@));
    assert(fold_ascii('0') == 48 && fold_ascii('1') == 49 && fold_ascii('2') == 50);
    assert(fold_ascii('3') == 51 && fold_ascii('4') == 52 && fold_ascii('5') == 53);
    assert(!eq_ignore_ascii_case("1"@, "0"@)) by { assert(fold_ascii("1"@[0]) != fold_ascii("0"@[0])); }
    assert(!eq_ignore_ascii_case("2"@, "0"@)) by { assert(fold_ascii("2"@[0]) != fold_ascii("0"@[0])); }
    assert(!eq_ignore_ascii_case("2"@, "1"@)) by { assert(fold_ascii("2"@[0]) != fold_ascii("1"@[0])); }
    assert(!eq_ignore_ascii_case("3"@, "0"@)) by { assert(fold_ascii("3"@[0]) != fold_ascii("0"@[0])); }
    assert(!eq_ignore_ascii_case("3"@, "1"@)) by { assert(fold_ascii("3"@[0]) != fold_ascii("1"@[0])); }
    assert(!eq_ignore_ascii_case("3"@, "2"@)) by { assert(fold_ascii("3"@[0]) != fold_ascii("2"@[0])); }
    assert(!eq_ignore_ascii_case("4"@, "0"@)) by { assert(fold_ascii("4"@[0]) != fold_ascii("0"@[0])); }
    assert(!eq_ignore_ascii_case("4"@, "1"@)) by { assert(fold_ascii("4"@[0]) != fold_ascii("1"@[0])); }
    assert(!eq_ignore_ascii_case("4"@, "2"@)) by { assert(fold_ascii("4"@[0]) != fold_ascii("2"@[0])); }
    assert(!eq_ignore_ascii_case("4"@, "3"@)) by { assert(fold_ascii("4"@[0]) != fold_ascii("3"@[0])); }
    assert(!eq_ignore_ascii_case("5"@, "0"@)) by { assert(fold_ascii("5"@[0]) != fold_ascii("0"@[0])); }
    assert(!eq_ignore_ascii_case("5"@, "1"@)) by { assert(fold_ascii("5"@[0]) != fold_ascii("1"@[0])); }
    assert(!eq_ignore_ascii_case("5"@, "2"@)) by { assert(fold_ascii("5"@[0]) != fold_ascii("2"@[0])); }
    assert(!eq_ignore_ascii_case("5"@, "3"@)) by { assert(fold_ascii("5"@[0]) != fold_ascii("3"@[0])); }
    assert(!eq_ignore_ascii_case("5"@, "4"@)) by { assert(fold_ascii("5"@[0]) != fold_ascii("4"@[0])); }
}

} // verus!
