//! Scribbler: the shared logger's filtering and record rendering.
//!
//! The logger decides whether a record is visible at its configured level and
//! renders the exact line to write; writing it to stderr happens at the
//! caller's edge.
use vstd::prelude::*;
use vstd::string::StringExecFns;

pub use crate::level::LogLevel;
use crate::clock::{local_now_formatted, time_of_day_text};
use crate::level::{color_text, level_from_setting, prefix_text};
use crate::text::{eq_ignore_ascii_case, string_of, text_eq_ignore_ascii_case};

verus! {

// ── Rendering ────────────────────────────────────────────────────────────

/// The text of a component tag inside a record.
pub open spec fn component_text(colored: bool, component: Option<Seq<char>>) -> Seq<char> {
    match component {
        None => ""@,
        Some(c) => if colored {
            "\x1b[36m"@ + c + "\x1b[0m"@ + " "@
        } else {
            "["@ + c + "] "@
        },
    }
}

/// One log record: timestamp, level prefix, optional component tag, message.
pub open spec fn record_text(
    colored: bool,
    level: LogLevel,
    component: Option<Seq<char>>,
    message: Seq<char>,
    timestamp: Seq<char>,
) -> Seq<char> {
    if colored {
        "\x1b[2m"@ + timestamp + "\x1b[0m"@ + " "@ + "\x1b[1m"@ + color_text(level) + prefix_text(
            level,
        ) + "\x1b[0m"@ + " "@ + component_text(colored, component) + message
    } else {
        timestamp + " "@ + prefix_text(level) + " "@ + component_text(colored, component) + message
    }
}

/// A success record.
pub open spec fn success_text(colored: bool, message: Seq<char>, timestamp: Seq<char>) -> Seq<char> {
    if colored {
        "\x1b[2m"@ + timestamp + "\x1b[0m"@ + " "@ + "\x1b[1m"@ + "\x1b[32m"@ + "  ✓  "@
            + "\x1b[0m"@ + " "@ + message
    } else {
        timestamp + " [OK] "@ + message
    }
}

/// Whether an `ENVIRONMENT` value selects development mode.
pub open spec fn development_setting(environment: Seq<char>) -> bool {
    eq_ignore_ascii_case(environment, "development"@) || eq_ignore_ascii_case(environment, "dev"@)
}

/// The visibility threshold that `ENVIRONMENT` and `LOG` select.
pub open spec fn settings_threshold(environment: Seq<char>, log: Option<Seq<char>>) -> LogLevel {
    if development_setting(environment) {
        LogLevel::Verbose
    } else {
        match log {
            Some(v) => level_from_setting(v),
            None => level_from_setting("info"@),
        }
    }
}

/// The decimal digit character for `d < 10`.
pub open spec fn digit_char(d: nat) -> char {
    ((48 + d) as u8) as char
}

/// The decimal text of `n`, without leading zeros.
pub open spec fn decimal(n: nat) -> Seq<char>
    decreases n,
{
    if n < 10 {
        seq![digit_char(n)]
    } else {
        decimal(n / 10).push(digit_char(n % 10))
    }
}

/// Decimal text reads back: it is made of ASCII digits, it has no leading
/// zero, and the number it denotes is `n`.
pub proof fn lemma_decimal_reads_back(n: nat)
    ensures
        crate::watchdog::all_digits(decimal(n)),
        crate::watchdog::digits_value(decimal(n)) == n,
        decimal(n).len() >= 1,
        n > 0 ==> decimal(n)[0] != '0',
    decreases n,
{
    if n < 10 {
        assert(digit_char(n) as u32 == 48 + n);
        assert(decimal(n).drop_last() =~= Seq::<char>::empty());
        assert(crate::watchdog::digits_value(decimal(n)) == crate::watchdog::digits_value(
            Seq::<char>::empty(),
        ) * 10 + ((digit_char(n) as u32) - 48) as nat);
    } else {
        lemma_decimal_reads_back(n / 10);
        let d = decimal(n);
        let r = decimal(n / 10);
        assert(digit_char(n % 10) as u32 == 48 + n % 10);
        assert(d.drop_last() =~= r);
        assert(d[0] == r[0]);
        assert(d.last() == digit_char(n % 10));
        assert(crate::watchdog::digits_value(d) == crate::watchdog::digits_value(r) * 10 + ((
        d.last() as u32) - 48) as nat);
        assert(n == (n / 10) * 10 + n % 10);
    }
}

/// The decimal text of `n`, right-aligned to width two.
pub open spec fn padded2(n: nat) -> Seq<char> {
    if decimal(n).len() < 2 {
        " "@ + decimal(n)
    } else {
        decimal(n)
    }
}

/// A numbered step record.
pub open spec fn step_text(colored: bool, step: nat, message: Seq<char>, timestamp: Seq<char>) -> Seq<
    char,
> {
    if colored {
        "\x1b[2m"@ + timestamp + "\x1b[0m"@ + " "@ + "\x1b[1m"@ + "\x1b[36m"@ + "["@ + padded2(step)
            + "]"@ + "\x1b[0m"@ + " "@ + message
    } else {
        timestamp + " ["@ + padded2(step) + "] "@ + message
    }
}

/// A separator line.
pub open spec fn separator_text(colored: bool) -> Seq<char> {
    if colored {
        "\x1b[2m"@ + "────────────────────────────────────────"@ + "\x1b[0m"@
    } else {
        "----------------------------------------"@
    }
}

/// The decimal digits of `n`.
pub fn decimal_chars(n: u32) -> (v: Vec<char>)
    ensures
        v@ == decimal(n as nat),
    decreases n,
{
    let d = (n % 10) as u8;
    let c = (48u8 + d) as char;
    if n < 10 {
        let mut v: Vec<char> = Vec::new();
        v.push(c);
        assert(v@ =~= seq![digit_char(n as nat)]);
        v
    } else {
        let mut v = decimal_chars(n / 10);
        v.push(c);
        v
    }
}

/// The current local time of day, `HH:MM:SS.mmm`.
fn time_of_day() -> (t: String)
    ensures
        time_of_day_text(t@),
{
    local_now_formatted("%H:%M:%S%.3f")
}

// ── Scribbler ────────────────────────────────────────────────────────────

/// The logging service: a visibility threshold, development mode, and
/// whether records carry ANSI colors.
#[derive(Debug, Clone)]
pub struct Scribbler {
    level: LogLevel,
    is_dev: bool,
    use_colors: bool,
}

impl Scribbler {
    /// The maximum visible level.
    pub closed spec fn threshold(&self) -> LogLevel {
        self.level
    }

    /// Whether the logger runs in development mode.
    pub closed spec fn dev_mode(&self) -> bool {
        self.is_dev
    }

    /// Whether records carry ANSI colors.
    pub closed spec fn colored(&self) -> bool {
        self.use_colors
    }

    /// A record of `level` is visible.
    pub open spec fn permits(&self, level: LogLevel) -> bool {
        level.rank() <= self.threshold().rank()
    }

    /// `line` is what this logger emits for a record: present exactly when
    /// the level is visible, and then the rendered record at some clock time.
    pub open spec fn emits(
        &self,
        level: LogLevel,
        component: Option<Seq<char>>,
        message: Seq<char>,
        line: Option<String>,
    ) -> bool {
        &&& line is Some <==> self.permits(level)
        &&& line matches Some(l) ==> exists|t: Seq<char>|
            time_of_day_text(t) && l@ == record_text(self.colored(), level, component, message, t)
    }

    /// Configure a logger from its settings: `environment` is the value of
    /// `ENVIRONMENT` (empty when unset), `log` the value of `LOG` (if set),
    /// and `use_colors` whether `NO_COLOR` is unset. Development mode
    /// (`development` or `dev`, ignoring ASCII case) shows every level;
    /// otherwise `LOG` selects the level, `info` by default.
    pub fn from_settings(environment: &str, log: Option<&str>, use_colors: bool) -> (s: Self)
        ensures
            s.dev_mode() == development_setting(environment@),
            s.threshold() == settings_threshold(
                environment@,
                match log {
                    Some(v) => Some(v@),
                    None => None,
                },
            ),
            s.colored() == use_colors,
    {
        let is_dev = text_eq_ignore_ascii_case(environment, "development")
            || text_eq_ignore_ascii_case(environment, "dev");
        let level = if is_dev {
            LogLevel::Verbose
        } else {
            match log {
                Some(v) => LogLevel::from_env(v),
                None => LogLevel::from_env("info"),
            }
        };
        Scribbler { level, is_dev, use_colors }
    }

    /// A logger with a specific level, outside development mode.
    pub fn with_level(level: LogLevel, use_colors: bool) -> (s: Self)
        ensures
            s.threshold() == level,
            !s.dev_mode(),
            s.colored() == use_colors,
    {
        Scribbler { level, is_dev: false, use_colors }
    }

    /// Whether a record of `level` is visible.
    pub fn should_log(&self, level: LogLevel) -> (r: bool)
        ensures
            r == self.permits(level),
    {
        level.severity_rank() <= self.level.severity_rank()
    }

    /// Render a record at the given timestamp, if its level is visible.
    pub fn render(&self, level: LogLevel, component: Option<&str>, message: &str, timestamp: &str) -> (line:
        Option<String>)
        ensures
            line is Some <==> self.permits(level),
            line matches Some(l) ==> l@ == record_text(
                self.colored(),
                level,
                match component {
                    Some(c) => Some(c@),
                    None => None,
                },
                message@,
                timestamp@,
            ),
    {
        if !self.should_log(level) {
            return None;
        }
        let mut s: String;
        if self.use_colors {
            s = String::from_str("\x1b[2m");
            s.append(timestamp);
            s.append("\x1b[0m");
            s.append(" ");
            s.append("\x1b[1m");
            s.append(level.color());
            s.append(level.prefix());
            s.append("\x1b[0m");
            s.append(" ");
            match component {
                Some(c) => {
                    s.append("\x1b[36m");
                    s.append(c);
                    s.append("\x1b[0m");
                    s.append(" ");
                },
                None => {
                    s.append("");
                },
            }
        } else {
            s = String::from_str(timestamp);
            s.append(" ");
            s.append(level.prefix());
            s.append(" ");
            match component {
                Some(c) => {
                    s.append("[");
                    s.append(c);
                    s.append("] ");
                },
                None => {
                    s.append("");
                },
            }
        }
        s.append(message);
        proof {
            let comp = match component {
                Some(c) => Some(c@),
                None => None,
            };
            let t = timestamp@;
            if self.use_colors {
                assert(s@ =~= record_text(self.use_colors, level, comp, message@, t));
            } else {
                assert(s@ =~= record_text(self.use_colors, level, comp, message@, t));
            }
        }
        Some(s)
    }

    /// Render a record stamped with the current local time, if visible.
    pub fn log(&self, level: LogLevel, component: Option<&str>, message: &str) -> (line: Option<
        String,
    >)
        ensures
            self.emits(
                level,
                match component {
                    Some(c) => Some(c@),
                    None => None,
                },
                message@,
                line,
            ),
    {
        if !self.should_log(level) {
            return None;
        }
        let timestamp = time_of_day();
        self.render(level, component, message, timestamp.as_str())
    }

    /// An error record (visible unless logging is off).
    pub fn error(&self, message: &str) -> (line: Option<String>)
        ensures
            self.emits(LogLevel::Error, None, message@, line),
    {
        self.log(LogLevel::Error, None, message)
    }

    /// An error record with a component tag.
    pub fn error_with(&self, component: &str, message: &str) -> (line: Option<String>)
        ensures
            self.emits(LogLevel::Error, Some(component@), message@, line),
    {
        self.log(LogLevel::Error, Some(component), message)
    }

    /// A warning record.
    pub fn warning(&self, message: &str) -> (line: Option<String>)
        ensures
            self.emits(LogLevel::Warning, None, message@, line),
    {
        self.log(LogLevel::Warning, None, message)
    }

    /// A warning record with a component tag.
    pub fn warning_with(&self, component: &str, message: &str) -> (line: Option<String>)
        ensures
            self.emits(LogLevel::Warning, Some(component@), message@, line),
    {
        self.log(LogLevel::Warning, Some(component), message)
    }

    /// An informational record.
    pub fn info(&self, message: &str) -> (line: Option<String>)
        ensures
            self.emits(LogLevel::Info, None, message@, line),
    {
        self.log(LogLevel::Info, None, message)
    }

    /// An informational record with a component tag.
    pub fn info_with(&self, component: &str, message: &str) -> (line: Option<String>)
        ensures
            self.emits(LogLevel::Info, Some(component@), message@, line),
    {
        self.log(LogLevel::Info, Some(component), message)
    }

    /// A debug record (visible in debug and verbose modes).
    pub fn debug(&self, message: &str) -> (line: Option<String>)
        ensures
            self.emits(LogLevel::Debug, None, message@, line),
    {
        self.log(LogLevel::Debug, None, message)
    }

    /// A debug record with a component tag.
    pub fn debug_with(&self, component: &str, message: &str) -> (line: Option<String>)
        ensures
            self.emits(LogLevel::Debug, Some(component@), message@, line),
    {
        self.log(LogLevel::Debug, Some(component), message)
    }

    /// A verbose record (visible in verbose mode only).
    pub fn verbose(&self, message: &str) -> (line: Option<String>)
        ensures
            self.emits(LogLevel::Verbose, None, message@, line),
    {
        self.log(LogLevel::Verbose, None, message)
    }

    /// A verbose record with a component tag.
    pub fn verbose_with(&self, component: &str, message: &str) -> (line: Option<String>)
        ensures
            self.emits(LogLevel::Verbose, Some(component@), message@, line),
    {
        self.log(LogLevel::Verbose, Some(component), message)
    }

    /// A success record, visible when `Info` is.
    pub fn success(&self, message: &str) -> (line: Option<String>)
        ensures
            line is Some <==> self.permits(LogLevel::Info),
            line matches Some(l) ==> exists|t: Seq<char>|
                time_of_day_text(t) && l@ == success_text(self.colored(), message@, t),
    {
        if !self.should_log(LogLevel::Info) {
            return None;
        }
        let timestamp = time_of_day();
        let mut s: String;
        if self.use_colors {
            s = String::from_str("\x1b[2m");
            s.append(timestamp.as_str());
            s.append("\x1b[0m");
            s.append(" ");
            s.append("\x1b[1m");
            s.append("\x1b[32m");
            s.append("  ✓  ");
            s.append("\x1b[0m");
            s.append(" ");
        } else {
            s = String::from_str(timestamp.as_str());
            s.append(" [OK] ");
        }
        s.append(message);
        assert(s@ =~= success_text(self.use_colors, message@, timestamp@));
        assert(s@ == success_text(self.colored(), message@, timestamp@));
        Some(s)
    }

    /// A numbered step record, visible when `Info` is.
    pub fn step(&self, step: u32, message: &str) -> (line: Option<String>)
        ensures
            line is Some <==> self.permits(LogLevel::Info),
            line matches Some(l) ==> exists|t: Seq<char>|
                time_of_day_text(t) && l@ == step_text(self.colored(), step as nat, message@, t),
    {
        if !self.should_log(LogLevel::Info) {
            return None;
        }
        let timestamp = time_of_day();
        let digits = decimal_chars(step);
        let mut number = string_of(&digits);
        if digits.len() < 2 {
            let mut padded = String::from_str(" ");
            padded.append(number.as_str());
            number = padded;
        }
        assert(number@ =~= padded2(step as nat));
        let mut s: String;
        if self.use_colors {
            s = String::from_str("\x1b[2m");
            s.append(timestamp.as_str());
            s.append("\x1b[0m");
            s.append(" ");
            s.append("\x1b[1m");
            s.append("\x1b[36m");
            s.append("[");
            s.append(number.as_str());
            s.append("]");
            s.append("\x1b[0m");
            s.append(" ");
        } else {
            s = String::from_str(timestamp.as_str());
            s.append(" [");
            s.append(number.as_str());
            s.append("] ");
        }
        s.append(message);
        assert(s@ =~= step_text(self.use_colors, step as nat, message@, timestamp@));
        assert(s@ == step_text(self.colored(), step as nat, message@, timestamp@));
        Some(s)
    }

    /// A separator line, visible when `Info` is.
    pub fn separator(&self) -> (line: Option<String>)
        ensures
            line is Some <==> self.permits(LogLevel::Info),
            line matches Some(l) ==> l@ == separator_text(self.colored()),
    {
        if !self.should_log(LogLevel::Info) {
            return None;
        }
        if self.use_colors {
            let mut s = String::from_str("\x1b[2m");
            s.append("────────────────────────────────────────");
            s.append("\x1b[0m");
            Some(s)
        } else {
            Some(String::from_str("----------------------------------------"))
        }
    }

    /// Whether the logger runs in development mode.
    pub fn is_development(&self) -> (r: bool)
        ensures
            r == self.dev_mode(),
    {
        self.is_dev
    }

    /// The current maximum visible level.
    pub fn level(&self) -> (l: LogLevel)
        ensures
            l == self.threshold(),
    {
        self.level
    }
}

// ── Laws ─────────────────────────────────────────────────────────────────

/// Filtering follows severity order: when a level is visible, every more
/// severe level is visible too.
pub proof fn lemma_visibility_is_monotone(s: Scribbler, visible: LogLevel, more_severe: LogLevel)
    requires
        s.permits(visible),
        more_severe.rank() <= visible.rank(),
    ensures
        s.permits(more_severe),
{
}

/// At level `Off` no record of any severity is visible.
pub proof fn lemma_off_disables_logging(s: Scribbler, level: LogLevel)
    requires
        s.threshold() == LogLevel::Off,
        level != LogLevel::Off,
    ensures
        !s.permits(level),
{
}

/// Development mode shows every severity, whatever `LOG` says.
pub proof fn lemma_development_shows_everything(
    environment: Seq<char>,
    log: Option<Seq<char>>,
    level: LogLevel,
)
    requires
        development_setting(environment),
    ensures
        level.rank() <= settings_threshold(environment, log).rank(),
{
}

/// Tagged and untagged records share one filter: a record with a component
/// tag is emitted exactly when the same record without one is. A tagged
/// record carries its tag and ends with its message; without colors it reads
/// `<time> <PREFIX> [<tag>] <message>`.
pub proof fn lemma_tagged_and_untagged_share_filter(
    s: Scribbler,
    level: LogLevel,
    component: Seq<char>,
    message: Seq<char>,
    tagged: Option<String>,
    untagged: Option<String>,
)
    requires
        s.emits(level, Some(component), message, tagged),
        s.emits(level, None, message, untagged),
    ensures
        tagged is Some <==> untagged is Some,
        tagged matches Some(l) ==> l@.len() >= message.len() && l@.subrange(
            l@.len() - message.len(),
            l@.len() as int,
        ) == message,
        tagged matches Some(l) ==> exists|i: int|
            0 <= i && i + component.len() <= l@.len() && #[trigger] l@.subrange(
                i,
                i + component.len(),
            ) == component,
        !s.colored() ==> (tagged matches Some(l) ==> exists|t: Seq<char>|
            time_of_day_text(t) && l@ == t + " "@ + prefix_text(level) + " ["@ + component + "] "@
                + message),
{
    if let Some(l) = tagged {
        let t = choose|t: Seq<char>|
            time_of_day_text(t) && l@ == record_text(s.colored(), level, Some(component), message, t);
        lemma_record_around_tag(s.colored(), level, component, message, t);
        let a = text_before_tag(s.colored(), level, t);
        let b = text_after_tag(s.colored(), message);
        assert(l@.subrange(a.len() as int, (a.len() + component.len()) as int) =~= component);
        assert(l@.subrange(l@.len() - message.len(), l@.len() as int) =~= message);
        if !s.colored() {
            reveal_strlit(" [");
            reveal_strlit(" ");
            reveal_strlit("[");
            assert(l@ =~= t + " "@ + prefix_text(level) + " ["@ + component + "] "@ + message);
        }
    }
}

/// What a tagged record holds before its tag.
pub open spec fn text_before_tag(colored: bool, level: LogLevel, t: Seq<char>) -> Seq<char> {
    if colored {
        "\x1b[2m"@ + t + "\x1b[0m"@ + " "@ + "\x1b[1m"@ + color_text(level) + prefix_text(level)
            + "\x1b[0m"@ + " "@ + "\x1b[36m"@
    } else {
        t + " "@ + prefix_text(level) + " "@ + "["@
    }
}

/// What a tagged record holds after its tag.
pub open spec fn text_after_tag(colored: bool, message: Seq<char>) -> Seq<char> {
    if colored {
        "\x1b[0m"@ + " "@ + message
    } else {
        "] "@ + message
    }
}

/// A tagged record is the text before the tag, the tag, and the text after.
proof fn lemma_record_around_tag(
    colored: bool,
    level: LogLevel,
    component: Seq<char>,
    message: Seq<char>,
    t: Seq<char>,
)
    ensures
        record_text(colored, level, Some(component), message, t) == text_before_tag(
            colored,
            level,
            t,
        ) + component + text_after_tag(colored, message),
{
    assert(record_text(colored, level, Some(component), message, t) =~= text_before_tag(
        colored,
        level,
        t,
    ) + component + text_after_tag(colored, message));
}
} // verus!
