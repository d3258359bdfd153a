use runpy::scribbler::{LogLevel, Scribbler};

#[test]
fn scribbler_log_level_ordering() {
    assert!(LogLevel::Error < LogLevel::Warning);
    assert!(LogLevel::Warning < LogLevel::Info);
    assert!(LogLevel::Info < LogLevel::Debug);
    assert!(LogLevel::Debug < LogLevel::Verbose);
}

#[test]
fn log_level_from_env_numeric() {
    assert_eq!(LogLevel::from_env("0"), LogLevel::Off);
    assert_eq!(LogLevel::from_env("1"), LogLevel::Error);
    assert_eq!(LogLevel::from_env("2"), LogLevel::Warning);
    assert_eq!(LogLevel::from_env("3"), LogLevel::Info);
    assert_eq!(LogLevel::from_env("4"), LogLevel::Debug);
    assert_eq!(LogLevel::from_env("5"), LogLevel::Verbose);
}

#[test]
fn log_level_from_env_string() {
    assert_eq!(LogLevel::from_env("off"), LogLevel::Off);
    assert_eq!(LogLevel::from_env("error"), LogLevel::Error);
    assert_eq!(LogLevel::from_env("warning"), LogLevel::Warning);
    assert_eq!(LogLevel::from_env("info"), LogLevel::Info);
    assert_eq!(LogLevel::from_env("debug"), LogLevel::Debug);
    assert_eq!(LogLevel::from_env("verbose"), LogLevel::Verbose);
}

#[test]
fn log_level_from_env_case_insensitive() {
    assert_eq!(LogLevel::from_env("ERROR"), LogLevel::Error);
    assert_eq!(LogLevel::from_env("Warning"), LogLevel::Warning);
    assert_eq!(LogLevel::from_env("INFO"), LogLevel::Info);
}

#[test]
fn log_level_from_env_aliases() {
    assert_eq!(LogLevel::from_env("err"), LogLevel::Error);
    assert_eq!(LogLevel::from_env("warn"), LogLevel::Warning);
    assert_eq!(LogLevel::from_env("trace"), LogLevel::Verbose);
    assert_eq!(LogLevel::from_env("all"), LogLevel::Verbose);
}

#[test]
fn log_level_from_env_default() {
    assert_eq!(LogLevel::from_env("unknown"), LogLevel::Info);
    assert_eq!(LogLevel::from_env(""), LogLevel::Info);
}

#[test]
fn scribbler_with_level() {
    let scrib = Scribbler::with_level(LogLevel::Debug, true);
    assert_eq!(scrib.level(), LogLevel::Debug);
    assert!(!scrib.is_development());
}

#[test]
fn should_log_respects_level() {
    let scrib = Scribbler::with_level(LogLevel::Warning, true);
    assert!(scrib.should_log(LogLevel::Error));
    assert!(scrib.should_log(LogLevel::Warning));
    assert!(!scrib.should_log(LogLevel::Info));
    assert!(!scrib.should_log(LogLevel::Debug));
}

#[test]
fn scribbler_test_log_level_ordering() {
    assert!(LogLevel::Error < LogLevel::Warning);
    assert!(LogLevel::Warning < LogLevel::Info);
    assert!(LogLevel::Info < LogLevel::Debug);
    assert!(LogLevel::Debug < LogLevel::Verbose);
}

#[test]
fn scribbler_with_level_sets_level() {
    let scrib = Scribbler::with_level(LogLevel::Debug, true);
    assert_eq!(scrib.level(), LogLevel::Debug);
}

#[test]
fn scribbler_with_level_not_dev() {
    let scrib = Scribbler::with_level(LogLevel::Debug, true);
    assert!(!scrib.is_development());
}

#[test]
fn log_level_off_is_lowest() {
    assert!(LogLevel::Off < LogLevel::Error);
}

#[test]
fn log_level_verbose_is_highest() {
    assert!(LogLevel::Verbose > LogLevel::Debug);
    assert!(LogLevel::Verbose > LogLevel::Info);
    assert!(LogLevel::Verbose > LogLevel::Warning);
    assert!(LogLevel::Verbose > LogLevel::Error);
}

#[test]
fn severity_rank_follows_declaration_order() {
    let levels = [
        LogLevel::Off,
        LogLevel::Error,
        LogLevel::Warning,
        LogLevel::Info,
        LogLevel::Debug,
        LogLevel::Verbose,
    ];
    for (i, level) in levels.iter().enumerate() {
        assert_eq!(level.severity_rank() as usize, i);
    }
}

#[test]
fn level_prefixes_and_colors() {
    assert_eq!(LogLevel::Error.prefix(), "ERROR");
    assert_eq!(LogLevel::Warning.prefix(), "WARN ");
    assert_eq!(LogLevel::Info.prefix(), "INFO ");
    assert_eq!(LogLevel::Debug.prefix(), "DEBUG");
    assert_eq!(LogLevel::Verbose.prefix(), "TRACE");
    assert_eq!(LogLevel::Off.prefix(), "");
    assert_eq!(LogLevel::Error.color(), "\x1b[31m");
    assert_eq!(LogLevel::Verbose.color(), "\x1b[35m");
}

#[test]
fn other_spellings_of_settings() {
    assert_eq!(LogLevel::from_env("none"), LogLevel::Off);
    assert_eq!(LogLevel::from_env("FALSE"), LogLevel::Off);
    assert_eq!(LogLevel::from_env("True"), LogLevel::Info);
    assert_eq!(LogLevel::from_env(" info"), LogLevel::Info);
    assert_eq!(LogLevel::from_env("6"), LogLevel::Info);
}

#[test]
fn development_environment_selects_verbose() {
    let dev = Scribbler::from_settings("Development", Some("off"), false);
    assert!(dev.is_development());
    assert_eq!(dev.level(), LogLevel::Verbose);
    let short = Scribbler::from_settings("DEV", None, false);
    assert!(short.is_development());
    assert_eq!(short.level(), LogLevel::Verbose);
}

#[test]
fn log_setting_applies_outside_development() {
    let prod = Scribbler::from_settings("production", Some("debug"), true);
    assert!(!prod.is_development());
    assert_eq!(prod.level(), LogLevel::Debug);
    let unset = Scribbler::from_settings("", None, true);
    assert_eq!(unset.level(), LogLevel::Info);
}

#[test]
fn off_threshold_hides_every_record() {
    let scrib = Scribbler::with_level(LogLevel::Off, false);
    assert_eq!(scrib.error("boom"), None);
    assert_eq!(scrib.success("done"), None);
    assert_eq!(scrib.separator(), None);
}

#[test]
fn render_without_colors() {
    let scrib = Scribbler::with_level(LogLevel::Info, false);
    assert_eq!(
        scrib.render(LogLevel::Error, Some("Manager"), "failed", "12:00:00.000"),
        Some("12:00:00.000 ERROR [Manager] failed".to_string())
    );
    assert_eq!(
        scrib.render(LogLevel::Info, None, "ready", "01:02:03.004"),
        Some("01:02:03.004 INFO  ready".to_string())
    );
    assert_eq!(scrib.render(LogLevel::Debug, None, "hidden", "t"), None);
}

#[test]
fn render_with_colors() {
    let scrib = Scribbler::with_level(LogLevel::Verbose, true);
    assert_eq!(
        scrib.render(LogLevel::Warning, Some("Watchdog"), "exited", "t"),
        Some("\x1b[2mt\x1b[0m \x1b[1m\x1b[33mWARN \x1b[0m \x1b[36mWatchdog\x1b[0m exited".to_string())
    );
}

#[test]
fn clock_stamped_records_end_with_the_message() {
    let scrib = Scribbler::with_level(LogLevel::Info, false);
    let line = scrib.info_with("Mailer", "sent").unwrap();
    assert!(line.ends_with(" INFO  [Mailer] sent"));
    let line = scrib.error("x").unwrap();
    assert!(line.ends_with(" ERROR x"));
    assert_eq!(scrib.debug("hidden"), None);
    assert_eq!(scrib.verbose_with("C", "hidden"), None);
    assert!(scrib.warning("w").unwrap().ends_with(" WARN  w"));
}

#[test]
fn success_step_and_separator_render() {
    let plain = Scribbler::with_level(LogLevel::Info, false);
    assert!(plain.success("All workers terminated.").unwrap().ends_with(" [OK] All workers terminated."));
    assert!(plain.step(3, "spawn").unwrap().ends_with(" [ 3] spawn"));
    assert!(plain.step(42, "more").unwrap().ends_with(" [42] more"));
    assert!(plain.step(123, "wide").unwrap().ends_with(" [123] wide"));
    assert_eq!(plain.separator(), Some("-".repeat(40)));
    let colored = Scribbler::with_level(LogLevel::Info, true);
    assert_eq!(colored.separator(), Some(format!("\x1b[2m{}\x1b[0m", "─".repeat(40))));
    assert!(colored.success("ok").unwrap().ends_with("\x1b[1m\x1b[32m  ✓  \x1b[0m ok"));
    let quiet = Scribbler::with_level(LogLevel::Warning, false);
    assert_eq!(quiet.step(1, "x"), None);
}

#[test]
fn tagged_and_untagged_records_share_one_filter() {
    for threshold in [LogLevel::Off, LogLevel::Error, LogLevel::Info] {
        let scrib = Scribbler::with_level(threshold, false);
        let tagged = scrib.error_with("Manager", "boom");
        let untagged = scrib.error("boom");
        assert_eq!(tagged.is_some(), untagged.is_some());
        if let Some(line) = tagged {
            assert!(line.ends_with(" ERROR [Manager] boom"));
            let stamp = &line[..12];
            assert_eq!(&stamp[2..3], ":");
            assert_eq!(&stamp[5..6], ":");
            assert_eq!(&stamp[8..9], ".");
        }
    }
}
