use runpy::watchdog::{
    parse_decimal, poll_verdict, process_state, resident_memory_kb, split_lines, split_words,
    PollOutcome,
};
use runpy::LogLevel;
use runpy::ProcessState;

#[test]
fn process_state_debug_format() {
    assert_eq!(format!("{:?}", ProcessState::Healthy), "Healthy");
    assert_eq!(format!("{:?}", ProcessState::Dead), "Dead");
    assert_eq!(format!("{:?}", ProcessState::Frozen), "Frozen");
}

#[test]
fn process_state_clone() {
    let state = ProcessState::Healthy;
    let cloned = state.clone();
    assert!(matches!(cloned, ProcessState::Healthy));
}

#[test]
fn readable_status_means_healthy() {
    assert_eq!(process_state(true), ProcessState::Healthy);
    assert_eq!(process_state(false), ProcessState::Dead);
}

#[test]
fn resident_memory_from_proc_status() {
    let status = "Name:\tsleep\nVmPeak:\t    8000 kB\nVmRSS:\t     1024 kB\nThreads:\t1\n";
    assert_eq!(resident_memory_kb(status), Some(1024));
    assert_eq!(resident_memory_kb("Name:\tx\n"), None);
    assert_eq!(resident_memory_kb(""), None);
    assert_eq!(resident_memory_kb("VmRSS:\n"), None);
    assert_eq!(resident_memory_kb("VmRSS: x kB\nVmRSS: 5 kB\n"), None);
    assert_eq!(resident_memory_kb("VmRSS:\t+7 kB\r\n"), Some(7));
    assert_eq!(resident_memory_kb("VmRSS: 18446744073709551616 kB"), None);
    assert_eq!(resident_memory_kb("VmRSS: 18446744073709551615 kB"), Some(u64::MAX));
}

#[test]
fn resident_memory_matches_std_parsing() {
    for status in [
        "VmRSS:\t  12 kB\n",
        "a\r\nVmRSS: 3\r\n",
        "VmRSS:9 kB\n",
        "VmRSS: -1 kB\n",
        "VmRSS: + kB\n",
        "VmRSS:\u{2003}77\u{3000}kB",
        "\nVmRSS: 1\n\n",
    ] {
        let expected = status
            .lines()
            .find(|line| line.starts_with("VmRSS:"))
            .and_then(|line| line.split_whitespace().nth(1).and_then(|w| w.parse::<u64>().ok()));
        assert_eq!(resident_memory_kb(status), expected, "{status:?}");
    }
}

#[test]
fn lines_and_words_follow_std() {
    for text in ["", "a", "a\n", "a\r\nb", "a\rb\n\n", "\n", "x\r", " a  b\tc "] {
        let chars: Vec<char> = text.chars().collect();
        let ours: Vec<String> = split_lines(&chars).into_iter().map(|l| l.into_iter().collect()).collect();
        let std_lines: Vec<String> = text.lines().map(str::to_owned).collect();
        assert_eq!(ours, std_lines, "{text:?}");
        let words: Vec<String> = split_words(&chars).into_iter().map(|w| w.into_iter().collect()).collect();
        let std_words: Vec<String> = text.split_whitespace().map(str::to_owned).collect();
        assert_eq!(words, std_words, "{text:?}");
    }
}

#[test]
fn decimal_parsing_follows_u64_from_str() {
    for text in ["0", "+0", "42", "007", "", "+", "-", "-0", "1a", "18446744073709551615", "18446744073709551616", "99999999999999999999"] {
        let chars: Vec<char> = text.chars().collect();
        assert_eq!(parse_decimal(&chars), text.parse::<u64>().ok(), "{text:?}");
    }
}

#[test]
fn poll_verdicts_mark_exited_and_unpollable_workers_dead() {
    assert_eq!(poll_verdict("w", 12, &PollOutcome::Running), None);
    assert_eq!(
        poll_verdict("w", 4021, &PollOutcome::Exited("exit status: 1".to_string())),
        Some((
            LogLevel::Warning,
            "Worker 'w' (pid 4021) exited with status: exit status: 1".to_string()
        ))
    );
    assert_eq!(
        poll_verdict("w", 7, &PollOutcome::Failed("No child processes".to_string())),
        Some((LogLevel::Error, "Error checking worker 'w': No child processes".to_string()))
    );
}
