use runpy::manager::{
    check_script_name, join_path, lock_file, missing_script_message, script_file, uv_runs_as_given,
};
use runpy::{WorkerIdentity, WorkerSpec};

#[test]
fn worker_identity_contains_script_name() {
    let id = WorkerIdentity::new("my_script");
    assert!(id.name.starts_with("my_script_"));
    assert!(id.sock_file.starts_with("rp_"));
    assert!(id.sock_file.ends_with(".sock"));
}

#[test]
fn worker_identity_is_unique() {
    let first = WorkerIdentity::new("same");
    let second = WorkerIdentity::new("same");
    assert_ne!(first.name, second.name);
    assert_ne!(first.sock_file, second.sock_file);
}

#[test]
fn identity_is_assembled_from_its_parts() {
    let id = WorkerIdentity::from_parts("scraper", "25092026-1200", "A1b2");
    assert_eq!(id.name, "scraper_25092026-1200_A1b2");
    assert_eq!(id.sock_file, "rp_scraper_25092026-1200_A1b2.sock");
}

#[test]
fn generated_identity_has_a_four_character_alphanumeric_suffix() {
    let id = WorkerIdentity::new("w");
    let suffix = id.name.rsplit('_').next().unwrap();
    assert_eq!(suffix.len(), 4);
    assert!(suffix.chars().all(|c| c.is_ascii_alphanumeric()));
    assert_eq!(id.sock_file, format!("rp_{}.sock", id.name));
}

#[test]
fn script_names_must_be_single_components() {
    for name in ["../escape", "nested/worker", "./valid", "valid/", ".", "..", "", "/absolute"] {
        assert_eq!(
            check_script_name(name),
            Err("Worker script name must be a single path component".to_string()),
            "unexpected result for {name:?}"
        );
    }
    assert_eq!(check_script_name("valid"), Ok(()));
    assert_eq!(check_script_name(".hidden"), Ok(()));
}

#[test]
fn paths_join_like_path_join() {
    assert_eq!(join_path("/tmp/runpy", "rp_x.sock"), "/tmp/runpy/rp_x.sock");
    assert_eq!(join_path("/tmp/runpy/", "rp_x.sock"), "/tmp/runpy/rp_x.sock");
    assert_eq!(join_path("", "a.py"), "a.py");
    assert_eq!(script_file("/srv/scripts", "managed"), "/srv/scripts/managed.py");
    assert_eq!(lock_file("/srv/scripts/managed.py"), "/srv/scripts/managed.py.lock");
    assert_eq!(
        missing_script_message("/srv/scripts/missing.py"),
        "Worker script does not exist: '/srv/scripts/missing.py'"
    );
}

#[test]
fn builder_settings_replace_and_keep_order() {
    let mut spec = WorkerSpec::new("test");
    spec.env("A", "1");
    spec.env("B", "2");
    spec.env("A", "3");
    spec.arg("mode", "test");
    spec.args(&vec![("batch".to_string(), "10".to_string()), ("mode".to_string(), "fast".to_string())]);
    let plan = spec.launch_plan("uv", "/s/test.py", false, "/tmp/runpy/rp_t.sock", "t", Some("/"));
    assert_eq!(
        plan.args,
        vec![
            "run", "--no-project", "--script", "/s/test.py", "/tmp/runpy/rp_t.sock", "t",
            "--mode=fast", "--batch=10",
        ]
    );
    assert_eq!(
        plan.env,
        vec![
            ("PYTHONPATH".to_string(), "/".to_string()),
            ("A".to_string(), "3".to_string()),
            ("B".to_string(), "2".to_string()),
            ("PYTHONUNBUFFERED".to_string(), "1".to_string()),
        ]
    );
    assert_eq!(plan.working_dir, Some("/".to_string()));
    assert_eq!(plan.program, "uv");
}

#[test]
fn locked_scripts_run_with_locked_flag_and_unbuffered_is_forced() {
    let mut spec = WorkerSpec::new("managed");
    spec.env("PYTHONUNBUFFERED", "0");
    let plan = spec.launch_plan("/opt/uv", "/x/managed.py", true, "/tmp/runpy/rp_m.sock", "m", None);
    assert_eq!(&plan.args[0..4], ["run", "--no-project", "--locked", "--script"]);
    assert_eq!(plan.working_dir, None);
    let last = plan.env.iter().rev().find(|(k, _)| k == "PYTHONUNBUFFERED").unwrap();
    assert_eq!(last.1, "1");
}

#[test]
fn spawn_is_claimed_once() {
    let mut spec = WorkerSpec::new("test");
    assert_eq!(spec.spawned_id(), Err("Worker has not been spawned yet".to_string()));
    assert_eq!(spec.claim_spawn(), Ok(()));
    spec.record_spawn("test_1");
    assert_eq!(spec.claim_spawn(), Err("Worker has already been spawned".to_string()));
    assert_eq!(spec.spawned_id(), Ok("test_1".to_string()));
    assert_eq!(spec.script(), "test");
}

#[test]
fn uv_paths_run_as_given_when_absolute_or_single_component() {
    for path in ["uv", "/usr/bin/uv", "/opt/runpy/bin/uv", "uv/", ".", "./", "./.", ".."] {
        assert!(uv_runs_as_given(path), "{path:?} should run as given");
    }
    for path in ["./uv", "bin/uv", "a/./b", "a//b", "../uv", ""] {
        assert!(!uv_runs_as_given(path), "{path:?} should be resolved");
    }
}

#[test]
fn identity_timestamp_has_minute_resolution() {
    let id = WorkerIdentity::new("job");
    let stamp = &id.name["job_".len()..id.name.len() - "_abcd".len()];
    assert_eq!(stamp.len(), 13);
    assert!(stamp[..8].chars().all(|c| c.is_ascii_digit()));
    assert_eq!(&stamp[8..9], "-");
    assert!(stamp[9..].chars().all(|c| c.is_ascii_digit()));
}
