use runpy::integrity::{script_stem_of, IntegrityChecker, IntegrityError, UvProbe};

fn names(list: &[&str]) -> Vec<String> {
    list.iter().map(|s| s.to_string()).collect()
}

#[test]
fn index_holds_python_stems_without_dunders() {
    let mut checker = IntegrityChecker::new("scripts", "uv");
    checker.index_scripts(&names(&["hello.py", "__init__.py", "notes.txt", ".py", "a.b.py", "hello.py", "x.pyc"]));
    let mut indexed = checker.indexed_scripts().clone();
    indexed.sort();
    assert_eq!(indexed, vec!["a.b".to_string(), "hello".to_string()]);
}

#[test]
fn check_script_reindexes() {
    let mut checker = IntegrityChecker::new("scripts", "uv");
    assert!(checker.check_script(&names(&["worker.py"]), "worker"));
    assert!(!checker.check_script(&names(&["other.py"]), "worker"));
    assert!(!checker.check_script(&names(&["__worker.py"]), "__worker"));
}

#[test]
fn script_stems() {
    assert_eq!(script_stem_of("a.py"), Some("a".to_string()));
    assert_eq!(script_stem_of("..py"), Some(".".to_string()));
    assert_eq!(script_stem_of(".py"), None);
    assert_eq!(script_stem_of("__main__.py"), None);
    assert_eq!(script_stem_of("_x.py"), Some("_x".to_string()));
    assert_eq!(script_stem_of("py"), None);
}

#[test]
fn uv_probe_verdicts() {
    let checker = IntegrityChecker::new("/srv/scripts", "/tmp/missing-uv");
    assert_eq!(checker.validate_uv(UvProbe::Succeeded), Ok(()));
    let missing = checker.validate_uv(UvProbe::NotFound).unwrap_err();
    assert_eq!(missing.message(), "uv executable not found at '/tmp/missing-uv'");
    let status = checker.validate_uv(UvProbe::Exited("exit status: 7".into())).unwrap_err();
    assert!(status.message().contains("returned non-zero status"));
    assert!(status.message().contains("/tmp/missing-uv"));
    let failed = checker.validate_uv(UvProbe::Failed("denied".into())).unwrap_err();
    assert_eq!(failed.message(), "Failed to execute uv at '/tmp/missing-uv': denied");
}

#[test]
fn scripts_directory_verdict() {
    let checker = IntegrityChecker::new("/srv/missing-scripts", "uv");
    assert_eq!(checker.check_scripts_directory(true), Ok(()));
    assert_eq!(
        checker.check_scripts_directory(false).unwrap_err().message(),
        "Scripts directory does not exist: '/srv/missing-scripts'"
    );
    assert_eq!(
        IntegrityError::SocketDirectory { detail: "denied".into() }.message(),
        "Failed to create socket directory: denied"
    );
    assert_eq!(checker.uv_path(), "uv");
    assert_eq!(checker.scripts_dir(), "/srv/missing-scripts");
}
