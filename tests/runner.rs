use std::path::Path;

use xorcist::error::XorcistError;
use xorcist::runner::{capture_result, command_result, JjRunner};

#[test]
fn test_runner_creation() {
    let runner = JjRunner::new();
    assert!(runner.work_dir.is_none());
}

#[test]
fn test_runner_with_work_dir() {
    let runner = JjRunner::new().with_work_dir(Path::new("/tmp"));
    assert_eq!(runner.work_dir, Some(std::path::PathBuf::from("/tmp")));
}

#[test]
fn command_result_trims_the_right_stream() {
    let ok = command_result("jj new", true, "  done\n", "warn");
    assert_eq!(ok.command, "jj new");
    assert!(ok.success);
    assert_eq!(ok.message, "done");
    let bad = command_result("jj edit", false, "out", "\n boom \n");
    assert!(!bad.success);
    assert_eq!(bad.message, "boom");
}

#[test]
fn capture_result_cases() {
    assert_eq!(capture_result(true, Some("x\n".to_string()), "").unwrap(), "x\n");
    assert!(matches!(capture_result(true, None, ""), Err(XorcistError::InvalidUtf8)));
    match capture_result(false, Some(String::new()), " no repo \n") {
        Err(XorcistError::JjError(m)) => assert_eq!(m, "no repo"),
        _ => panic!("expected an error"),
    }
}
