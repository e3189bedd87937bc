use sandbox_fs::error::AppErrorKind;
use sandbox_fs::upload::UploadReport;

#[test]
fn full_success_reports_all_names() {
    let mut report = UploadReport::new();
    report.record_success("a.txt".to_string());
    report.record_success("b.txt".to_string());
    assert!(!report.failed());
    assert_eq!(report.completed(), &vec!["a.txt".to_string(), "b.txt".to_string()]);
    let outcome = report.into_outcome();
    assert_eq!(outcome.unwrap(), vec!["a.txt".to_string(), "b.txt".to_string()]);
}

#[test]
fn partial_failure_keeps_completed_names() {
    let mut report = UploadReport::new();
    report.record_success("a.txt".to_string());
    report.record_failure("b.txt".to_string(), AppErrorKind::FailedToReadFile);
    assert!(report.failed());
    let (done, failed_name, error) = report.into_outcome().err().unwrap();
    assert_eq!(done, vec!["a.txt".to_string()]);
    assert_eq!(failed_name, "b.txt");
    assert!(matches!(error, AppErrorKind::FailedToReadFile));
}

#[test]
fn empty_batch_reports_nothing() {
    let report = UploadReport::new();
    assert!(!report.failed());
    assert_eq!(report.into_outcome().unwrap(), Vec::<String>::new());
}
