use sandbox_fs::timelapse::CancelCheck;
use sandbox_fs::timelapse::LoopAction;
use sandbox_fs::timelapse::StartOutcome;
use sandbox_fs::timelapse::StopOutcome;
use sandbox_fs::timelapse::TimelapseSettings;
use sandbox_fs::timelapse::TimelapseThread;
use sandbox_fs::timelapse::capture_args;
use sandbox_fs::timelapse::loop_step;

fn settings() -> TimelapseSettings {
    TimelapseSettings {
        frequency: 60,
        quality: 85,
        folder_name: "timelapse".to_string(),
        file_prefix: "shot".to_string(),
    }
}

#[test]
fn start_when_idle_starts_one_loop() {
    let mut worker = TimelapseThread::new();
    assert!(!worker.is_running());
    let outcome = worker.start(settings());
    assert_eq!(outcome, StartOutcome::Started);
    assert!(worker.is_running());
}

#[test]
fn start_while_running_reports_already_running() {
    let mut worker = TimelapseThread::new();
    worker.start(settings());
    let outcome = worker.start(settings());
    assert_eq!(outcome, StartOutcome::AlreadyRunning);
    assert!(worker.is_running());
}

#[test]
fn stop_while_idle_reports_not_running() {
    let mut worker = TimelapseThread::new();
    assert_eq!(worker.stop(), StopOutcome::NotRunning);
    assert!(!worker.is_running());
}

#[test]
fn stop_clears_state_immediately() {
    let mut worker = TimelapseThread::new();
    worker.start(settings());
    assert_eq!(worker.stop(), StopOutcome::CancelRequested);
    assert!(!worker.is_running());
    assert_eq!(worker.stop(), StopOutcome::NotRunning);
}

#[test]
fn capture_command_line() {
    let args = capture_args(&settings(), "files/", "2024_05_01-12_00_00");
    let expect: Vec<String> = vec![
        "-t".to_string(),
        "1000".to_string(),
        "-q".to_string(),
        "85".to_string(),
        "-o".to_string(),
        "files/timelapse/shot-2024_05_01-12_00_00.jpg".to_string(),
    ];
    assert_eq!(args, expect);
}

#[test]
fn loop_step_decisions() {
    let s = settings();
    assert!(matches!(loop_step(CancelCheck::Cancelled, &s, "", "t"), LoopAction::Exit));
    assert!(matches!(loop_step(CancelCheck::Disconnected, &s, "", "t"), LoopAction::Report));
    match loop_step(CancelCheck::Pending, &s, "", "t") {
        LoopAction::Capture(args) => {
            assert_eq!(args.len(), 6);
            assert_eq!(args[5], "timelapse/shot-t.jpg");
        },
        _ => panic!("expected a capture"),
    }
}
