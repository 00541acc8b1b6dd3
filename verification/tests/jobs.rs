//! The job controller: starting, cancelling, and the reader loop that
//! turns worker output into events.

use scriptgrab::models::{AppError, ModelSize};
use scriptgrab::protocol::encode_message;
use scriptgrab::protocol::SidecarMessage;
use scriptgrab::sidecar::{generate_job_id, prepare_start, worker_binary_name, Event, SidecarManager};

#[test]
fn test_generate_job_id() {
    let id1 = generate_job_id();
    let id2 = generate_job_id();

    // IDs should be unique
    assert_ne!(id1, id2);

    // IDs should be valid version-4 UUID values
    assert_eq!(uuid::Uuid::from_u128(id1).get_version_num(), 4);
    assert_eq!(uuid::Uuid::from_u128(id2).get_version_num(), 4);
}

#[test]
fn test_active_job_count_empty() {
    let manager: SidecarManager<i32> = SidecarManager::new();
    assert_eq!(manager.active_job_count(), 0);
}

#[test]
fn test_is_job_active_nonexistent() {
    let manager: SidecarManager<i32> = SidecarManager::new();
    assert!(!manager.is_job_active(0xdead_beef));
}

#[test]
fn test_cancel_nonexistent_job() {
    let mut manager: SidecarManager<i32> = SidecarManager::new();
    let result = manager.cancel_transcription(0xdead_beef);
    assert!(result.is_err());
}

#[test]
fn start_registers_and_counts() {
    let mut manager: SidecarManager<i32> = SidecarManager::new();
    let a = manager.start_transcription("a.mp3".to_string(), ModelSize::Base, 1).unwrap();
    let b = manager.start_transcription("b.mp3".to_string(), ModelSize::Small, 2).unwrap();
    assert_ne!(a, b);
    assert!(manager.is_job_active(a));
    assert!(manager.is_job_active(b));
    assert_eq!(manager.active_job_count(), 2);
}

#[test]
fn cancel_returns_the_handle_once() {
    let mut manager: SidecarManager<i32> = SidecarManager::new();
    let id = manager.start_transcription("a.mp3".to_string(), ModelSize::Base, 41).unwrap();
    let job = manager.cancel_transcription(id).unwrap();
    assert_eq!(job.child, 41);
    assert_eq!(job.file_path, "a.mp3");
    assert!(!manager.is_job_active(id));
    assert_eq!(manager.active_job_count(), 0);

    // idempotence: the second cancellation finds nothing
    let second = manager.cancel_transcription(id);
    match second {
        Err(AppError::SidecarError(msg)) => assert!(msg.starts_with("Job not found: ")),
        other => panic!("expected a job-not-found error, got {:?}", other),
    }
}

#[test]
fn cancel_twice_reports_not_found() {
    let mut manager: SidecarManager<i32> = SidecarManager::new();
    let id = manager.start_transcription("a.mp3".to_string(), ModelSize::Base, 5).unwrap();
    let (first, second) = manager.cancel_twice(id);
    assert!(first.is_ok());
    assert!(second.is_err());
    assert!(!manager.is_job_active(id));
}

#[test]
fn prepare_start_missing_input() {
    // Scenario: starting with a missing input fails before any process
    // is spawned.
    let r = prepare_start(&"missing.mp3".to_string(), ModelSize::Base, false);
    match r {
        Err(AppError::FileNotFound(p)) => assert_eq!(p, "missing.mp3"),
        other => panic!("expected FileNotFound, got {:?}", other),
    }
}

#[test]
fn worker_program_is_named() {
    assert_eq!(worker_binary_name(), "whisper-engine");
}

#[test]
fn prepare_start_builds_worker_args() {
    let r = prepare_start(&"/tmp/in.mp3".to_string(), ModelSize::Medium, true).unwrap();
    assert_eq!(r, vec!["/tmp/in.mp3".to_string(), "--model".to_string(), "medium".to_string()]);
}

#[test]
fn fake_worker_clean_run() {
    // Scenario: the worker reports progress twice, completes, and
    // exits 0: exactly those three events, in order, and the job is
    // gone afterwards.
    let mut manager: SidecarManager<i32> = SidecarManager::new();
    let id = manager.start_transcription("a.mp3".to_string(), ModelSize::Base, 9).unwrap();
    let lines = vec![
        encode_message(&SidecarMessage::Progress { percent: 10, status: "working".to_string() }),
        encode_message(&SidecarMessage::Progress { percent: 50, status: "working".to_string() }),
        encode_message(&SidecarMessage::Complete { language: "en".to_string(), duration_ms: 6200 }),
    ];
    let (events, removed) = manager.process_output(id, &lines, Some(0));
    assert_eq!(events.len(), 3);
    match &events[0] {
        Event::Progress(p) => {
            assert_eq!(p.job_id, id);
            assert_eq!(p.percent, 10);
        },
        other => panic!("expected progress, got {:?}", other),
    }
    match &events[1] {
        Event::Progress(p) => assert_eq!(p.percent, 50),
        other => panic!("expected progress, got {:?}", other),
    }
    match &events[2] {
        Event::Complete(c) => {
            assert_eq!(c.job_id, id);
            assert_eq!(c.language, "en");
            assert_eq!(c.duration_ms, 6200);
        },
        other => panic!("expected completion, got {:?}", other),
    }
    assert!(removed.is_some());
    assert!(!manager.is_job_active(id));
    assert_eq!(manager.active_job_count(), 0);
}

#[test]
fn fake_worker_abnormal_exit() {
    // Scenario: the worker exits with code 1 and no messages: exactly
    // one failure event naming the exit code, and the job is removed.
    let mut manager: SidecarManager<i32> = SidecarManager::new();
    let id = manager.start_transcription("a.mp3".to_string(), ModelSize::Base, 3).unwrap();
    let (events, removed) = manager.process_output(id, &vec![], Some(1));
    assert_eq!(events.len(), 1);
    match &events[0] {
        Event::Error(e) => {
            assert_eq!(e.job_id, id);
            assert_eq!(e.message, "exit code 1");
        },
        other => panic!("expected an error event, got {:?}", other),
    }
    assert!(removed.is_some());
    assert!(!manager.is_job_active(id));
}

#[test]
fn cancel_mid_stream() {
    // Scenario: cancellation arrives while the worker is mid-stream.
    // The process handle comes back exactly once, later lines and the
    // exit synthesize nothing, and the job is removed exactly once.
    let mut manager: SidecarManager<i32> = SidecarManager::new();
    let id = manager.start_transcription("a.mp3".to_string(), ModelSize::Base, 11).unwrap();
    let progress =
        encode_message(&SidecarMessage::Progress { percent: 10, status: "working".to_string() });
    let (ev, removed) = manager.handle_line(id, &progress);
    assert!(ev.is_some());
    assert!(removed.is_none());

    let job = manager.cancel_transcription(id).unwrap();
    assert_eq!(job.child, 11);
    assert!(!manager.is_job_active(id));

    // the stream closes: the reader loop drains without further events
    let complete =
        encode_message(&SidecarMessage::Complete { language: "en".to_string(), duration_ms: 100 });
    let (ev2, removed2) = manager.handle_line(id, &complete);
    assert!(ev2.is_none());
    assert!(removed2.is_none());
    let (ev3, removed3) = manager.handle_exit(id, None);
    assert!(ev3.is_none());
    assert!(removed3.is_none());
    assert_eq!(manager.active_job_count(), 0);
}

#[test]
fn malformed_line_does_not_stop_the_loop() {
    // One invalid line followed by a valid line: the loop continues
    // and the valid line still produces its event.
    let mut manager: SidecarManager<i32> = SidecarManager::new();
    let id = manager.start_transcription("a.mp3".to_string(), ModelSize::Base, 2).unwrap();
    let lines = vec![
        "this is not json".to_string(),
        "{\"broken\":true}".to_string(),
        encode_message(&SidecarMessage::Progress { percent: 42, status: "ok".to_string() }),
    ];
    let (events, _removed) = manager.process_output(id, &lines, Some(0));
    assert_eq!(events.len(), 1);
    match &events[0] {
        Event::Progress(p) => assert_eq!(p.percent, 42),
        other => panic!("expected progress, got {:?}", other),
    }
}

#[test]
fn explicit_error_message_is_terminal() {
    let mut manager: SidecarManager<i32> = SidecarManager::new();
    let id = manager.start_transcription("a.mp3".to_string(), ModelSize::Base, 2).unwrap();
    let lines = vec![
        encode_message(&SidecarMessage::Error { message: "out of memory".to_string() }),
        encode_message(&SidecarMessage::Progress { percent: 99, status: "late".to_string() }),
    ];
    // nonzero exit after an explicit error synthesizes nothing more
    let (events, removed) = manager.process_output(id, &lines, Some(1));
    assert_eq!(events.len(), 1);
    match &events[0] {
        Event::Error(e) => assert_eq!(e.message, "out of memory"),
        other => panic!("expected an error event, got {:?}", other),
    }
    assert!(removed.is_some());
}

#[test]
fn exit_zero_without_terminal_message_is_silent() {
    let mut manager: SidecarManager<i32> = SidecarManager::new();
    let id = manager.start_transcription("a.mp3".to_string(), ModelSize::Base, 2).unwrap();
    let (events, removed) = manager.process_output(id, &vec![], Some(0));
    assert!(events.is_empty());
    assert!(removed.is_some());
    assert!(!manager.is_job_active(id));
}
