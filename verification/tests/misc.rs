//! Settings, errors, the FFmpeg check, and the close policy.

use scriptgrab::ffmpeg::{check_ffmpeg_availability, extract_version, parse_duration_ms, FFmpegCheckResult};
use scriptgrab::file_handler::get_file_metadata_internal;
use scriptgrab::models::{model_size_str, AppError, ExportFormat, ModelSize, Settings};
use scriptgrab::sidecar::SidecarManager;
use scriptgrab::tray::{
    close_requested_action, has_active_transcription, is_minimize_to_tray_enabled, CloseAction,
};

#[test]
fn test_settings_default() {
    let settings = Settings::default();
    assert_eq!(settings.model_size, ModelSize::Base);
    assert!(!settings.minimize_to_tray);
    assert_eq!(settings.default_export_format, ExportFormat::Txt);
    assert!(settings.auto_check_updates);
}

#[test]
fn test_app_error_display() {
    let error = AppError::FFmpegNotFound;
    let msg = error.message();
    assert!(msg.contains("FFmpeg not found"));
}

#[test]
fn error_messages_name_their_cause() {
    assert_eq!(
        AppError::FileNotFound("a.mp3".to_string()).message(),
        "File not found: a.mp3"
    );
    assert_eq!(AppError::UnsupportedFormat(".gif".to_string()).message(), "Unsupported format: .gif");
    assert_eq!(
        AppError::TranscriptionFailed("boom".to_string()).message(),
        "Transcription failed: boom"
    );
    assert_eq!(AppError::StorageError("disk".to_string()).message(), "Storage error: disk");
    assert_eq!(AppError::ModelNotFound("tiny".to_string()).message(), "Model not found: tiny");
    assert_eq!(
        AppError::ModelDownloadFailed("offline".to_string()).message(),
        "Model download failed: offline"
    );
    assert_eq!(AppError::SidecarError("killed".to_string()).message(), "Sidecar error: killed");
    assert_eq!(AppError::InvalidInput("nan".to_string()).message(), "Invalid input: nan");
}

#[test]
fn model_sizes_have_canonical_names() {
    assert_eq!(model_size_str(ModelSize::Base), "base");
    assert_eq!(model_size_str(ModelSize::Small), "small");
    assert_eq!(model_size_str(ModelSize::Medium), "medium");
    assert_eq!(ModelSize::default(), ModelSize::Base);
}

#[test]
fn test_extract_version() {
    let output = "ffmpeg version 6.0 Copyright (c) 2000-2023 the FFmpeg developers";
    let version = extract_version(output);
    assert!(version.is_some());
    assert!(version.unwrap().contains("ffmpeg version"));
}

#[test]
fn test_extract_version_empty() {
    let output = "";
    let version = extract_version(output);
    assert!(version.is_none());
}

#[test]
fn extract_version_takes_first_line() {
    let out = extract_version("ffmpeg version 6.0\nbuilt with gcc\n");
    assert_eq!(out, Some("ffmpeg version 6.0".to_string()));
    let crlf = extract_version("ffmpeg version 6.0\r\nbuilt with gcc\r\n");
    assert_eq!(crlf, Some("ffmpeg version 6.0".to_string()));
}

#[test]
fn ffmpeg_check_prefers_the_path() {
    let from_path = FFmpegCheckResult {
        available: true,
        location: Some("PATH".to_string()),
        version: Some("ffmpeg version 6.0".to_string()),
    };
    let from_dir = FFmpegCheckResult {
        available: true,
        location: Some("/opt/app/ffmpeg".to_string()),
        version: None,
    };
    let r = check_ffmpeg_availability(Some(from_path.clone()), Some(from_dir.clone()));
    assert_eq!(r, from_path);
    let r2 = check_ffmpeg_availability(None, Some(from_dir.clone()));
    assert_eq!(r2, from_dir);
    let r3 = check_ffmpeg_availability(None, None);
    assert!(!r3.available);
    assert!(r3.location.is_none());
    assert!(r3.version.is_none());
}

#[test]
fn test_is_minimize_to_tray_default() {
    // Without settings, the default applies
    let result = is_minimize_to_tray_enabled(None);
    assert!(result == true || result == false);
    assert!(!result);
}

#[test]
fn minimize_to_tray_follows_settings() {
    let mut s = Settings::default();
    assert!(!is_minimize_to_tray_enabled(Some(s.clone())));
    s.minimize_to_tray = true;
    assert!(is_minimize_to_tray_enabled(Some(s)));
}

#[test]
fn close_policy() {
    assert_eq!(close_requested_action(true, false), CloseAction::ConfirmClose);
    assert_eq!(close_requested_action(true, true), CloseAction::ConfirmClose);
    assert_eq!(close_requested_action(false, true), CloseAction::MinimizeToTray);
    assert_eq!(close_requested_action(false, false), CloseAction::Quit);
}

#[test]
fn active_transcriptions_block_closing() {
    let mut manager: SidecarManager<i32> = SidecarManager::new();
    assert!(!has_active_transcription(&manager));
    let id = manager
        .start_transcription("a.mp3".to_string(), ModelSize::Base, 1)
        .unwrap();
    assert!(has_active_transcription(&manager));
    manager.cancel_transcription(id).unwrap();
    assert!(!has_active_transcription(&manager));
}

#[test]
fn probed_durations_parse_to_milliseconds() {
    assert_eq!(parse_duration_ms("6.200000\n"), Some(6200));
    assert_eq!(parse_duration_ms("6"), Some(6000));
    assert_eq!(parse_duration_ms("6.2"), Some(6200));
    assert_eq!(parse_duration_ms("  0.0015 "), Some(1));
    assert_eq!(parse_duration_ms(""), None);
    assert_eq!(parse_duration_ms("N/A"), None);
    assert_eq!(parse_duration_ms("1.2.3"), None);
}

#[test]
fn metadata_decisions() {
    match get_file_metadata_internal("gone.mp3", false, 0, 0) {
        Err(AppError::FileNotFound(p)) => assert_eq!(p, "gone.mp3"),
        other => panic!("expected FileNotFound, got {:?}", other),
    }
    match get_file_metadata_internal("/a/letter.PDF", true, 9, 0) {
        Err(AppError::UnsupportedFormat(x)) => assert_eq!(x, ".pdf"),
        other => panic!("expected UnsupportedFormat, got {:?}", other),
    }
    match get_file_metadata_internal("noext", true, 9, 0) {
        Err(AppError::UnsupportedFormat(x)) => assert_eq!(x, "unknown"),
        other => panic!("expected UnsupportedFormat, got {:?}", other),
    }
    let info = get_file_metadata_internal("/media/talk.mp3", true, 123, 4500).unwrap();
    assert_eq!(info.name, "talk.mp3");
    assert_eq!(info.path, "/media/talk.mp3");
    assert_eq!(info.size, 123);
    assert_eq!(info.duration_ms, 4500);
}
