//! Path handling: format validation, extensions and file names.

use scriptgrab::file_handler::{
    get_file_extension, get_file_name, get_supported_formats_string, validate_file_format,
};

#[test]
fn test_validate_file_format_supported() {
    assert!(validate_file_format("audio.mp3"));
    assert!(validate_file_format("audio.wav"));
    assert!(validate_file_format("audio.m4a"));
    assert!(validate_file_format("video.mp4"));
    assert!(validate_file_format("video.mkv"));
}

#[test]
fn test_validate_file_format_case_insensitive() {
    assert!(validate_file_format("audio.MP3"));
    assert!(validate_file_format("audio.Mp3"));
    assert!(validate_file_format("audio.WAV"));
    assert!(validate_file_format("video.MKV"));
}

#[test]
fn test_validate_file_format_unsupported() {
    assert!(!validate_file_format("document.txt"));
    assert!(!validate_file_format("image.jpg"));
    assert!(!validate_file_format("program.exe"));
    assert!(!validate_file_format("archive.zip"));
}

#[test]
fn test_validate_file_format_no_extension() {
    assert!(!validate_file_format("noextension"));
    assert!(!validate_file_format(""));
}

#[test]
fn test_validate_file_format_with_path() {
    assert!(validate_file_format("/path/to/audio.mp3"));
    assert!(validate_file_format("C:\\Users\\test\\audio.wav"));
    assert!(validate_file_format("./relative/path/video.mp4"));
}

#[test]
fn test_get_file_extension() {
    assert_eq!(get_file_extension("audio.mp3"), Some(".mp3".to_string()));
    assert_eq!(get_file_extension("audio.MP3"), Some(".mp3".to_string()));
    assert_eq!(get_file_extension("noext"), None);
}

#[test]
fn test_get_file_name() {
    assert_eq!(get_file_name("/path/to/audio.mp3"), "audio.mp3");
    assert_eq!(get_file_name("audio.mp3"), "audio.mp3");
    assert_eq!(get_file_name("C:\\Users\\test\\video.mp4"), "video.mp4");
}

#[test]
fn test_get_supported_formats_string() {
    let formats = get_supported_formats_string();
    assert!(formats.contains("MP3"));
    assert!(formats.contains("WAV"));
    assert!(formats.contains("M4A"));
    assert!(formats.contains("MP4"));
    assert!(formats.contains("MKV"));
}

#[test]
fn hidden_files_have_no_extension() {
    assert_eq!(get_file_extension(".bashrc"), None);
    assert_eq!(get_file_extension("/home/user/.config"), None);
}

#[test]
fn trailing_dot_gives_empty_extension() {
    assert_eq!(get_file_extension("strange."), Some(".".to_string()));
    assert!(!validate_file_format("strange."));
}
