//! Rendering transcripts as text, subtitles and JSON.

use scriptgrab::export::{
    export_to_json, export_to_srt, export_to_txt, format_srt_time, get_extension,
};
use scriptgrab::models::{ExportFormat, Segment, Transcript, Word};

fn create_test_transcript() -> Transcript {
    Transcript {
        segments: vec![
            Segment {
                id: "seg1".to_string(),
                start_ms: 0,
                end_ms: 3500,
                text: "Hello world.".to_string(),
                words: vec![
                    Word { word: "Hello".to_string(), start_ms: 0, end_ms: 800 },
                    Word { word: "world.".to_string(), start_ms: 900, end_ms: 1500 },
                ],
            },
            Segment {
                id: "seg2".to_string(),
                start_ms: 3600,
                end_ms: 6200,
                text: "This is a test.".to_string(),
                words: vec![
                    Word { word: "This".to_string(), start_ms: 3600, end_ms: 3900 },
                    Word { word: "is".to_string(), start_ms: 4000, end_ms: 4200 },
                    Word { word: "a".to_string(), start_ms: 4300, end_ms: 4400 },
                    Word { word: "test.".to_string(), start_ms: 4500, end_ms: 5000 },
                ],
            },
        ],
        language: "en".to_string(),
        duration_ms: 6200,
    }
}

#[test]
fn test_export_to_txt() {
    let transcript = create_test_transcript();
    let txt = export_to_txt(&transcript);

    assert_eq!(txt, "Hello world. This is a test.");
    assert!(!txt.contains("-->"));
    assert!(!txt.contains(":"));
}

#[test]
fn test_export_to_srt() {
    let transcript = create_test_transcript();
    let srt = export_to_srt(&transcript);

    // Check sequential numbering
    assert!(srt.starts_with("1\n"));
    assert!(srt.contains("2\n"));

    // Check timestamp format
    assert!(srt.contains("00:00:00,000 --> 00:00:03,500"));
    assert!(srt.contains("00:00:03,600 --> 00:00:06,200"));

    // Check text content
    assert!(srt.contains("Hello world."));
    assert!(srt.contains("This is a test."));
}

#[test]
fn test_export_to_json() {
    let transcript = create_test_transcript();
    let json = export_to_json(&transcript).unwrap();

    // Should be valid JSON
    let parsed: serde_json::Value = serde_json::from_str(&json).unwrap();

    assert_eq!(parsed["language"], "en");
    assert_eq!(parsed["duration"], 6.2);
    assert_eq!(parsed["segments"].as_array().unwrap().len(), 2);
    assert_eq!(parsed["segments"][0]["words"][1]["word"], "world.");
}

#[test]
fn test_format_srt_time() {
    assert_eq!(format_srt_time(0), "00:00:00,000");
    assert_eq!(format_srt_time(3500), "00:00:03,500");
    assert_eq!(format_srt_time(65123), "00:01:05,123");
    assert_eq!(format_srt_time(3661500), "01:01:01,500");
}

#[test]
fn test_format_srt_time_edge_cases() {
    // A fraction that rounds up to the next second at conversion time
    assert_eq!(format_srt_time(1000), "00:00:01,000");

    // The smallest representable time
    assert_eq!(format_srt_time(0), "00:00:00,000");
}

#[test]
fn test_get_extension() {
    assert_eq!(get_extension(ExportFormat::Txt), "txt");
    assert_eq!(get_extension(ExportFormat::Srt), "srt");
    assert_eq!(get_extension(ExportFormat::Json), "json");
}

#[test]
fn srt_time_grows_past_two_hour_digits() {
    assert_eq!(format_srt_time(360_000_000), "100:00:00,000");
}

#[test]
fn export_empty_transcript() {
    let t = Transcript { segments: vec![], language: "en".to_string(), duration_ms: 0 };
    assert_eq!(export_to_txt(&t), "");
    assert_eq!(export_to_srt(&t), "");
    let json = export_to_json(&t).unwrap();
    let parsed: serde_json::Value = serde_json::from_str(&json).unwrap();
    assert_eq!(parsed["segments"].as_array().unwrap().len(), 0);
}

#[test]
fn json_export_escapes_text() {
    let t = Transcript {
        segments: vec![Segment {
            id: "s1".to_string(),
            start_ms: 0,
            end_ms: 1000,
            text: "he said \"ok\"".to_string(),
            words: vec![],
        }],
        language: "en".to_string(),
        duration_ms: 1000,
    };
    let json = export_to_json(&t).unwrap();
    let parsed: serde_json::Value = serde_json::from_str(&json).unwrap();
    assert_eq!(parsed["segments"][0]["text"], "he said \"ok\"");
}
