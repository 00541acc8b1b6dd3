//! The wire protocol: decoding lines, encoding messages, and the
//! round trip between them.

use scriptgrab::models::{Segment, Word};
use scriptgrab::protocol::{decode_line, encode_message, Decoded, SidecarMessage};

fn sample_segment() -> Segment {
    Segment {
        id: "seg1".to_string(),
        start_ms: 0,
        end_ms: 3500,
        text: "Hello world.".to_string(),
        words: vec![
            Word { word: "Hello".to_string(), start_ms: 0, end_ms: 800 },
            Word { word: "world.".to_string(), start_ms: 900, end_ms: 1500 },
        ],
    }
}

#[test]
fn test_sidecar_message_serialization() {
    let progress = SidecarMessage::Progress { percent: 50, status: "Processing...".to_string() };
    let json = encode_message(&progress);
    assert!(json.contains("\"type\":\"progress\""));
    assert!(json.contains("\"percent\":50"));
}

#[test]
fn round_trip_progress() {
    let m = SidecarMessage::Progress { percent: 10, status: "loading model".to_string() };
    let line = encode_message(&m);
    assert_eq!(decode_line(&line), Decoded::Message(m));
}

#[test]
fn round_trip_segment() {
    let m = SidecarMessage::Segment { data: sample_segment() };
    let line = encode_message(&m);
    assert_eq!(decode_line(&line), Decoded::Message(m));
}

#[test]
fn round_trip_complete() {
    let m = SidecarMessage::Complete { language: "en".to_string(), duration_ms: 6200 };
    let line = encode_message(&m);
    assert_eq!(decode_line(&line), Decoded::Message(m));
}

#[test]
fn round_trip_error() {
    let m = SidecarMessage::Error { message: "model not found".to_string() };
    let line = encode_message(&m);
    assert_eq!(decode_line(&line), Decoded::Message(m));
}

#[test]
fn decode_blank_lines() {
    assert_eq!(decode_line(""), Decoded::Blank);
    assert_eq!(decode_line("   "), Decoded::Blank);
    assert_eq!(decode_line("\t\r\n"), Decoded::Blank);
}

#[test]
fn decode_trims_surrounding_whitespace() {
    let m = SidecarMessage::Error { message: "oops".to_string() };
    let line = format!("  {}\r\n", encode_message(&m));
    assert_eq!(decode_line(&line), Decoded::Message(m));
}

#[test]
fn decode_malformed_lines() {
    assert_eq!(decode_line("bad json"), Decoded::Malformed);
    assert_eq!(decode_line("{\"percent\":10}"), Decoded::Malformed);
    assert_eq!(decode_line("{\"type\":\"unknown\"}"), Decoded::Malformed);
    assert_eq!(
        decode_line("{\"type\":\"progress\",\"percent\":101,\"status\":\"x\"}"),
        Decoded::Malformed
    );
    // trailing whitespace is trimmed, so this line is still fine
    assert_eq!(
        decode_line("{\"type\":\"progress\",\"percent\":10,\"status\":\"x\"} "),
        Decoded::Message(SidecarMessage::Progress { percent: 10, status: "x".to_string() })
    );
    assert_eq!(
        decode_line("{\"type\":\"progress\",\"percent\":10,\"status\":\"x\"}junk"),
        Decoded::Malformed
    );
}

#[test]
fn decode_duration_fractions() {
    for (text, ms) in [("6", 6000), ("6.2", 6200), ("6.25", 6250), ("6.250", 6250), ("0.001", 1)] {
        let line = format!("{{\"type\":\"complete\",\"language\":\"en\",\"duration\":{}}}", text);
        assert_eq!(
            decode_line(&line),
            Decoded::Message(SidecarMessage::Complete {
                language: "en".to_string(),
                duration_ms: ms
            }),
            "decoding duration {}",
            text
        );
    }
    let too_many = "{\"type\":\"complete\",\"language\":\"en\",\"duration\":6.2500}";
    assert_eq!(decode_line(too_many), Decoded::Malformed);
}

#[test]
fn decode_percent_bounds() {
    for percent in [0u32, 1, 50, 100] {
        let m = SidecarMessage::Progress { percent, status: "s".to_string() };
        assert_eq!(decode_line(&encode_message(&m)), Decoded::Message(m));
    }
}

#[test]
fn encode_segment_wire_shape() {
    let m = SidecarMessage::Segment { data: sample_segment() };
    let line = encode_message(&m);
    assert_eq!(
        line,
        "{\"type\":\"segment\",\"data\":{\"id\":\"seg1\",\"start\":0.000,\"end\":3.500,\
         \"text\":\"Hello world.\",\"words\":[{\"word\":\"Hello\",\"start\":0.000,\"end\":0.800},\
         {\"word\":\"world.\",\"start\":0.900,\"end\":1.500}]}}"
    );
}

#[test]
fn round_trip_empty_word_list() {
    let m = SidecarMessage::Segment {
        data: Segment {
            id: "s".to_string(),
            start_ms: 1,
            end_ms: 2,
            text: "t".to_string(),
            words: vec![],
        },
    };
    let line = encode_message(&m);
    assert_eq!(decode_line(&line), Decoded::Message(m));
}

#[test]
fn round_trip_with_quotes_and_backslashes() {
    let awkward = "a \"quoted\" value with \\ backslash".to_string();
    let m = SidecarMessage::Error { message: awkward.clone() };
    let line = encode_message(&m);
    assert_eq!(decode_line(&line), Decoded::Message(m));

    let p = SidecarMessage::Progress { percent: 5, status: awkward.clone() };
    assert_eq!(decode_line(&encode_message(&p)), Decoded::Message(p));

    let seg = SidecarMessage::Segment {
        data: Segment {
            id: "s\\1".to_string(),
            start_ms: 0,
            end_ms: 1,
            text: "say \"hi\"".to_string(),
            words: vec![Word { word: "\"hi\"".to_string(), start_ms: 0, end_ms: 1 }],
        },
    };
    assert_eq!(decode_line(&encode_message(&seg)), Decoded::Message(seg));
}

#[test]
fn encode_escapes_on_the_wire() {
    let m = SidecarMessage::Error { message: "a\"b\\c".to_string() };
    let line = encode_message(&m);
    assert_eq!(line, "{\"type\":\"error\",\"message\":\"a\\\"b\\\\c\"}");
    // a real JSON parser reads the escaped field back intact
    let parsed: serde_json::Value = serde_json::from_str(&line).unwrap();
    assert_eq!(parsed["message"], "a\"b\\c");
}

#[test]
fn decode_unescapes_incoming_text() {
    let line = "{\"type\":\"progress\",\"percent\":7,\"status\":\"left \\\" right \\\\ done\"}";
    assert_eq!(
        decode_line(line),
        Decoded::Message(SidecarMessage::Progress {
            percent: 7,
            status: "left \" right \\ done".to_string()
        })
    );
    // a lone backslash before anything else is malformed
    assert_eq!(decode_line("{\"type\":\"error\",\"message\":\"a\\nb\"}"), Decoded::Malformed);
}
