//! Storage decisions: paths, identifiers, timestamps, and the history
//! index.

use scriptgrab::models::{HistoryItem, ModelSize, StoredTranscript};
use scriptgrab::storage::{
    current_timestamp, generate_id, get_storage_manager, history_item_of, StorageManager,
    TranscriptIndex,
};

fn item(id: &str, date: &str) -> HistoryItem {
    HistoryItem {
        id: id.to_string(),
        file_name: format!("{}.mp3", id),
        file_path: format!("/media/{}.mp3", id),
        date: date.to_string(),
        duration_ms: 1000,
        language: "en".to_string(),
    }
}

fn stored(id: &str, created_at: &str) -> StoredTranscript {
    StoredTranscript {
        id: id.to_string(),
        file_name: format!("{}.mp3", id),
        file_path: format!("/media/{}.mp3", id),
        created_at: created_at.to_string(),
        duration_ms: 1000,
        language: "en".to_string(),
        model_size: ModelSize::Base,
        segments: vec![],
    }
}

#[test]
fn storage_paths() {
    let m = StorageManager::new("/data/app".to_string());
    assert_eq!(m.index_path(), "/data/app/transcript_index.json");
    assert_eq!(m.settings_path(), "/data/app/settings.json");
    assert_eq!(m.transcript_path("abc"), "/data/app/transcripts/abc.json");
}

#[test]
fn storage_manager_from_resolved_dir() {
    assert!(get_storage_manager(Some("/data/app".to_string())).is_ok());
    let err = match get_storage_manager(None) {
        Ok(_) => panic!("expected an error without a base directory"),
        Err(e) => e,
    };
    assert_eq!(err, "Storage error: Cannot determine base directories");
}

#[test]
fn generated_ids_are_uuids() {
    let a = generate_id();
    let b = generate_id();
    assert_ne!(a, b);
    assert!(uuid::Uuid::parse_str(&a).is_ok());
    assert!(uuid::Uuid::parse_str(&b).is_ok());
    assert_eq!(a.len(), 36);
}

#[test]
fn timestamps_parse_as_rfc3339() {
    let t = current_timestamp();
    assert!(chrono::DateTime::parse_from_rfc3339(&t).is_ok());
}

#[test]
fn remove_id_drops_matching_lines() {
    let mut index = TranscriptIndex {
        items: vec![
            item("a", "2024-01-01T00:00:00+00:00"),
            item("b", "2024-01-02T00:00:00+00:00"),
            item("a", "2024-01-03T00:00:00+00:00"),
        ],
    };
    index.remove_id(&"a".to_string());
    assert_eq!(index.items.len(), 1);
    assert_eq!(index.items[0].id, "b");
}

#[test]
fn apply_save_sorts_newest_first() {
    let mut index = TranscriptIndex {
        items: vec![
            item("old", "2024-01-01T00:00:00+00:00"),
            item("new", "2024-03-01T00:00:00+00:00"),
        ],
    };
    index.apply_save(&stored("mid", "2024-02-01T00:00:00+00:00"));
    let ids: Vec<&str> = index.items.iter().map(|h| h.id.as_str()).collect();
    assert_eq!(ids, vec!["new", "mid", "old"]);
    for w in index.items.windows(2) {
        assert!(w[0].date >= w[1].date);
    }
}

#[test]
fn apply_save_replaces_same_id() {
    let mut index =
        TranscriptIndex { items: vec![item("a", "2024-01-01T00:00:00+00:00")] };
    index.apply_save(&stored("a", "2024-05-01T00:00:00+00:00"));
    assert_eq!(index.items.len(), 1);
    assert_eq!(index.items[0].date, "2024-05-01T00:00:00+00:00");
}

#[test]
fn history_item_summarizes_transcript() {
    let t = stored("x", "2024-04-01T00:00:00+00:00");
    let h = history_item_of(&t);
    assert_eq!(h.id, "x");
    assert_eq!(h.date, "2024-04-01T00:00:00+00:00");
    assert_eq!(h.file_name, "x.mp3");
    assert_eq!(h.duration_ms, 1000);
}

#[test]
fn default_index_is_empty() {
    let index = TranscriptIndex::default();
    assert!(index.items.is_empty());
}
