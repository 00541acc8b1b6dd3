//! Data model of the transcription core.
//!
//! Times are carried as integer milliseconds throughout: the wire
//! protocol transports seconds with millisecond precision, and an
//! integer representation keeps every timing computation exact.

use vstd::prelude::*;

verus! {

/// Output formats a finished transcript can be rendered to.
#[derive(Clone, Copy, PartialEq, Eq, Structural, Debug)]
pub enum ExportFormat {
    Txt,
    Srt,
    Json,
}

/// Worker model size; selects the model the worker loads.
#[derive(Clone, Copy, PartialEq, Eq, Structural, Debug)]
pub enum ModelSize {
    Base,
    Small,
    Medium,
}

impl Default for ModelSize {
    fn default() -> (r: Self)
        ensures
            r == ModelSize::Base,
    {
        ModelSize::Base
    }
}

/// Canonical command-line value for a model size choice.
pub fn model_size_str(size: ModelSize) -> (r: &'static str)
    ensures
        r@ == spec_model_size_str(size),
{
    match size {
        ModelSize::Base => "base",
        ModelSize::Small => "small",
        ModelSize::Medium => "medium",
    }
}

/// The canonical worker flag value of each model size.
pub open spec fn spec_model_size_str(size: ModelSize) -> Seq<char> {
    match size {
        ModelSize::Base => "base"@,
        ModelSize::Small => "small"@,
        ModelSize::Medium => "medium"@,
    }
}

/// Lifecycle state of a queued input.
#[derive(Clone, Copy, PartialEq, Eq, Structural, Debug)]
pub enum QueueItemStatus {
    Pending,
    Processing,
    Completed,
    Error,
}

/// Mathematical value of a word: its text and its time span.
#[verifier::ext_equal]
pub struct WordModel {
    pub word: Seq<char>,
    pub start_ms: u64,
    pub end_ms: u64,
}

/// A single transcribed word with its time span in milliseconds.
#[derive(Clone, PartialEq, Debug)]
pub struct Word {
    pub word: String,
    pub start_ms: u64,
    pub end_ms: u64,
}

impl View for Word {
    type V = WordModel;

    open spec fn view(&self) -> WordModel {
        WordModel { word: self.word@, start_ms: self.start_ms, end_ms: self.end_ms }
    }
}

/// Mathematical value of a segment.
#[verifier::ext_equal]
pub struct SegmentModel {
    pub id: Seq<char>,
    pub start_ms: u64,
    pub end_ms: u64,
    pub text: Seq<char>,
    pub words: Seq<WordModel>,
}

/// A timed span of transcribed text with word-level sub-timings.
#[derive(Clone, PartialEq, Debug)]
pub struct Segment {
    pub id: String,
    pub start_ms: u64,
    pub end_ms: u64,
    pub text: String,
    pub words: Vec<Word>,
}

impl View for Segment {
    type V = SegmentModel;

    open spec fn view(&self) -> SegmentModel {
        SegmentModel {
            id: self.id@,
            start_ms: self.start_ms,
            end_ms: self.end_ms,
            text: self.text@,
            words: self.words@.map_values(|w: Word| w@),
        }
    }
}

/// A complete transcript: ordered segments plus stream-level metadata.
#[derive(Clone, PartialEq, Debug)]
pub struct Transcript {
    pub segments: Vec<Segment>,
    pub language: String,
    pub duration_ms: u64,
}

impl Transcript {
    /// The segments as their mathematical values.
    pub open spec fn segs(&self) -> Seq<SegmentModel> {
        self.segments@.map_values(|s: Segment| s@)
    }
}

/// Metadata of a media file chosen for transcription.
#[derive(Clone, PartialEq, Debug)]
pub struct FileInfo {
    pub name: String,
    pub path: String,
    pub size: u64,
    pub duration_ms: u64,
}

/// One line of the saved-transcript history.
#[derive(Clone, PartialEq, Debug)]
pub struct HistoryItem {
    pub id: String,
    pub file_name: String,
    pub file_path: String,
    pub date: String,
    pub duration_ms: u64,
    pub language: String,
}

/// Mathematical value of a history line.
#[verifier::ext_equal]
pub struct HistoryItemModel {
    pub id: Seq<char>,
    pub file_name: Seq<char>,
    pub file_path: Seq<char>,
    pub date: Seq<char>,
    pub duration_ms: u64,
    pub language: Seq<char>,
}

impl View for HistoryItem {
    type V = HistoryItemModel;

    open spec fn view(&self) -> HistoryItemModel {
        HistoryItemModel {
            id: self.id@,
            file_name: self.file_name@,
            file_path: self.file_path@,
            date: self.date@,
            duration_ms: self.duration_ms,
            language: self.language@,
        }
    }
}

/// A transcript as persisted, with its metadata.
#[derive(Clone, PartialEq, Debug)]
pub struct StoredTranscript {
    pub id: String,
    pub file_name: String,
    pub file_path: String,
    pub created_at: String,
    pub duration_ms: u64,
    pub language: String,
    pub model_size: ModelSize,
    pub segments: Vec<Segment>,
}

/// Mathematical value of a stored transcript.
#[verifier::ext_equal]
pub struct StoredTranscriptModel {
    pub id: Seq<char>,
    pub file_name: Seq<char>,
    pub file_path: Seq<char>,
    pub created_at: Seq<char>,
    pub duration_ms: u64,
    pub language: Seq<char>,
    pub model_size: ModelSize,
    pub segments: Seq<SegmentModel>,
}

impl View for StoredTranscript {
    type V = StoredTranscriptModel;

    open spec fn view(&self) -> StoredTranscriptModel {
        StoredTranscriptModel {
            id: self.id@,
            file_name: self.file_name@,
            file_path: self.file_path@,
            created_at: self.created_at@,
            duration_ms: self.duration_ms,
            language: self.language@,
            model_size: self.model_size,
            segments: self.segments@.map_values(|s: Segment| s@),
        }
    }
}

/// An input waiting in the batch queue.
#[derive(Clone, PartialEq, Debug)]
pub struct QueueItem {
    pub id: String,
    pub file_path: String,
    pub file_name: String,
    pub status: QueueItemStatus,
    pub progress_percent: u32,
    pub added_at: String,
}

/// Application settings.
#[derive(Clone, PartialEq, Debug)]
pub struct Settings {
    pub model_size: ModelSize,
    pub minimize_to_tray: bool,
    pub default_export_format: ExportFormat,
    pub auto_check_updates: bool,
}

impl Default for Settings {
    fn default() -> (r: Settings)
        ensures
            r.model_size == ModelSize::Base,
            !r.minimize_to_tray,
            r.default_export_format == ExportFormat::Txt,
            r.auto_check_updates,
    {
        Settings {
            model_size: ModelSize::Base,
            minimize_to_tray: false,
            default_export_format: ExportFormat::Txt,
            auto_check_updates: true,
        }
    }
}

/// Description of a downloadable worker model.
#[derive(Clone, PartialEq, Debug)]
pub struct ModelInfo {
    pub name: ModelSize,
    pub size: String,
    pub downloaded: bool,
}

/// A transcript together with the file it came from.
#[derive(Clone, PartialEq, Debug)]
pub struct TranscriptData {
    pub transcript: Transcript,
    pub file_name: String,
    pub file_path: String,
}

/// Application error taxonomy.
#[derive(Clone, PartialEq, Debug)]
pub enum AppError {
    FileNotFound(String),
    UnsupportedFormat(String),
    TranscriptionFailed(String),
    StorageError(String),
    ModelNotFound(String),
    ModelDownloadFailed(String),
    SidecarError(String),
    FFmpegNotFound,
    InvalidInput(String),
}

impl AppError {
    /// The human-readable text of this error.
    pub open spec fn spec_message(&self) -> Seq<char> {
        match self {
            AppError::FileNotFound(p) => "File not found: "@ + p@,
            AppError::UnsupportedFormat(e) => "Unsupported format: "@ + e@,
            AppError::TranscriptionFailed(m) => "Transcription failed: "@ + m@,
            AppError::StorageError(m) => "Storage error: "@ + m@,
            AppError::ModelNotFound(m) => "Model not found: "@ + m@,
            AppError::ModelDownloadFailed(m) => "Model download failed: "@ + m@,
            AppError::SidecarError(m) => "Sidecar error: "@ + m@,
            AppError::FFmpegNotFound => "FFmpeg not found. Please install FFmpeg or ensure ffmpeg.exe is in the application directory."@,
            AppError::InvalidInput(m) => "Invalid input: "@ + m@,
        }
    }

    /// Render this error as text.
    pub fn message(&self) -> (r: String)
        ensures
            r@ == self.spec_message(),
    {
        match self {
            AppError::FileNotFound(p) => String::from_str("File not found: ").concat(p.as_str()),
            AppError::UnsupportedFormat(e) => String::from_str("Unsupported format: ").concat(
                e.as_str(),
            ),
            AppError::TranscriptionFailed(m) => String::from_str("Transcription failed: ").concat(
                m.as_str(),
            ),
            AppError::StorageError(m) => String::from_str("Storage error: ").concat(m.as_str()),
            AppError::ModelNotFound(m) => String::from_str("Model not found: ").concat(m.as_str()),
            AppError::ModelDownloadFailed(m) => String::from_str(
                "Model download failed: ",
            ).concat(m.as_str()),
            AppError::SidecarError(m) => String::from_str("Sidecar error: ").concat(m.as_str()),
            AppError::FFmpegNotFound => String::from_str(
                "FFmpeg not found. Please install FFmpeg or ensure ffmpeg.exe is in the application directory.",
            ),
            AppError::InvalidInput(m) => String::from_str("Invalid input: ").concat(m.as_str()),
        }
    }
}

} // verus!
