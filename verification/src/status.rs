//! Model lifecycle status and its read-only projection for callers.

use vstd::prelude::*;

verus! {

/// Where the model artifacts and engines stand. Download progress is
/// file-granular: the files finished so far out of the manifest's total.
pub enum ModelStatus {
    /// No complete artifact set on disk and nothing loaded.
    NotDownloaded,
    /// A download is under way; `files_done` of `files_total` are finished.
    Downloading {
        /// Manifest files finished so far.
        files_done: usize,
        /// Manifest files in total.
        files_total: usize,
    },
    /// Vocabulary and engines are loaded; recording may start.
    Ready,
    /// A download or load failed; stays until a new download attempt.
    Error {
        /// What went wrong, for the caller.
        message: String,
    },
}

/// Mathematical image of a `ModelStatus`.
pub enum StatusView {
    /// No artifacts, nothing loaded.
    NotDownloaded,
    /// `files_done` of `files_total` manifest files are finished.
    Downloading {
        /// Manifest files finished so far.
        files_done: int,
        /// Manifest files in total.
        files_total: int,
    },
    /// Loaded and ready.
    Ready,
    /// Failed, with the message shown to the caller.
    Error {
        /// What went wrong.
        message: Seq<char>,
    },
}

impl View for ModelStatus {
    type V = StatusView;

    open spec fn view(&self) -> StatusView {
        match self {
            ModelStatus::NotDownloaded => StatusView::NotDownloaded,
            ModelStatus::Downloading { files_done, files_total } => StatusView::Downloading {
                files_done: *files_done as int,
                files_total: *files_total as int,
            },
            ModelStatus::Ready => StatusView::Ready,
            ModelStatus::Error { message } => StatusView::Error { message: message@ },
        }
    }
}

impl ModelStatus {
    /// A fresh value with the same meaning.
    pub fn snapshot(&self) -> (r: ModelStatus)
        ensures
            r@ == self@,
    {
        match self {
            ModelStatus::NotDownloaded => ModelStatus::NotDownloaded,
            ModelStatus::Downloading { files_done, files_total } => ModelStatus::Downloading {
                files_done: *files_done,
                files_total: *files_total,
            },
            ModelStatus::Ready => ModelStatus::Ready,
            ModelStatus::Error { message } => ModelStatus::Error { message: message.clone() },
        }
    }
}

/// The read-only projection handed to callers: model status and whether a
/// recording session is open.
pub struct SttStatus {
    /// Where the model stands.
    pub model_status: ModelStatus,
    /// Whether audio is being buffered.
    pub is_recording: bool,
}

} // verus!
