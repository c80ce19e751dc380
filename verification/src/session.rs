//! The shared session: recording state machine, audio buffer, model status,
//! and the decisions of the download and load lifecycle.
//!
//! The surrounding application owns the lock, the files, the network and the
//! engines; every decision about what those events mean for the session
//! state is taken here.

use vstd::prelude::*;

use crate::decoder::SttInference;
use crate::errors::SttError;
use crate::manifest::MODEL_FILE_COUNT;
use crate::status::ModelStatus;
use crate::status::StatusView;
use crate::status::SttStatus;
use crate::vocab::Vocabulary;

verus! {

/// The engine state: audio buffer, recording flag, model status, vocabulary,
/// and whether the inference engines are loaded. Engine handles themselves
/// live with the application; `engines_loaded` mirrors their presence.
pub struct SttState {
    /// Samples buffered during the open recording session, as sample bit
    /// patterns; cleared on start, drained on stop.
    pub audio_buffer: Vec<u32>,
    /// Whether a recording session is open.
    pub is_recording: bool,
    /// Where the model stands.
    pub model_status: ModelStatus,
    /// The vocabulary table of the loaded model; empty before a load.
    pub vocab: Vocabulary,
    /// Whether the three inference engines are loaded beside this state.
    pub engines_loaded: bool,
}

/// Neither the model (status, vocabulary, engines) nor anything else beyond
/// the recording session changed.
pub open spec fn same_model(pre: SttState, post: SttState) -> bool {
    &&& post.model_status == pre.model_status
    &&& post.vocab == pre.vocab
    &&& post.engines_loaded == pre.engines_loaded
}

/// The recording session (flag and buffer) and the vocabulary and engines
/// are as before; only the status may have moved.
pub open spec fn same_but_status(pre: SttState, post: SttState) -> bool {
    &&& post.audio_buffer == pre.audio_buffer
    &&& post.is_recording == pre.is_recording
    &&& post.vocab == pre.vocab
    &&& post.engines_loaded == pre.engines_loaded
}

/// What `stop_recording` does: it always succeeds, closes the session,
/// hands the caller everything buffered, and leaves the buffer empty;
/// nothing else changes.
pub open spec fn stop_transition(pre: SttState, post: SttState, drained: Seq<u32>) -> bool {
    &&& drained == pre.audio_buffer@
    &&& post.audio_buffer@ == Seq::<u32>::empty()
    &&& !post.is_recording
    &&& same_model(pre, post)
}

impl SttState {
    /// The state is well formed when its vocabulary is.
    pub open spec fn wf(&self) -> bool {
        self.vocab.wf()
    }

    /// A fresh session: nothing downloaded, nothing loaded, not recording.
    pub fn new() -> (r: SttState)
        ensures
            r.wf(),
            r.model_status@ is NotDownloaded,
            !r.is_recording,
            r.audio_buffer@ == Seq::<u32>::empty(),
            !r.engines_loaded,
            r.vocab.map_view() == Map::<i64, Seq<u8>>::empty(),
            r.vocab.blank_id == 0,
    {
        SttState {
            audio_buffer: Vec::new(),
            is_recording: false,
            model_status: ModelStatus::NotDownloaded,
            vocab: Vocabulary::new(),
            engines_loaded: false,
        }
    }

    /// The read-only projection for callers.
    pub fn get_status(&self) -> (r: SttStatus)
        ensures
            r.model_status@ == self.model_status@,
            r.is_recording == self.is_recording,
    {
        SttStatus { model_status: self.model_status.snapshot(), is_recording: self.is_recording }
    }

    /// Open a recording session: fails with `NotReady` for every status
    /// other than `Ready`; otherwise clears the buffer and starts recording.
    pub fn start_recording(&mut self) -> (r: Result<(), SttError>)
        ensures
            old(self).model_status@ is Ready ==> {
                &&& r is Ok
                &&& final(self).is_recording
                &&& final(self).audio_buffer@ == Seq::<u32>::empty()
                &&& same_model(*old(self), *final(self))
            },
            !(old(self).model_status@ is Ready) ==> {
                &&& r == Err::<(), SttError>(SttError::NotReady)
                &&& *final(self) == *old(self)
            },
    {
        match self.model_status {
            ModelStatus::Ready => {
                self.audio_buffer.clear();
                self.is_recording = true;
                Ok(())
            },
            _ => Err(SttError::NotReady),
        }
    }

    /// Append samples to the open session's buffer, in order and
    /// unvalidated; fails with `NotRecording` when no session is open.
    pub fn push_audio(&mut self, samples: Vec<u32>) -> (r: Result<(), SttError>)
        ensures
            old(self).is_recording ==> {
                &&& r is Ok
                &&& final(self).audio_buffer@ == old(self).audio_buffer@ + samples@
                &&& final(self).is_recording
                &&& same_model(*old(self), *final(self))
            },
            !old(self).is_recording ==> {
                &&& r == Err::<(), SttError>(SttError::NotRecording)
                &&& *final(self) == *old(self)
            },
    {
        if !self.is_recording {
            return Err(SttError::NotRecording);
        }
        let mut samples = samples;
        self.audio_buffer.append(&mut samples);
        Ok(())
    }

    /// Close the session and drain the buffer. Always succeeds, also when no
    /// session is open; buffered audio is handed back unconditionally.
    pub fn stop_recording(&mut self) -> (r: Vec<u32>)
        ensures
            stop_transition(*old(self), *final(self), r@),
    {
        self.is_recording = false;
        let mut drained: Vec<u32> = Vec::new();
        core::mem::swap(&mut drained, &mut self.audio_buffer);
        drained
    }

    /// Commit a finished load: store the vocabulary, mark the engines
    /// loaded, and set the status to `Ready`.
    pub fn apply_models(&mut self, vocab: Vocabulary)
        ensures
            final(self).model_status@ is Ready,
            final(self).engines_loaded,
            final(self).vocab == vocab,
            final(self).audio_buffer == old(self).audio_buffer,
            final(self).is_recording == old(self).is_recording,
    {
        self.vocab = vocab;
        self.engines_loaded = true;
        self.model_status = ModelStatus::Ready;
    }

    /// Record a download or load failure; the status stays `Error` until a
    /// new download attempt.
    pub fn mark_error(&mut self, message: String)
        ensures
            final(self).model_status@ == (StatusView::Error { message: message@ }),
            same_but_status(*old(self), *final(self)),
    {
        self.model_status = ModelStatus::Error { message };
    }

    /// Gate a download request: already `Ready` with engines loaded means
    /// nothing to do (idempotent success); otherwise the status moves to
    /// `Downloading` at zero files done and the download should proceed.
    pub fn begin_download(&mut self) -> (proceed: bool)
        ensures
            old(self).model_status@ is Ready && old(self).engines_loaded ==> {
                &&& !proceed
                &&& *final(self) == *old(self)
            },
            !(old(self).model_status@ is Ready && old(self).engines_loaded) ==> {
                &&& proceed
                &&& final(self).model_status@ == (StatusView::Downloading {
                    files_done: 0,
                    files_total: MODEL_FILE_COUNT as int,
                })
                &&& same_but_status(*old(self), *final(self))
            },
    {
        let ready = match self.model_status {
            ModelStatus::Ready => true,
            _ => false,
        };
        if ready && self.engines_loaded {
            return false;
        }
        self.model_status = ModelStatus::Downloading {
            files_done: 0,
            files_total: MODEL_FILE_COUNT,
        };
        true
    }

    /// Note that `files_done` manifest files are finished: the progress the
    /// caller should report is `files_done / files_total`, a fraction of
    /// completed files, never past the total.
    pub fn set_download_progress(&mut self, files_done: usize)
        requires
            files_done <= MODEL_FILE_COUNT,
        ensures
            final(self).model_status@ == (StatusView::Downloading {
                files_done: files_done as int,
                files_total: MODEL_FILE_COUNT as int,
            }),
            same_but_status(*old(self), *final(self)),
    {
        self.model_status = ModelStatus::Downloading {
            files_done,
            files_total: MODEL_FILE_COUNT,
        };
    }

    /// Snapshot what a transcription needs. Fails with `NotReady` until the
    /// engines are loaded.
    pub fn inference(&self) -> (r: Result<SttInference, SttError>)
        requires
            self.wf(),
        ensures
            self.engines_loaded ==> {
                &&& r matches Ok(inf)
                &&& inf.wf()
                &&& inf.vocab.map_view() == self.vocab.map_view()
                &&& inf.vocab.blank_id == self.vocab.blank_id
                &&& inf.blank_idx == self.vocab.blank_id
                &&& inf.vocab_size == self.vocab.entries@.len()
            },
            !self.engines_loaded ==> r == Err::<SttInference, SttError>(SttError::NotReady),
    {
        if !self.engines_loaded {
            return Err(SttError::NotReady);
        }
        let vocab = self.vocab.snapshot();
        let vocab_size = vocab.vocab_size();
        let blank_idx = vocab.blank_id;
        Ok(SttInference { vocab, vocab_size, blank_idx })
    }
}

/// Stopping twice in a row: the first stop leaves the buffer empty, so the
/// second, immediately after, returns the empty sequence.
pub proof fn lemma_stop_recording_twice(
    s0: SttState,
    s1: SttState,
    r1: Seq<u32>,
    s2: SttState,
    r2: Seq<u32>,
)
    requires
        stop_transition(s0, s1, r1),
        stop_transition(s1, s2, r2),
    ensures
        r2 == Seq::<u32>::empty(),
{
}

} // verus!
