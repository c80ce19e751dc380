//! Error taxonomy for the transcription engine.

use vstd::prelude::*;

verus! {

/// Why a vocabulary table failed to parse.
#[derive(Clone, Copy, PartialEq, Eq, Structural, Debug)]
pub enum ParseError {
    /// A non-empty line did not have at least two space-separated columns.
    MalformedLine,
    /// The second column of a row was not a decimal integer id.
    InvalidId,
}

/// Every failure the engine's control surface and decode path can report.
#[derive(Debug)]
pub enum SttError {
    /// The model is not `Ready`, so a recording cannot start.
    NotReady,
    /// Audio was pushed while no recording session was open.
    NotRecording,
    /// Fetching a model artifact failed; the partial directory is kept for retry.
    Download { message: String },
    /// Building the model failed: a missing file, a malformed vocabulary
    /// table, or an engine that would not initialise.
    Load { message: String },
    /// An inference engine call failed; it is propagated, never retried.
    Inference { message: String },
    /// A decoder-joint call returned recurrent state of the wrong size;
    /// fatal to the one transcription, the engines stay loaded.
    StateSize,
    /// A shared-state lock could not be taken.
    Lock,
}

impl SttError {
    /// The description each failure carries to the caller.
    pub open spec fn text(&self) -> Seq<char> {
        match self {
            SttError::NotReady => "Model not ready. Please download the model first."@,
            SttError::NotRecording => "Not recording"@,
            SttError::Download { message } => message@,
            SttError::Load { message } => message@,
            SttError::Inference { message } => message@,
            SttError::StateSize => "State size mismatch"@,
            SttError::Lock => "Lock error"@,
        }
    }

    /// The failure's description, for the caller.
    pub fn message(&self) -> (r: String)
        ensures
            r@ == self.text(),
    {
        match self {
            SttError::NotReady => "Model not ready. Please download the model first.".to_owned(),
            SttError::NotRecording => "Not recording".to_owned(),
            SttError::Download { message } => message.clone(),
            SttError::Load { message } => message.clone(),
            SttError::Inference { message } => message.clone(),
            SttError::StateSize => "State size mismatch".to_owned(),
            SttError::Lock => "Lock error".to_owned(),
        }
    }
}

} // verus!
