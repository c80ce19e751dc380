//! Offline streaming speech-to-text core.
//!
//! The crate verifies the correctness-critical pieces of an on-device
//! transcription engine: the recording-session state machine, the model
//! lifecycle (download progress, readiness), the vocabulary table, the
//! token-and-duration greedy decode loop, and the detokenizer. Audio
//! capture, file and network transfer, and the tensor runtime live in the
//! surrounding application; the library takes and returns plain values.

pub mod decoder;
pub mod detok;
pub mod errors;
pub mod hostname;
pub mod manifest;
pub mod session;
pub mod status;
pub mod text;
pub mod vocab;

pub use errors::ParseError;
pub use errors::SttError;
