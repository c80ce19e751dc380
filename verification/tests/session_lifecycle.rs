//! Recording-session gating, buffer drain semantics, and the model
//! lifecycle: download progress, readiness, errors.

use stt_core::errors::SttError;
use stt_core::manifest::{are_models_downloaded, manifest_files, MODEL_FILE_COUNT};
use stt_core::session::SttState;
use stt_core::status::ModelStatus;
use stt_core::vocab::Vocabulary;

fn ready_state() -> SttState {
    let mut s = SttState::new();
    s.apply_models(Vocabulary::new());
    s
}

#[test]
fn start_recording_fails_not_ready_when_not_downloaded() {
    let mut s = SttState::new();
    assert!(matches!(s.start_recording(), Err(SttError::NotReady)));
    assert!(!s.get_status().is_recording);
}

#[test]
fn start_recording_fails_not_ready_while_downloading() {
    let mut s = SttState::new();
    assert!(s.begin_download());
    assert!(matches!(s.start_recording(), Err(SttError::NotReady)));
}

#[test]
fn start_recording_fails_not_ready_after_error() {
    let mut s = SttState::new();
    s.mark_error("engine failed to initialise".to_string());
    assert!(matches!(s.start_recording(), Err(SttError::NotReady)));
}

#[test]
fn start_recording_succeeds_when_ready() {
    let mut s = ready_state();
    assert!(s.start_recording().is_ok());
    assert!(s.get_status().is_recording);
}

#[test]
fn push_audio_without_recording_fails_not_recording() {
    let mut s = ready_state();
    let r = s.push_audio(vec![1, 2, 3]);
    assert!(matches!(r, Err(SttError::NotRecording)));
}

#[test]
fn push_audio_appends_in_order() {
    let mut s = ready_state();
    s.start_recording().unwrap();
    s.push_audio(vec![1, 2]).unwrap();
    s.push_audio(vec![3]).unwrap();
    assert_eq!(s.stop_recording(), vec![1, 2, 3]);
}

#[test]
fn stop_recording_without_start_returns_empty_and_succeeds() {
    let mut s = ready_state();
    assert_eq!(s.stop_recording(), Vec::<u32>::new());
    assert!(!s.get_status().is_recording);
}

#[test]
fn stop_recording_drains_and_second_stop_is_empty() {
    let mut s = ready_state();
    s.start_recording().unwrap();
    s.push_audio(vec![7, 8, 9]).unwrap();
    assert_eq!(s.stop_recording(), vec![7, 8, 9]);
    assert_eq!(s.stop_recording(), Vec::<u32>::new());
}

#[test]
fn start_recording_clears_stale_buffer() {
    let mut s = ready_state();
    s.start_recording().unwrap();
    s.push_audio(vec![5]).unwrap();
    // A new session must not see the old samples.
    s.start_recording().unwrap();
    assert_eq!(s.stop_recording(), Vec::<u32>::new());
}

#[test]
fn download_emits_file_granular_progress_and_ends_ready() {
    // A download over the six-file manifest reports 0, 1/6 .. 5/6 before the
    // files and 1 at completion, then the state is Ready.
    let mut s = SttState::new();
    assert!(s.begin_download());
    let mut emitted: Vec<f32> = Vec::new();
    for k in 0..MODEL_FILE_COUNT {
        s.set_download_progress(k);
        match s.get_status().model_status {
            ModelStatus::Downloading { files_done, files_total } => {
                assert_eq!(files_done, k);
                assert_eq!(files_total, MODEL_FILE_COUNT);
                emitted.push(files_done as f32 / files_total as f32);
            }
            _ => panic!("status must be Downloading during the download"),
        }
        // ... the application downloads manifest file `k` here ...
    }
    emitted.push(1.0);
    let mut expected: Vec<f32> = (0..6u32).map(|k| k as f32 / 6.0).collect();
    expected.push(1.0);
    assert_eq!(emitted, expected);
    s.apply_models(Vocabulary::new());
    assert!(matches!(s.get_status().model_status, ModelStatus::Ready));
}

#[test]
fn begin_download_is_idempotent_once_ready() {
    let mut s = ready_state();
    assert!(!s.begin_download());
    assert!(matches!(s.get_status().model_status, ModelStatus::Ready));
}

#[test]
fn download_failure_marks_error_and_allows_retry() {
    let mut s = SttState::new();
    assert!(s.begin_download());
    s.mark_error("connection reset".to_string());
    match s.get_status().model_status {
        ModelStatus::Error { message } => assert_eq!(message, "connection reset"),
        _ => panic!("status must be Error after a failed download"),
    }
    // A new attempt proceeds from the error state.
    assert!(s.begin_download());
}

#[test]
fn inference_snapshot_needs_loaded_engines() {
    let s = SttState::new();
    assert!(matches!(s.inference(), Err(SttError::NotReady)));
    let table = "<blk> 0\na 1\n".as_bytes().to_vec();
    let vocab = Vocabulary::parse(&table).unwrap();
    let mut s = SttState::new();
    s.apply_models(vocab);
    let inf = s.inference().expect("loaded engines give a snapshot");
    assert_eq!(inf.vocab_size, 2);
    assert_eq!(inf.blank_idx, 0);
}

#[test]
fn error_messages_are_descriptive() {
    let mut s = SttState::new();
    let e = s.start_recording().unwrap_err();
    assert_eq!(e.message(), "Model not ready. Please download the model first.");
    let e = s.push_audio(vec![1]).unwrap_err();
    assert_eq!(e.message(), "Not recording");
}

#[test]
fn manifest_has_the_six_artifacts() {
    let files = manifest_files();
    assert_eq!(files.len(), MODEL_FILE_COUNT);
    assert_eq!(
        files,
        vec![
            "nemo128.onnx",
            "encoder-model.onnx",
            "encoder-model.onnx.data",
            "decoder_joint-model.onnx",
            "vocab.txt",
            "config.json",
        ]
    );
}

#[test]
fn all_files_present_is_the_downloaded_signal() {
    assert!(are_models_downloaded(&vec![true; 6]));
    assert!(are_models_downloaded(&Vec::new()));
    let mut one_missing = vec![true; 6];
    one_missing[2] = false;
    assert!(!are_models_downloaded(&one_missing));
}
