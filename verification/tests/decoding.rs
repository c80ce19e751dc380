//! Decode-loop behaviour: arg-max choice, advancement policy, determinism.

use stt_core::decoder::{DecodeConfig, DecodeState, JointOutput, SttInference};
use stt_core::errors::SttError;
use stt_core::vocab::Vocabulary;

const STATE_ELEMS: usize = 1280;

fn state_vec(fill: u32) -> Vec<u32> {
    vec![fill; STATE_ELEMS]
}

fn output(logits: Vec<i64>, fill: u32) -> JointOutput {
    JointOutput { logits, state_a: state_vec(fill), state_b: state_vec(fill) }
}

fn small_vocab() -> Vocabulary {
    // ids 0..3; token 0 is blank.
    let table = "<blk> 0\n\u{2581}hi 1\n\u{2581}yo 2\n".as_bytes().to_vec();
    Vocabulary::parse(&table).expect("table parses")
}

fn inference() -> SttInference {
    let vocab = small_vocab();
    let vocab_size = vocab.vocab_size();
    let blank_idx = vocab.blank_id;
    SttInference { vocab, vocab_size, blank_idx }
}

#[test]
fn empty_audio_is_empty_transcript_with_zero_engine_calls() {
    let inf = inference();
    // Outputs are available, but empty audio must consume none of them.
    let outs = vec![output(vec![9, 1, 1, 5], 1)];
    let run = inf.transcribe_with_outputs(0, 5, 5, &outs).expect("empty audio succeeds");
    assert_eq!(run.text, Vec::<u8>::new());
    assert_eq!(run.steps, 0);
    assert_eq!(run.state.t, 0);
    assert!(run.state.tokens.is_empty());
}

#[test]
fn blank_steps_advance_one_frame_each() {
    // All-zero one-second waveform, pipeline mocked to always return blank:
    // empty transcript, frame pointer up by one every step until loop end.
    let inf = inference();
    let blank_out = || output(vec![9, 1, 1, 0], 1);
    let outs: Vec<JointOutput> = (0..5).map(|_| blank_out()).collect();
    let audio_len = 16000;
    let run = inf.transcribe_with_outputs(audio_len, 5, 7, &outs).expect("decode succeeds");
    assert_eq!(run.text, Vec::<u8>::new());
    assert_eq!(run.steps, 5);
    assert_eq!(run.state.t, 5);
    assert!(run.state.tokens.is_empty());
}

#[test]
fn zero_encoded_length_ends_before_any_engine_call() {
    let inf = inference();
    let outs = vec![output(vec![9, 1, 1, 0], 1)];
    let run = inf.transcribe_with_outputs(16000, 0, 7, &outs).expect("decode succeeds");
    assert_eq!(run.steps, 0);
    assert_eq!(run.text, Vec::<u8>::new());
}

#[test]
fn decode_is_deterministic_across_runs() {
    let inf = inference();
    let outs = vec![
        output(vec![1, 9, 0, 0, 7], 3),
        output(vec![9, 1, 1, 5], 4),
        output(vec![0, 2, 8, 0, 5], 5),
    ];
    let a = inf.transcribe_with_outputs(100, 3, 3, &outs).expect("first run");
    let b = inf.transcribe_with_outputs(100, 3, 3, &outs).expect("second run");
    assert_eq!(a.text, b.text);
    assert_eq!(a.steps, b.steps);
    assert_eq!(a.state.t, b.state.t);
    assert_eq!(a.state.tokens, b.state.tokens);
}

#[test]
fn duration_argmax_advances_frame_pointer_by_that_amount() {
    let cfg = DecodeConfig { vocab_size: 2, blank_id: 0 };
    let mut st = DecodeState::new();
    // Token arg-max 1 (non-blank); duration logits [0, 2, 8] pick index 2.
    let out = output(vec![3, 9, 0, 2, 8], 1);
    st.step(&out, &cfg).expect("step succeeds");
    assert_eq!(st.t, 2);
    assert_eq!(st.tokens, vec![1]);
    assert_eq!(st.same_step_emissions, 0);
}

#[test]
fn duration_advances_even_for_blank_token() {
    let cfg = DecodeConfig { vocab_size: 2, blank_id: 0 };
    let mut st = DecodeState::new();
    // Blank token, duration arg-max 3: the duration still rules.
    let out = output(vec![9, 1, 0, 0, 0, 8], 1);
    st.step(&out, &cfg).expect("step succeeds");
    assert_eq!(st.t, 3);
    assert!(st.tokens.is_empty());
    assert_eq!(st.same_step_emissions, 0);
}

#[test]
fn ties_break_to_the_lowest_index() {
    let cfg = DecodeConfig { vocab_size: 3, blank_id: 0 };
    let mut st = DecodeState::new();
    // Token logits [5, 7, 7]: index 1 wins the tie; no duration logits.
    let out = output(vec![5, 7, 7], 1);
    st.step(&out, &cfg).expect("step succeeds");
    assert_eq!(st.tokens, vec![1]);
}

#[test]
fn same_step_cap_advances_after_ten_emissions() {
    let cfg = DecodeConfig { vocab_size: 2, blank_id: 0 };
    let mut st = DecodeState::new();
    // Non-blank token, empty duration segment: emission stays on the frame.
    for k in 0..9 {
        st.step(&output(vec![1, 5], 1), &cfg).expect("step succeeds");
        assert_eq!(st.t, 0, "frame pointer must hold before the cap");
        assert_eq!(st.same_step_emissions, k + 1);
    }
    st.step(&output(vec![1, 5], 1), &cfg).expect("step succeeds");
    assert_eq!(st.t, 1, "the tenth emission moves the frame pointer");
    assert_eq!(st.same_step_emissions, 0);
    assert_eq!(st.tokens.len(), 10);
}

#[test]
fn emitting_step_with_wrong_state_size_is_fatal() {
    let cfg = DecodeConfig { vocab_size: 2, blank_id: 0 };
    let mut st = DecodeState::new();
    let bad = JointOutput { logits: vec![1, 5], state_a: vec![7; 3], state_b: vec![7; 3] };
    let r = st.step(&bad, &cfg);
    assert!(matches!(r, Err(SttError::StateSize)));
    // The step did nothing.
    assert_eq!(st.t, 0);
    assert!(st.tokens.is_empty());
}

#[test]
fn blank_step_ignores_returned_state() {
    let cfg = DecodeConfig { vocab_size: 2, blank_id: 0 };
    let mut st = DecodeState::new();
    let before = st.state_a.clone();
    // Blank token with nonsense state sizes: accepted, state untouched.
    let out = JointOutput { logits: vec![9, 1], state_a: vec![], state_b: vec![] };
    st.step(&out, &cfg).expect("blank step succeeds");
    assert_eq!(st.state_a, before);
    assert_eq!(st.t, 1);
}

#[test]
fn emission_overwrites_recurrent_state() {
    let cfg = DecodeConfig { vocab_size: 2, blank_id: 0 };
    let mut st = DecodeState::new();
    let out = output(vec![1, 5], 42);
    st.step(&out, &cfg).expect("step succeeds");
    assert_eq!(st.state_a, state_vec(42));
    assert_eq!(st.state_b, state_vec(42));
}

#[test]
fn running_out_of_outputs_is_an_inference_error() {
    let inf = inference();
    let outs = vec![output(vec![9, 1, 1, 0], 1)];
    // limit 3 but only one output to consume.
    let r = inf.transcribe_with_outputs(100, 3, 3, &outs);
    assert!(matches!(r, Err(SttError::Inference { .. })));
}

#[test]
fn transcription_renders_emitted_tokens() {
    let inf = inference();
    // Two emitting steps (tokens 1 then 2), each with duration arg-max 1,
    // then the loop ends at frame 2.
    let outs = vec![output(vec![0, 9, 1, 0, 5], 1), output(vec![0, 1, 9, 0, 5], 2)];
    let run = inf.transcribe_with_outputs(100, 2, 2, &outs).expect("decode succeeds");
    assert_eq!(run.state.tokens, vec![1, 2]);
    assert_eq!(run.text, b"hi yo".to_vec());
}
