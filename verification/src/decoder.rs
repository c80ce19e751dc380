//! Frame-synchronous greedy token-and-duration (TDT) decoding.
//!
//! Each decode step looks at one encoder frame and one decoder-joint output
//! and chooses both the most likely token and how many frames to advance.
//! Logit scores arrive as order keys: signed integers whose `<` order is the
//! order of the scores they stand for, so an arg-max over them is an arg-max
//! over the scores.

use vstd::prelude::*;

use crate::detok::detok_spec;
use crate::detok::detokenize;
use crate::errors::SttError;
use crate::vocab::Vocabulary;

verus! {

/// How many tokens may be emitted at one frame before the decoder is forced
/// to advance anyway.
pub const MAX_TOKENS_PER_STEP: usize = 10;

/// Number of recurrent layers in the decoder's memory tensors.
pub const LSTM_LAYERS: usize = 2;

/// Hidden width of each recurrent layer.
pub const LSTM_HIDDEN: usize = 640;

/// Elements in one recurrent-state tensor (layers x batch x hidden, batch 1).
pub const STATE_ELEMS: usize = LSTM_LAYERS * LSTM_HIDDEN;

/// Index of the maximum of `s`, ties broken to the lowest index under an
/// ascending scan.
pub open spec fn arg_max(s: Seq<i64>) -> int
    recommends
        s.len() > 0,
    decreases s.len(),
{
    if s.len() <= 1 {
        0
    } else {
        let prev = arg_max(s.drop_last());
        if s.last() > s[prev] {
            s.len() - 1
        } else {
            prev
        }
    }
}

/// `arg_max` is in range, attains the maximum, and is the lowest index to do so.
pub proof fn lemma_arg_max(s: Seq<i64>)
    requires
        s.len() > 0,
    ensures
        0 <= arg_max(s) < s.len(),
        forall|j: int| 0 <= j < s.len() ==> #[trigger] s[j] <= s[arg_max(s)],
        forall|j: int| 0 <= j < arg_max(s) ==> #[trigger] s[j] < s[arg_max(s)],
    decreases s.len(),
{
    if s.len() > 1 {
        lemma_arg_max(s.drop_last());
        assert(forall|j: int| 0 <= j < s.len() - 1 ==> s[j] == s.drop_last()[j]);
    }
}

/// The token chosen from a joint output: the arg-max over the first
/// `vocab_size` entries, or the blank id when that segment is empty.
pub open spec fn best_token(logits: Seq<i64>, vocab_size: int, blank_id: i64) -> i64
    recommends
        vocab_size <= logits.len(),
{
    if vocab_size <= 0 {
        blank_id
    } else {
        arg_max(logits.take(vocab_size)) as i64
    }
}

/// The frame advance chosen from a joint output: the arg-max over the
/// entries after the token segment, or 0 when that segment is empty.
pub open spec fn best_duration(logits: Seq<i64>, vocab_size: int) -> int
    recommends
        0 <= vocab_size <= logits.len(),
{
    if logits.len() <= vocab_size {
        0
    } else {
        arg_max(logits.skip(vocab_size))
    }
}

/// One decoder-joint result, reduced to plain values: the joint logits as
/// order keys and the returned recurrent state (element bit patterns).
pub struct JointOutput {
    /// `vocab_size` token scores followed by the duration scores.
    pub logits: Vec<i64>,
    /// First returned recurrent-state tensor, flattened.
    pub state_a: Vec<u32>,
    /// Second returned recurrent-state tensor, flattened.
    pub state_b: Vec<u32>,
}

/// Mathematical image of a `JointOutput`.
pub struct JointOutputView {
    /// Token scores followed by duration scores.
    pub logits: Seq<i64>,
    /// First returned recurrent-state tensor.
    pub state_a: Seq<u32>,
    /// Second returned recurrent-state tensor.
    pub state_b: Seq<u32>,
}

impl View for JointOutput {
    type V = JointOutputView;

    open spec fn view(&self) -> JointOutputView {
        JointOutputView { logits: self.logits@, state_a: self.state_a@, state_b: self.state_b@ }
    }
}

/// The decode loop's whole state between steps.
pub struct DecodeState {
    /// Frame pointer into the encoder output.
    pub t: usize,
    /// Tokens emitted so far, in order.
    pub tokens: Vec<i64>,
    /// Tokens emitted at the current frame since `t` last advanced.
    pub same_step_emissions: usize,
    /// First recurrent-memory tensor, flattened.
    pub state_a: Vec<u32>,
    /// Second recurrent-memory tensor, flattened.
    pub state_b: Vec<u32>,
}

/// Mathematical image of a `DecodeState`.
pub struct DecodeStateView {
    /// Frame pointer.
    pub t: int,
    /// Emitted tokens.
    pub tokens: Seq<i64>,
    /// Emissions at the current frame.
    pub same_step_emissions: int,
    /// First recurrent-memory tensor.
    pub state_a: Seq<u32>,
    /// Second recurrent-memory tensor.
    pub state_b: Seq<u32>,
}

impl View for DecodeState {
    type V = DecodeStateView;

    open spec fn view(&self) -> DecodeStateView {
        DecodeStateView {
            t: self.t as int,
            tokens: self.tokens@,
            same_step_emissions: self.same_step_emissions as int,
            state_a: self.state_a@,
            state_b: self.state_b@,
        }
    }
}

/// The two decode parameters every step needs: where the duration segment
/// starts and which id means "no emission".
#[derive(Clone, Copy)]
pub struct DecodeConfig {
    /// Number of token logits at the front of each joint output.
    pub vocab_size: usize,
    /// The blank token's id.
    pub blank_id: i64,
}

/// The state the decoder starts each transcription from: frame 0, nothing
/// emitted, both memory tensors all zero.
pub open spec fn init_state() -> DecodeStateView {
    DecodeStateView {
        t: 0,
        tokens: Seq::empty(),
        same_step_emissions: 0,
        state_a: Seq::new(STATE_ELEMS as nat, |i| 0u32),
        state_b: Seq::new(STATE_ELEMS as nat, |i| 0u32),
    }
}

/// Whether a step on `out` goes through: a blank step always does, and an
/// emitting step does exactly when the returned state tensors have the same
/// size as the ones they replace.
pub open spec fn step_accepts(pre: DecodeStateView, out: JointOutputView, cfg: DecodeConfig) -> bool {
    best_token(out.logits, cfg.vocab_size as int, cfg.blank_id) == cfg.blank_id
        || (out.state_a.len() == pre.state_a.len() && out.state_b.len() == pre.state_b.len())
}

/// The state after one accepted decode step.
///
/// A non-blank token is appended and overwrites the recurrent state and
/// bumps the same-frame emission count; then, exclusively and in priority
/// order: a positive duration advances `t` by that amount; otherwise a blank
/// token or a full emission count advances `t` by one; otherwise `t` stays
/// for another emission at the same frame. Whenever `t` moves the emission
/// count resets.
pub open spec fn step_model(
    pre: DecodeStateView,
    out: JointOutputView,
    cfg: DecodeConfig,
) -> DecodeStateView
    recommends
        step_accepts(pre, out, cfg),
{
    let tok = best_token(out.logits, cfg.vocab_size as int, cfg.blank_id);
    let dur = best_duration(out.logits, cfg.vocab_size as int);
    let emitted = tok != cfg.blank_id;
    let tokens = if emitted { pre.tokens.push(tok) } else { pre.tokens };
    let sa = if emitted { out.state_a } else { pre.state_a };
    let sb = if emitted { out.state_b } else { pre.state_b };
    let cnt = if emitted { pre.same_step_emissions + 1 } else { pre.same_step_emissions };
    if dur > 0 {
        DecodeStateView { t: pre.t + dur, tokens, same_step_emissions: 0, state_a: sa, state_b: sb }
    } else if !emitted || cnt >= MAX_TOKENS_PER_STEP {
        DecodeStateView { t: pre.t + 1, tokens, same_step_emissions: 0, state_a: sa, state_b: sb }
    } else {
        DecodeStateView { t: pre.t, tokens, same_step_emissions: cnt, state_a: sa, state_b: sb }
    }
}

/// What a decode loop over a sequence of joint outputs comes to.
pub enum RunOutcome {
    /// The frame pointer reached the end; `steps` outputs were consumed.
    Finished {
        /// The decode state at loop end.
        state: DecodeStateView,
        /// How many joint outputs were consumed.
        steps: int,
    },
    /// A returned recurrent state had the wrong size at step `steps`.
    BadState {
        /// The decode state just before the failing step.
        state: DecodeStateView,
        /// Index of the failing output.
        steps: int,
    },
    /// The outputs ran out before the frame pointer reached the end.
    Exhausted {
        /// The decode state after consuming every output.
        state: DecodeStateView,
    },
}

/// The same outcome with `k` earlier steps counted in.
pub open spec fn outcome_shift(o: RunOutcome, k: int) -> RunOutcome {
    match o {
        RunOutcome::Finished { state, steps } => RunOutcome::Finished { state, steps: steps + k },
        RunOutcome::BadState { state, steps } => RunOutcome::BadState { state, steps: steps + k },
        RunOutcome::Exhausted { state } => RunOutcome::Exhausted { state },
    }
}

/// The decode loop over a fixed sequence of joint outputs: step on the next
/// output while the frame pointer is below `limit`.
pub open spec fn run_model(
    pre: DecodeStateView,
    outs: Seq<JointOutputView>,
    cfg: DecodeConfig,
    limit: int,
) -> RunOutcome
    decreases outs.len(),
{
    if pre.t >= limit {
        RunOutcome::Finished { state: pre, steps: 0 }
    } else if outs.len() == 0 {
        RunOutcome::Exhausted { state: pre }
    } else if !step_accepts(pre, outs[0], cfg) {
        RunOutcome::BadState { state: pre, steps: 0 }
    } else {
        outcome_shift(run_model(step_model(pre, outs[0], cfg), outs.drop_first(), cfg, limit), 1)
    }
}

/// The decode state an outcome ends in.
pub open spec fn outcome_state(o: RunOutcome) -> DecodeStateView {
    match o {
        RunOutcome::Finished { state, steps } => state,
        RunOutcome::BadState { state, steps } => state,
        RunOutcome::Exhausted { state } => state,
    }
}

/// The views of a sequence of joint outputs.
pub open spec fn joint_views(outs: Seq<JointOutput>) -> Seq<JointOutputView> {
    outs.map_values(|o: JointOutput| o@)
}

impl DecodeState {
    /// Fresh decode state for one transcription.
    pub fn new() -> (r: DecodeState)
        ensures
            r@ == init_state(),
    {
        let r = DecodeState {
            t: 0,
            tokens: Vec::new(),
            same_step_emissions: 0,
            state_a: zero_state(),
            state_b: zero_state(),
        };
        assert(r@.tokens =~= init_state().tokens);
        assert(r@ =~= init_state());
        r
    }

    /// The label for the next decoder-joint call: the blank id until a first
    /// token has been emitted, afterwards the last emitted token.
    pub fn next_label(&self, cfg: &DecodeConfig) -> (r: i64)
        ensures
            r == if self.tokens@.len() == 0 {
                cfg.blank_id
            } else {
                self.tokens@.last()
            },
    {
        if self.tokens.len() == 0 {
            cfg.blank_id
        } else {
            self.tokens[self.tokens.len() - 1]
        }
    }

    /// One decode step on one decoder-joint output.
    pub fn step(&mut self, out: &JointOutput, cfg: &DecodeConfig) -> (r: Result<(), SttError>)
        requires
            cfg.vocab_size <= out.logits@.len(),
            cfg.vocab_size <= i64::MAX,
            old(self).t + out.logits@.len() < usize::MAX,
            old(self).same_step_emissions < usize::MAX,
        ensures
            r is Ok <==> step_accepts(old(self)@, out@, *cfg),
            r is Ok ==> final(self)@ == step_model(old(self)@, out@, *cfg),
            r is Err ==> r == Err::<(), SttError>(SttError::StateSize) && *final(self) == *old(self),
    {
        let token: i64 = if cfg.vocab_size == 0 {
            cfg.blank_id
        } else {
            let k = arg_max_range(&out.logits, 0, cfg.vocab_size);
            proof {
                lemma_arg_max(out.logits@.take(cfg.vocab_size as int));
                assert(out.logits@.subrange(0, cfg.vocab_size as int)
                    =~= out.logits@.take(cfg.vocab_size as int));
            }
            k as i64
        };
        assert(token == best_token(out.logits@, cfg.vocab_size as int, cfg.blank_id));
        let dur: usize = if out.logits.len() <= cfg.vocab_size {
            0
        } else {
            let k = arg_max_range(&out.logits, cfg.vocab_size, out.logits.len());
            proof {
                lemma_arg_max(out.logits@.skip(cfg.vocab_size as int));
                assert(out.logits@.subrange(cfg.vocab_size as int, out.logits@.len() as int)
                    =~= out.logits@.skip(cfg.vocab_size as int));
            }
            k - cfg.vocab_size
        };
        assert(dur == best_duration(out.logits@, cfg.vocab_size as int));

        let emitted = token != cfg.blank_id;
        if emitted {
            if out.state_a.len() != self.state_a.len() || out.state_b.len() != self.state_b.len() {
                return Err(SttError::StateSize);
            }
            self.state_a = copy_words(&out.state_a);
            self.state_b = copy_words(&out.state_b);
            self.tokens.push(token);
            self.same_step_emissions = self.same_step_emissions + 1;
        }

        if dur > 0 {
            self.t = self.t + dur;
            self.same_step_emissions = 0;
        } else if !emitted || self.same_step_emissions >= MAX_TOKENS_PER_STEP {
            self.t = self.t + 1;
            self.same_step_emissions = 0;
        }
        Ok(())
    }

    /// The decode loop over a fixed sequence of joint outputs: step on the
    /// next output while the frame pointer is below `limit`. Returns how many
    /// outputs were consumed, or the first step's error.
    #[verifier::loop_isolation(false)]
    pub fn run(&mut self, outputs: &Vec<JointOutput>, cfg: &DecodeConfig, limit: usize) -> (r:
        Result<usize, SttError>)
        requires
            cfg.vocab_size <= i64::MAX,
            forall|i: int|
                0 <= i < outputs@.len() ==> cfg.vocab_size <= #[trigger] outputs@[i].logits@.len(),
            forall|i: int|
                0 <= i < outputs@.len() ==> limit + #[trigger] outputs@[i].logits@.len()
                    <= usize::MAX,
            old(self).same_step_emissions < usize::MAX,
        ensures
            match run_model(old(self)@, joint_views(outputs@), *cfg, limit as int) {
                RunOutcome::Finished { state, steps } => r == Ok::<usize, SttError>(steps as usize)
                    && final(self)@ == state,
                RunOutcome::BadState { state, steps } => r == Err::<usize, SttError>(
                    SttError::StateSize,
                ) && final(self)@ == state,
                RunOutcome::Exhausted { state } => (r matches Err(e) && e is Inference)
                    && final(self)@ == state,
            },
    {
        let ghost views = joint_views(outputs@);
        let ghost whole = run_model(old(self)@, views, *cfg, limit as int);
        let mut i: usize = 0;
        proof {
            assert(views.skip(0) =~= views);
            assert(outcome_shift(whole, 0) == whole);
        }
        while self.t < limit && i < outputs.len()
            invariant
                i <= outputs@.len(),
                self.same_step_emissions < usize::MAX,
                whole == outcome_shift(
                    run_model(self@, views.skip(i as int), *cfg, limit as int),
                    i as int,
                ),
            decreases outputs@.len() - i,
        {
            let ghost pre = self@;
            let ghost rest = views.skip(i as int);
            proof {
                assert(rest[0] == views[i as int]);
                assert(rest.drop_first() =~= views.skip(i as int + 1));
            }
            let step_r = self.step(&outputs[i], cfg);
            if step_r.is_err() {
                proof {
                    assert(run_model(pre, rest, *cfg, limit as int) == RunOutcome::BadState {
                        state: pre,
                        steps: 0,
                    });
                }
                return Err(SttError::StateSize);
            }
            i = i + 1;
            proof {
                let inner = run_model(self@, views.skip(i as int), *cfg, limit as int);
                assert(run_model(pre, rest, *cfg, limit as int) == outcome_shift(inner, 1));
                lemma_outcome_shift_shift(inner, 1, i - 1);
            }
        }
        if self.t >= limit {
            proof {
                assert(run_model(self@, views.skip(i as int), *cfg, limit as int)
                    == RunOutcome::Finished { state: self@, steps: 0 });
            }
            Ok(i)
        } else {
            proof {
                assert(views.skip(i as int) =~= Seq::<JointOutputView>::empty());
                assert(run_model(self@, views.skip(i as int), *cfg, limit as int)
                    == RunOutcome::Exhausted { state: self@ });
            }
            Err(
                SttError::Inference {
                    message: "decoder-joint outputs ended before the frame pointer did".to_owned(),
                },
            )
        }
    }
}

/// A run consumes between none and all of its outputs.
pub proof fn lemma_run_steps_range(
    pre: DecodeStateView,
    outs: Seq<JointOutputView>,
    cfg: DecodeConfig,
    limit: int,
)
    ensures
        match run_model(pre, outs, cfg, limit) {
            RunOutcome::Finished { state, steps } => 0 <= steps <= outs.len(),
            RunOutcome::BadState { state, steps } => 0 <= steps < outs.len(),
            RunOutcome::Exhausted { state } => true,
        },
    decreases outs.len(),
{
    if pre.t < limit && outs.len() > 0 && step_accepts(pre, outs[0], cfg) {
        lemma_run_steps_range(step_model(pre, outs[0], cfg), outs.drop_first(), cfg, limit);
    }
}

/// Shifting an outcome twice is shifting it once by the sum.
proof fn lemma_outcome_shift_shift(o: RunOutcome, a: int, b: int)
    ensures
        outcome_shift(outcome_shift(o, a), b) == outcome_shift(o, a + b),
{
}

/// The number of encoder frames the decode loop walks: the encoder's
/// reported length, capped by the frames actually present.
pub open spec fn frame_limit(encoded_len: int, num_frames: int) -> int {
    if encoded_len <= num_frames {
        encoded_len
    } else {
        num_frames
    }
}

/// Everything one transcription needs besides the engines themselves: the
/// vocabulary and the decode parameters, snapshotted from the session.
pub struct SttInference {
    /// The vocabulary table, shared read-only with the decode loop.
    pub vocab: Vocabulary,
    /// Number of token logits at the front of each joint output.
    pub vocab_size: usize,
    /// The blank token's id.
    pub blank_idx: i64,
}

/// What one transcription produced.
pub struct DecodeRun {
    /// The rendered transcript, UTF-8 bytes.
    pub text: Vec<u8>,
    /// The decode state at loop end: emitted tokens, final frame pointer.
    pub state: DecodeState,
    /// How many decoder-joint outputs were consumed.
    pub steps: usize,
}

impl SttInference {
    /// The decode parameters this snapshot carries.
    pub open spec fn cfg(&self) -> DecodeConfig {
        DecodeConfig { vocab_size: self.vocab_size, blank_id: self.blank_idx }
    }

    /// A snapshot is well formed when its vocabulary is.
    pub open spec fn wf(&self) -> bool {
        self.vocab.wf()
    }

    /// The decode parameters, as a value.
    pub fn config(&self) -> (r: DecodeConfig)
        ensures
            r == self.cfg(),
    {
        DecodeConfig { vocab_size: self.vocab_size, blank_id: self.blank_idx }
    }

    /// One whole transcription over a fixed sequence of joint outputs.
    ///
    /// Empty audio short-circuits to an empty transcript with no output
    /// consumed. Otherwise the decode loop runs from the initial state up to
    /// the frame limit and the emitted tokens are rendered through the
    /// vocabulary.
    pub fn transcribe_with_outputs(
        &self,
        audio_len: usize,
        encoded_len: usize,
        num_frames: usize,
        outputs: &Vec<JointOutput>,
    ) -> (r: Result<DecodeRun, SttError>)
        requires
            self.wf(),
            self.vocab_size <= i64::MAX,
            forall|i: int|
                0 <= i < outputs@.len() ==> self.vocab_size <= #[trigger] outputs@[i].logits@.len(),
            forall|i: int|
                0 <= i < outputs@.len() ==> frame_limit(encoded_len as int, num_frames as int)
                    + #[trigger] outputs@[i].logits@.len() <= usize::MAX,
        ensures
            audio_len == 0 ==> (r matches Ok(run) && run.text@ == Seq::<u8>::empty() && run.steps
                == 0 && run.state@ == init_state()),
            audio_len > 0 ==> match run_model(
                init_state(),
                joint_views(outputs@),
                self.cfg(),
                frame_limit(encoded_len as int, num_frames as int),
            ) {
                RunOutcome::Finished { state, steps } => r matches Ok(run) && run.state@ == state
                    && run.steps == steps && run.text@ == detok_spec(
                    self.vocab.map_view(),
                    state.tokens,
                ),
                RunOutcome::BadState { state, steps } => r == Err::<DecodeRun, SttError>(
                    SttError::StateSize,
                ),
                RunOutcome::Exhausted { state } => r matches Err(e) && e is Inference,
            },
    {
        if audio_len == 0 {
            return Ok(DecodeRun { text: Vec::new(), state: DecodeState::new(), steps: 0 });
        }
        let limit = if encoded_len < num_frames {
            encoded_len
        } else {
            num_frames
        };
        assert(limit as int == frame_limit(encoded_len as int, num_frames as int));
        let out_count = outputs.len();
        assert(joint_views(outputs@).len() == out_count);
        let mut state = DecodeState::new();
        proof {
            lemma_run_steps_range(
                init_state(),
                joint_views(outputs@),
                self.cfg(),
                frame_limit(encoded_len as int, num_frames as int),
            );
        }
        let steps = match state.run(outputs, &self.config(), limit) {
            Ok(n) => n,
            Err(e) => {
                return Err(e);
            },
        };
        let text = detokenize(&self.vocab, &state.tokens);
        Ok(DecodeRun { text, state, steps })
    }
}

/// Decoding is deterministic: one sequence of joint outputs gives one
/// outcome — the same token sequence and the same frame trajectory on every
/// run from the same starting state.
pub proof fn lemma_decode_deterministic(
    pre: DecodeStateView,
    outs1: Seq<JointOutputView>,
    outs2: Seq<JointOutputView>,
    cfg: DecodeConfig,
    limit: int,
)
    requires
        outs1 == outs2,
    ensures
        run_model(pre, outs1, cfg, limit) == run_model(pre, outs2, cfg, limit),
{
}

/// The token sequence is append-only: whatever a run does, the tokens it
/// started with stay in place as an unchanged prefix.
pub proof fn lemma_tokens_append_only(
    pre: DecodeStateView,
    outs: Seq<JointOutputView>,
    cfg: DecodeConfig,
    limit: int,
)
    ensures
        outcome_state(run_model(pre, outs, cfg, limit)).tokens.len() >= pre.tokens.len(),
        outcome_state(run_model(pre, outs, cfg, limit)).tokens.take(pre.tokens.len() as int)
            == pre.tokens,
    decreases outs.len(),
{
    let fin = outcome_state(run_model(pre, outs, cfg, limit));
    if pre.t < limit && outs.len() > 0 && step_accepts(pre, outs[0], cfg) {
        let post = step_model(pre, outs[0], cfg);
        assert(post.tokens.take(pre.tokens.len() as int) =~= pre.tokens);
        lemma_tokens_append_only(post, outs.drop_first(), cfg, limit);
        assert(fin == outcome_state(run_model(post, outs.drop_first(), cfg, limit)));
        assert(fin.tokens.take(pre.tokens.len() as int) =~= fin.tokens.take(
            post.tokens.len() as int,
        ).take(pre.tokens.len() as int));
    } else {
        assert(fin.tokens.take(pre.tokens.len() as int) =~= pre.tokens);
    }
}

/// Duration dominance: whatever token a step picks, a positive duration
/// arg-max advances the frame pointer by exactly that amount and resets the
/// same-frame emission count.
pub proof fn lemma_duration_dominates(
    pre: DecodeStateView,
    out: JointOutputView,
    cfg: DecodeConfig,
)
    requires
        best_duration(out.logits, cfg.vocab_size as int) > 0,
    ensures
        step_model(pre, out, cfg).t == pre.t + best_duration(out.logits, cfg.vocab_size as int),
        step_model(pre, out, cfg).same_step_emissions == 0,
{
}

/// A joint output that emits at the current frame: a non-blank token, a zero
/// duration arg-max, and returned state tensors of the expected sizes.
pub open spec fn emits_in_place(
    out: JointOutputView,
    cfg: DecodeConfig,
    a_len: nat,
    b_len: nat,
) -> bool {
    &&& best_token(out.logits, cfg.vocab_size as int, cfg.blank_id) != cfg.blank_id
    &&& best_duration(out.logits, cfg.vocab_size as int) == 0
    &&& out.state_a.len() == a_len
    &&& out.state_b.len() == b_len
}

/// Same-step cap: from a fresh frame, joint outputs that always emit in
/// place hold the frame pointer still until exactly `MAX_TOKENS_PER_STEP`
/// tokens have been emitted there, and only then advance it by one.
pub proof fn lemma_same_step_cap(pre: DecodeStateView, outs: Seq<JointOutputView>, cfg: DecodeConfig)
    requires
        pre.same_step_emissions == 0,
        outs.len() == MAX_TOKENS_PER_STEP,
        forall|i: int|
            0 <= i < outs.len() ==> emits_in_place(
                #[trigger] outs[i],
                cfg,
                pre.state_a.len(),
                pre.state_b.len(),
            ),
    ensures
        run_model(pre, outs, cfg, pre.t + 1) matches RunOutcome::Finished { state, steps }
            && steps == MAX_TOKENS_PER_STEP && state.t == pre.t + 1 && state.same_step_emissions
            == 0 && state.tokens.len() == pre.tokens.len() + MAX_TOKENS_PER_STEP,
{
    lemma_cap_helper(pre, outs, cfg, pre.t + 1);
}

/// Induction for `lemma_same_step_cap`: with `k` emissions already at this
/// frame and `MAX_TOKENS_PER_STEP - k` in-place emitting outputs left, the
/// run consumes them all and then stands one frame further.
proof fn lemma_cap_helper(pre: DecodeStateView, outs: Seq<JointOutputView>, cfg: DecodeConfig, limit: int)
    requires
        pre.same_step_emissions >= 0,
        pre.same_step_emissions + outs.len() == MAX_TOKENS_PER_STEP,
        outs.len() >= 1,
        limit == pre.t + 1,
        forall|i: int|
            0 <= i < outs.len() ==> emits_in_place(
                #[trigger] outs[i],
                cfg,
                pre.state_a.len(),
                pre.state_b.len(),
            ),
    ensures
        run_model(pre, outs, cfg, limit) matches RunOutcome::Finished { state, steps }
            && steps == outs.len() && state.t == pre.t + 1 && state.same_step_emissions == 0
            && state.tokens.len() == pre.tokens.len() + outs.len(),
    decreases outs.len(),
{
    let post = step_model(pre, outs[0], cfg);
    assert(step_accepts(pre, outs[0], cfg));
    if outs.len() == 1 {
        assert(post.t == pre.t + 1);
        assert(run_model(post, outs.drop_first(), cfg, limit) == RunOutcome::Finished {
            state: post,
            steps: 0,
        });
    } else {
        assert(post.t == pre.t);
        assert(post.same_step_emissions == pre.same_step_emissions + 1);
        assert(post.state_a.len() == pre.state_a.len());
        assert(post.state_b.len() == pre.state_b.len());
        assert(forall|i: int|
            0 <= i < outs.drop_first().len() ==> #[trigger] outs.drop_first()[i] == outs[i + 1]);
        lemma_cap_helper(post, outs.drop_first(), cfg, limit);
    }
}

/// A flattened all-zero recurrent-state tensor.
fn zero_state() -> (r: Vec<u32>)
    ensures
        r@ =~= Seq::new(STATE_ELEMS as nat, |i: int| 0u32),
{
    let mut r: Vec<u32> = Vec::new();
    let mut i: usize = 0;
    while i < STATE_ELEMS
        invariant
            i <= STATE_ELEMS,
            r@ =~= Seq::new(i as nat, |j: int| 0u32),
        decreases STATE_ELEMS - i,
    {
        r.push(0);
        i = i + 1;
    }
    r
}

/// A copy of a flattened state tensor.
fn copy_words(src: &Vec<u32>) -> (r: Vec<u32>)
    ensures
        r@ == src@,
{
    let mut r: Vec<u32> = Vec::new();
    let mut i: usize = 0;
    while i < src.len()
        invariant
            i <= src@.len(),
            r@ =~= src@.take(i as int),
        decreases src@.len() - i,
    {
        r.push(src[i]);
        i = i + 1;
    }
    assert(r@ =~= src@);
    r
}

/// Lowest index of the maximum of `v[lo..hi]`, as an index into `v`.
fn arg_max_range(v: &Vec<i64>, lo: usize, hi: usize) -> (r: usize)
    requires
        lo < hi <= v@.len(),
    ensures
        lo <= r < hi,
        r - lo == arg_max(v@.subrange(lo as int, hi as int)),
{
    let mut best: usize = lo;
    let mut i: usize = lo + 1;
    while i < hi
        invariant
            lo < hi <= v@.len(),
            lo <= best < i <= hi,
            best - lo == arg_max(v@.subrange(lo as int, i as int)),
        decreases hi - i,
    {
        proof {
            let cur = v@.subrange(lo as int, i as int);
            let next = v@.subrange(lo as int, i + 1 as int);
            assert(next.drop_last() =~= cur);
            lemma_arg_max(cur);
        }
        if v[i] > v[best] {
            best = i;
        }
        i = i + 1;
    }
    best
}

} // verus!
