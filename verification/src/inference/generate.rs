//! Generating text that continues a prompt.
//!
//! A run is a sequence of steps. Each step is told what has happened since the last one, and says
//! what to do next; encoding, the model, sampling and printing are up to the caller.

use super::configuration::ModelConfig;
use super::generation;
use super::generation::{Report, TokenMetrics, Tokenizer};
use super::qwen3_5;
use super::shape;
use vstd::prelude::*;
use vstd::string::*;

verus! {

/// Why nothing is generated.
#[derive(Debug, Clone, Copy, PartialEq, Eq, Structural)]
pub enum GenerateFault {
    NoPrompt,
    TooLong { prompt_len: usize, seq_len: usize },
    EmptyLogits,
}

impl GenerateFault {
    /// The fault in words.
    pub open spec fn text(self) -> Seq<char> {
        match self {
            GenerateFault::NoPrompt => "Please provide a prompt"@,
            GenerateFault::TooLong { prompt_len, seq_len } => shape::with_numbers(
                "Prompt length ("@,
                prompt_len,
                ") exceeds context window ("@,
                seq_len,
                ")"@,
            ),
            GenerateFault::EmptyLogits => "Prefill returned empty logits"@,
        }
    }

    /// The fault in words.
    pub fn message(&self) -> (text: String)
        ensures
            text@ == self.text(),
    {
        match *self {
            GenerateFault::NoPrompt => "Please provide a prompt".to_owned(),
            GenerateFault::TooLong { prompt_len, seq_len } => shape::join_numbers(
                "Prompt length (",
                prompt_len,
                ") exceeds context window (",
                seq_len,
                ")",
            ),
            GenerateFault::EmptyLogits => "Prefill returned empty logits".to_owned(),
        }
    }
}

/// What has happened.
#[derive(Debug)]
pub enum GenerateEvent {
    /// The prompt was encoded.
    Encoded(Vec<usize>),
    /// The prompt was processed, and a token sampled where there were logits.
    Prefilled(Option<usize>),
    /// A generated token was processed, and the next one sampled.
    Sampled(usize),
}

/// What to do next.
#[derive(Debug)]
pub enum GenerateAction {
    /// Reset the caches, process these tokens, and sample.
    Prefill(Vec<usize>),
    /// Print the token, process it at the position, and sample.
    Emit { token: usize, pos: usize },
    /// End the line; the run is over.
    Finish(Option<Report>),
}

/// What a run waits for.
#[derive(Debug, Clone, Copy, PartialEq, Eq, Structural)]
pub enum GeneratePhase {
    Encoding,
    Prefilling,
    Sampling,
    Over,
}

/// A run.
pub struct GenerateRun {
    pub phase: GeneratePhase,
    /// How many tokens the prompt has.
    pub prompt_len: usize,
    pub pos: usize,
    pub metrics: TokenMetrics,
    /// The tokens that were emitted.
    pub emitted: Ghost<Seq<usize>>,
}

impl GenerateRun {
    /// Every token that was emitted took its own position behind the prompt, within the context
    /// window, and none of them ends generation.
    pub open spec fn wf(self, tokenizer: Tokenizer, config: ModelConfig) -> bool {
        let emitted = self.emitted@;
        &&& forall|k: int|
            0 <= k < emitted.len() ==> !generation::terminates(
                #[trigger] emitted[k],
                tokenizer.bos_token_id,
                tokenizer.eos_token_id,
                config,
            )
        &&& match self.phase {
            GeneratePhase::Encoding => emitted.len() == 0 && self.metrics == TokenMetrics::idle(),
            GeneratePhase::Prefilling => {
                &&& emitted.len() == 0
                &&& self.metrics == TokenMetrics::idle()
                &&& 0 < self.prompt_len <= config.seq_len
            },
            GeneratePhase::Sampling => {
                &&& emitted.len() > 0
                &&& self.metrics.generated_count == emitted.len()
                &&& self.pos == self.prompt_len + emitted.len() - 1
                &&& self.pos < config.seq_len
            },
            GeneratePhase::Over => emitted.len() == 0 || self.prompt_len + emitted.len() <= config.seq_len,
        }
    }

    /// Whether the event is what the run waits for.
    pub open spec fn awaits(self, event: GenerateEvent) -> bool {
        match event {
            GenerateEvent::Encoded(_) => self.phase == GeneratePhase::Encoding,
            GenerateEvent::Prefilled(_) => self.phase == GeneratePhase::Prefilling,
            GenerateEvent::Sampled(_) => self.phase == GeneratePhase::Sampling,
        }
    }

    /// Whether the event is what the run waits for.
    pub fn is_awaited(&self, event: &GenerateEvent) -> (awaited: bool)
        ensures
            awaited == self.awaits(*event),
    {
        match event {
            GenerateEvent::Encoded(_) => self.phase == GeneratePhase::Encoding,
            GenerateEvent::Prefilled(_) => self.phase == GeneratePhase::Prefilling,
            GenerateEvent::Sampled(_) => self.phase == GeneratePhase::Sampling,
        }
    }

    /// The run behind its prompt, with the clock running.
    pub open spec fn behind_prompt(self, now: u64) -> GenerateRun {
        GenerateRun { pos: self.prompt_len, metrics: self.metrics.started(now), ..self }
    }

    /// The run one position further.
    pub open spec fn advanced(self) -> GenerateRun {
        GenerateRun { pos: (self.pos + 1) as usize, ..self }
    }

    /// Whether `self` and the action follow from `before` with `token` sampled: the token is
    /// emitted, unless it ends generation or the context window is full.
    pub open spec fn follows(
        self,
        before: GenerateRun,
        token: usize,
        tokenizer: Tokenizer,
        config: ModelConfig,
        now: u64,
        action: GenerateAction,
    ) -> bool {
        &&& self.prompt_len == before.prompt_len
        &&& self.pos == before.pos
        &&& if before.pos < config.seq_len && !generation::terminates(
            token,
            tokenizer.bos_token_id,
            tokenizer.eos_token_id,
            config,
        ) {
            &&& action == (GenerateAction::Emit { token, pos: before.pos })
            &&& self.phase == GeneratePhase::Sampling
            &&& self.emitted@ == before.emitted@.push(token)
            &&& self.metrics == before.metrics.incremented()
        } else {
            &&& action == GenerateAction::Finish(before.metrics.report(now))
            &&& self.phase == GeneratePhase::Over
            &&& self.emitted@ == before.emitted@
            &&& self.metrics == TokenMetrics::idle()
        }
    }

    /// Whether a step may lead from this run to `after` with the result: a prompt is taken where it
    /// has tokens and fits into the context window, and each sampled token is followed up.
    pub open spec fn steps_to(
        self,
        after: GenerateRun,
        event: GenerateEvent,
        tokenizer: Tokenizer,
        config: ModelConfig,
        now: u64,
        result: Result<GenerateAction, GenerateFault>,
    ) -> bool {
        match event {
            GenerateEvent::Encoded(tokens) => {
                let prompt_len = tokens@.len() as usize;
                if prompt_len == 0 {
                    &&& result == Err::<GenerateAction, GenerateFault>(GenerateFault::NoPrompt)
                    &&& after == self
                } else if prompt_len > config.seq_len {
                    &&& result == Err::<GenerateAction, GenerateFault>(
                        GenerateFault::TooLong { prompt_len, seq_len: config.seq_len },
                    )
                    &&& after == self
                } else {
                    &&& result == Ok::<GenerateAction, GenerateFault>(GenerateAction::Prefill(tokens))
                    &&& after == (GenerateRun { phase: GeneratePhase::Prefilling, prompt_len, ..self })
                }
            },
            GenerateEvent::Prefilled(None) => {
                &&& result == Err::<GenerateAction, GenerateFault>(GenerateFault::EmptyLogits)
                &&& after == (GenerateRun { phase: GeneratePhase::Over, ..self })
            },
            GenerateEvent::Prefilled(Some(token)) => result matches Ok(action) && after.follows(
                self.behind_prompt(now),
                token,
                tokenizer,
                config,
                now,
                action,
            ),
            GenerateEvent::Sampled(token) => result matches Ok(action) && after.follows(
                self.advanced(),
                token,
                tokenizer,
                config,
                now,
                action,
            ),
        }
    }

    /// A run that waits for its prompt.
    pub fn new() -> (run: Self)
        ensures
            run.phase == GeneratePhase::Encoding,
            run.emitted@ == Seq::<usize>::empty(),
            run.metrics == TokenMetrics::idle(),
            forall|tokenizer: Tokenizer, config: ModelConfig| #[trigger] run.wf(tokenizer, config),
    {
        GenerateRun {
            phase: GeneratePhase::Encoding,
            prompt_len: 0,
            pos: 0,
            metrics: TokenMetrics::new(),
            emitted: Ghost(Seq::empty()),
        }
    }

    fn continue_with(&mut self, token: usize, tokenizer: &Tokenizer, config: &ModelConfig, now: u64) -> (action:
        GenerateAction)
        requires
            old(self).metrics.generated_count == old(self).emitted@.len(),
            old(self).pos == old(self).prompt_len + old(self).emitted@.len(),
            old(self).pos <= config.seq_len,
            forall|k: int|
                0 <= k < old(self).emitted@.len() ==> !generation::terminates(
                    #[trigger] old(self).emitted@[k],
                    tokenizer.bos_token_id,
                    tokenizer.eos_token_id,
                    *config,
                ),
        ensures
            final(self).wf(*tokenizer, *config),
            final(self).follows(*old(self), token, *tokenizer, *config, now, action),
    {
        if self.pos < config.seq_len && !generation::is_termination_token(token, tokenizer, config) {
            self.metrics.increment_token();
            self.phase = GeneratePhase::Sampling;
            proof {
                self.emitted@ = self.emitted@.push(token);
            }
            GenerateAction::Emit { token, pos: self.pos }
        } else {
            self.phase = GeneratePhase::Over;
            GenerateAction::Finish(self.metrics.report_and_reset(now))
        }
    }
}

/// One step of a run: what to do after the event. `now` is the time.
pub fn generate(
    run: &mut GenerateRun,
    tokenizer: &Tokenizer,
    config: &ModelConfig,
    event: GenerateEvent,
    now: u64,
) -> (result: Result<GenerateAction, GenerateFault>)
    requires
        old(run).wf(*tokenizer, *config),
        old(run).awaits(event),
    ensures
        final(run).wf(*tokenizer, *config),
        old(run).steps_to(*final(run), event, *tokenizer, *config, now, result),
{
    match event {
        GenerateEvent::Encoded(tokens) => {
            let prompt_len: usize = tokens.len();
            if prompt_len == 0 {
                return Err(GenerateFault::NoPrompt);
            }
            if prompt_len > config.seq_len {
                return Err(GenerateFault::TooLong { prompt_len, seq_len: config.seq_len });
            }
            run.phase = GeneratePhase::Prefilling;
            run.prompt_len = prompt_len;
            Ok(GenerateAction::Prefill(tokens))
        },
        GenerateEvent::Prefilled(sampled) => {
            let token: usize = match sampled {
                Some(token) => token,
                None => {
                    run.phase = GeneratePhase::Over;
                    return Err(GenerateFault::EmptyLogits);
                },
            };
            run.pos = run.prompt_len;
            run.metrics.start_generation(now);
            Ok(run.continue_with(token, tokenizer, config, now))
        },
        GenerateEvent::Sampled(token) => {
            run.pos += 1;
            Ok(run.continue_with(token, tokenizer, config, now))
        },
    }
}

/// A model whose caches hold the prompt and all tokens emitted before takes the emitted token at
/// the position that the run gives.
pub proof fn law_emissions_take_the_next_position(run: GenerateRun, tokenizer: Tokenizer, config: ModelConfig)
    requires
        run.wf(tokenizer, config),
        run.phase == GeneratePhase::Sampling,
    ensures
        ({
            let before = run.emitted@.drop_last();
            qwen3_5::position_fault(config.seq_len, (run.prompt_len + before.len()) as usize, run.pos) is None
        }),
{
}

/// A prompt is taken whole, as it is, exactly where it has tokens and fits into the context window.
/// Else the run stays as it was, and the fault says which of the two failed, with the numbers.
pub proof fn law_prompts_that_fit_are_taken(
    run: GenerateRun,
    after: GenerateRun,
    tokens: Vec<usize>,
    tokenizer: Tokenizer,
    config: ModelConfig,
    now: u64,
    result: Result<GenerateAction, GenerateFault>,
)
    requires
        tokens@.len() <= usize::MAX,
        run.steps_to(after, GenerateEvent::Encoded(tokens), tokenizer, config, now, result),
    ensures
        result is Ok <==> 0 < tokens@.len() <= config.seq_len,
        result matches Ok(action) ==> {
            &&& action matches GenerateAction::Prefill(prompt) && prompt@ == tokens@
            &&& after.phase == GeneratePhase::Prefilling
            &&& after.prompt_len == tokens@.len()
            &&& after.emitted == run.emitted
            &&& after.metrics == run.metrics
        },
        result matches Err(fault) ==> {
            &&& after == run
            &&& fault == GenerateFault::NoPrompt <==> tokens@.len() == 0
            &&& fault == GenerateFault::TooLong {
                prompt_len: tokens@.len() as usize,
                seq_len: config.seq_len,
            } <==> tokens@.len() > config.seq_len
        },
{
}

/// A run that ends after a sampled token has a reason, and one that has none goes on: it finishes
/// exactly where prompt and emitted tokens fill the context window, or the token is one of those
/// named as the end. Else the token is emitted, at the position behind all of them.
pub proof fn law_runs_finish_for_a_reason(
    run: GenerateRun,
    after: GenerateRun,
    event: GenerateEvent,
    token: usize,
    tokenizer: Tokenizer,
    config: ModelConfig,
    now: u64,
    result: Result<GenerateAction, GenerateFault>,
)
    requires
        run.wf(tokenizer, config),
        run.awaits(event),
        event == GenerateEvent::Prefilled(Some(token)) || event == GenerateEvent::Sampled(token),
        run.steps_to(after, event, tokenizer, config, now, result),
    ensures
        result is Ok,
        result->Ok_0 is Finish || result->Ok_0 is Emit,
        result->Ok_0 is Finish <==> run.prompt_len + run.emitted@.len() == config.seq_len || generation::named_end(
            token,
            tokenizer,
            config,
        ),
        result->Ok_0 matches GenerateAction::Emit { token: said, pos } ==> {
            &&& said == token
            &&& pos == run.prompt_len + run.emitted@.len()
            &&& after.emitted@ == run.emitted@.push(token)
        },
        result->Ok_0 is Finish ==> after.emitted@ == run.emitted@,
        after.prompt_len == run.prompt_len,
{
    generation::lemma_named_ends(token, tokenizer, config);
}

/// The token that the model sampled, as the run hears of it: first for the prompt, then for each
/// emitted token.
pub open spec fn heard(k: int, token: usize) -> GenerateEvent {
    if k == 0 {
        GenerateEvent::Prefilled(Some(token))
    } else {
        GenerateEvent::Sampled(token)
    }
}

/// Whether the runs come about one from the other with these tokens sampled at these times, from a
/// prompt that is being processed on.
pub open spec fn played(
    runs: Seq<GenerateRun>,
    samples: Seq<usize>,
    times: Seq<u64>,
    actions: Seq<GenerateAction>,
    tokenizer: Tokenizer,
    config: ModelConfig,
) -> bool {
    &&& samples.len() == times.len() == actions.len()
    &&& runs.len() == samples.len() + 1
    &&& runs[0].wf(tokenizer, config)
    &&& runs[0].phase == GeneratePhase::Prefilling
    &&& forall|k: int|
        0 <= k < samples.len() ==> {
            &&& (#[trigger] runs[k]).awaits(heard(k, samples[k]))
            &&& runs[k].steps_to(
                runs[k + 1],
                heard(k, samples[k]),
                tokenizer,
                config,
                times[k],
                Ok(actions[k]),
            )
        }
}

/// Over a whole run, token `k` that is sampled is emitted at the `k`th position behind the prompt,
/// as long as there is room and the token is not named as the end. The first token for which this
/// fails finishes the run, with as many tokens reported as were emitted, and the time since the
/// prompt was processed.
pub proof fn law_runs_emit_what_was_sampled(
    runs: Seq<GenerateRun>,
    samples: Seq<usize>,
    times: Seq<u64>,
    actions: Seq<GenerateAction>,
    tokenizer: Tokenizer,
    config: ModelConfig,
    k: int,
)
    requires
        played(runs, samples, times, actions, tokenizer, config),
        0 <= k < samples.len(),
    ensures
        ({
            let prompt_len = runs[0].prompt_len;
            if prompt_len + k < config.seq_len && !generation::named_end(samples[k], tokenizer, config) {
                &&& actions[k] == GenerateAction::Emit { token: samples[k], pos: (prompt_len + k) as usize }
                &&& runs[k + 1].emitted@ == samples.take(k + 1)
            } else {
                &&& actions[k] == GenerateAction::Finish(
                    if k > 0 && times[0] < times[k] {
                        Some(Report { generated: k as usize, nanos: (times[k] - times[0]) as u64 })
                    } else {
                        None
                    },
                )
                &&& runs[k + 1].emitted@ == samples.take(k)
                &&& samples.len() == k + 1
            }
        }),
        prompt_len_stays(runs, k),
        runs[k + 1].phase == GeneratePhase::Sampling ==> {
            &&& runs[k + 1].pos == runs[0].prompt_len + k
            &&& runs[k + 1].metrics.start_time == Some(times[0])
            &&& runs[k + 1].metrics.generated_count == k + 1
        },
    decreases k,
{
    let event = heard(k, samples[k]);
    let run = runs[k];
    let after = runs[k + 1];
    assert(run.awaits(event));
    generation::lemma_named_ends(samples[k], tokenizer, config);
    if k == 0 {
        assert(samples.take(0) =~= Seq::<usize>::empty());
        assert(run.emitted@ =~= samples.take(0));
        assert(samples.take(1) =~= samples.take(0).push(samples[0]));
    } else {
        law_runs_emit_what_was_sampled(runs, samples, times, actions, tokenizer, config, k - 1);
        assert(run.phase == GeneratePhase::Sampling);
        assert(samples.take(k + 1) =~= samples.take(k).push(samples[k]));
    }
    if k + 1 < samples.len() {
        assert(runs[k + 1].awaits(heard(k + 1, samples[k + 1])));
    }
}

/// Whether the prompt is still the same after step `k`.
pub open spec fn prompt_len_stays(runs: Seq<GenerateRun>, k: int) -> bool {
    runs[k + 1].prompt_len == runs[0].prompt_len
}

/// What a run waits for is what its action brings: the outcome of the prompt after the prompt, a
/// sample after a token, and nothing where the run is over.
pub proof fn law_run_actions_are_answered_by_their_events(
    run: GenerateRun,
    after: GenerateRun,
    event: GenerateEvent,
    tokenizer: Tokenizer,
    config: ModelConfig,
    now: u64,
    action: GenerateAction,
    answer: GenerateEvent,
)
    requires
        run.awaits(event),
        run.steps_to(after, event, tokenizer, config, now, Ok(action)),
    ensures
        after.awaits(answer) <==> match action {
            GenerateAction::Prefill(_) => answer is Prefilled,
            GenerateAction::Emit { .. } => answer is Sampled,
            GenerateAction::Finish(_) => false,
        },
{
}

/// A prompt that gave no logits ends the run with a fault, and nothing was emitted.
pub proof fn law_run_without_logits_fails(
    run: GenerateRun,
    after: GenerateRun,
    tokenizer: Tokenizer,
    config: ModelConfig,
    now: u64,
    result: Result<GenerateAction, GenerateFault>,
)
    requires
        run.wf(tokenizer, config),
        run.phase == GeneratePhase::Prefilling,
        run.steps_to(after, GenerateEvent::Prefilled(None), tokenizer, config, now, result),
    ensures
        result == Err::<GenerateAction, GenerateFault>(GenerateFault::EmptyLogits),
        after.emitted@.len() == 0,
        after.phase == GeneratePhase::Over,
{
}

} // verus!
