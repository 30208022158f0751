//! What text generation and chat have in common: when to stop, how to put a prompt together, and
//! how fast tokens come.

use super::configuration::ModelConfig;
use crate::text;
use vstd::prelude::*;
use vstd::string::*;

verus! {

/// What generation has to know of a tokenizer.
#[derive(Debug)]
pub struct Tokenizer {
    pub bos_token_id: u32,
    pub eos_token_id: u32,
    /// The prompt of a user, with a place for what the user says.
    pub prompt_template: String,
    /// The first prompt of a user, with a place for the system prompt and what the user says.
    pub system_prompt_template: String,
}

/// The place in a template that a prompt takes.
pub open spec fn slot() -> Seq<char> {
    "%s"@
}

/// Whether generation ends with the token. For models without extended configuration the start
/// token ends it too; for models with one, the two end tokens named there do.
pub open spec fn terminates(token: usize, bos: u32, eos: u32, config: ModelConfig) -> bool {
    ||| token == eos
    ||| match config.v2 {
        Some(v2) => token == v2.model_eos || token == v2.chat_eos,
        None => token == bos,
    }
}

/// For models with an extended configuration the start token is a token like any other.
pub proof fn law_start_token_is_ordinary_in_extended_models(
    token: usize,
    bos: u32,
    other_bos: u32,
    eos: u32,
    config: ModelConfig,
)
    requires
        config.v2 is Some,
    ensures
        terminates(token, bos, eos, config) == terminates(token, other_bos, eos, config),
{
}

/// Whether generation ends with the token.
pub fn is_termination_token(token: usize, tokenizer: &Tokenizer, config: &ModelConfig) -> (stop: bool)
    ensures
        stop == terminates(token, tokenizer.bos_token_id, tokenizer.eos_token_id, *config),
{
    if token == tokenizer.eos_token_id as usize {
        return true;
    }
    match config.v2 {
        Some(v2) => token == v2.model_eos as usize || token == v2.chat_eos as usize,
        None => token == tokenizer.bos_token_id as usize,
    }
}

/// The prompt for what the user says at position `pos`. The system prompt goes before it at the
/// first position.
pub open spec fn rendered(
    pos: usize,
    system_prompt: Option<Seq<char>>,
    user_prompt: Seq<char>,
    prompt_template: Seq<char>,
    system_prompt_template: Seq<char>,
) -> Seq<char> {
    match system_prompt {
        Some(system) if pos == 0 => text::substituted(
            system_prompt_template,
            slot(),
            system + "\n"@ + user_prompt,
        ),
        _ => text::substituted(prompt_template, slot(), user_prompt),
    }
}

/// The prompt for what the user says at position `pos`.
pub fn render_prompt(pos: usize, system_prompt: Option<&str>, user_prompt: &str, tokenizer: &Tokenizer) -> (out: String)
    ensures
        out@ == rendered(
            pos,
            text::opt_text(system_prompt),
            user_prompt@,
            tokenizer.prompt_template@,
            tokenizer.system_prompt_template@,
        ),
{
    proof {
        reveal_strlit("%s");
    }
    match system_prompt {
        Some(system) if pos == 0 => {
            let mut both = system.to_owned();
            both.append("\n");
            both.append(user_prompt);
            text::substitute(tokenizer.system_prompt_template.as_str(), "%s", both.as_str())
        },
        _ => text::substitute(tokenizer.prompt_template.as_str(), "%s", user_prompt),
    }
}

/// Where the words of the user come from.
#[derive(Debug)]
pub enum UserInput<S> {
    /// They are known; none at all ends the chat.
    Given(S),
    /// A line has to be read.
    Ask,
}

/// Where the words of the user come from at position `pos`. A prompt that was given beforehand is
/// used once, at the first position.
pub open spec fn input_at(pos: usize, cli_user_prompt: Option<Seq<char>>) -> UserInput<Seq<char>> {
    match cli_user_prompt {
        Some(prompt) => UserInput::Given(if pos == 0 { prompt } else { seq![] }),
        None => UserInput::Ask,
    }
}

/// Where the words of the user come from at position `pos`.
pub fn get_user_input(pos: usize, cli_user_prompt: Option<&str>) -> (input: UserInput<String>)
    ensures
        match input {
            UserInput::Given(words) => input_at(pos, text::opt_text(cli_user_prompt)) == UserInput::Given(words@),
            UserInput::Ask => input_at(pos, text::opt_text(cli_user_prompt)) == UserInput::<Seq<char>>::Ask,
        },
{
    match cli_user_prompt {
        Some(prompt) => {
            if pos == 0 {
                UserInput::Given(prompt.to_owned())
            } else {
                proof {
                    reveal_strlit("");
                }
                let none = "".to_owned();
                assert(none@ =~= Seq::<char>::empty());
                UserInput::Given(none)
            }
        },
        None => UserInput::Ask,
    }
}

/// How many tokens were generated in how many nanoseconds.
#[derive(Debug, Clone, Copy, PartialEq, Eq, Structural)]
pub struct Report {
    pub generated: usize,
    pub nanos: u64,
}

/// Counts tokens and time. Times are nanoseconds of a clock that never goes back.
#[derive(Debug, Clone, Copy, PartialEq, Eq, Structural)]
pub struct TokenMetrics {
    pub start_time: Option<u64>,
    pub generated_count: usize,
}

impl TokenMetrics {
    /// Nothing counted yet.
    pub open spec fn idle() -> TokenMetrics {
        TokenMetrics { start_time: None, generated_count: 0 }
    }

    /// The clock runs from `now` on, unless it runs already.
    pub open spec fn started(self, now: u64) -> TokenMetrics {
        TokenMetrics {
            start_time: if self.start_time is None {
                Some(now)
            } else {
                self.start_time
            },
            generated_count: self.generated_count,
        }
    }

    /// One more token.
    pub open spec fn incremented(self) -> TokenMetrics {
        TokenMetrics { start_time: self.start_time, generated_count: (self.generated_count + 1) as usize }
    }

    /// What there is to report at `now`: something where tokens were counted and time has passed.
    pub open spec fn report(self, now: u64) -> Option<Report> {
        match self.start_time {
            Some(start) if self.generated_count > 0 && start < now => Some(
                Report { generated: self.generated_count, nanos: (now - start) as u64 },
            ),
            _ => None,
        }
    }

    /// Nothing counted yet.
    pub fn new() -> (metrics: Self)
        ensures
            metrics == TokenMetrics::idle(),
    {
        TokenMetrics { start_time: None, generated_count: 0 }
    }

    /// Starts the clock, unless it runs already.
    pub fn start_generation(&mut self, now: u64)
        ensures
            *final(self) == old(self).started(now),
    {
        if self.start_time.is_none() {
            self.start_time = Some(now);
        }
    }

    /// Counts a token.
    pub fn increment_token(&mut self)
        requires
            old(self).generated_count < usize::MAX,
        ensures
            *final(self) == old(self).incremented(),
    {
        self.generated_count += 1;
    }

    /// Hands out the report and counts anew.
    pub fn report_and_reset(&mut self, now: u64) -> (report: Option<Report>)
        ensures
            report == old(self).report(now),
            *final(self) == TokenMetrics::idle(),
    {
        let mut report: Option<Report> = None;
        if let Some(start) = self.start_time {
            if self.generated_count > 0 && start < now {
                report = Some(Report { generated: self.generated_count, nanos: now - start });
            }
        }
        self.start_time = None;
        self.generated_count = 0;
        report
    }
}

/// How far a conversation has come.
#[derive(Debug, Clone, Copy, PartialEq, Eq, Structural)]
pub struct GenerationState {
    pub pos: usize,
    pub metrics: TokenMetrics,
}

impl GenerationState {
    /// Nothing processed yet.
    pub open spec fn idle() -> GenerationState {
        GenerationState { pos: 0, metrics: TokenMetrics::idle() }
    }

    /// One position further.
    pub open spec fn advanced(self) -> GenerationState {
        GenerationState { pos: (self.pos + 1) as usize, metrics: self.metrics }
    }

    /// Nothing processed yet.
    pub fn new() -> (state: Self)
        ensures
            state == GenerationState::idle(),
    {
        GenerationState { pos: 0, metrics: TokenMetrics::new() }
    }

    /// Hands out the report and goes back to the first position.
    pub fn reset(&mut self, now: u64) -> (report: Option<Report>)
        ensures
            report == old(self).metrics.report(now),
            *final(self) == GenerationState::idle(),
    {
        let report = self.metrics.report_and_reset(now);
        self.pos = 0;
        report
    }

    /// Goes one position further.
    pub fn advance(&mut self)
        requires
            old(self).pos < usize::MAX,
        ensures
            *final(self) == old(self).advanced(),
    {
        self.pos += 1;
    }
}

/// The tokens that end generation.
pub open spec fn ending(bos: u32, eos: u32, config: ModelConfig) -> Set<int> {
    Set::new(|token: int| 0 <= token <= usize::MAX && terminates(token as usize, bos, eos, config))
}

/// With an extended configuration, exactly the end token of the tokenizer, that of the model and
/// that of the chat end generation, in whatever order their numbers are. Without one, exactly the
/// end token and the start token of the tokenizer do.
pub proof fn law_ending_tokens_are_those_named(bos: u32, eos: u32, config: ModelConfig)
    ensures
        config.v2 matches Some(v2) ==> ending(bos, eos, config) == set![
            eos as int,
            v2.model_eos as int,
            v2.chat_eos as int,
        ],
        config.v2 is None ==> ending(bos, eos, config) == set![eos as int, bos as int],
{
    match config.v2 {
        Some(v2) => {
            assert(ending(bos, eos, config) =~= set![eos as int, v2.model_eos as int, v2.chat_eos as int]);
        },
        None => {
            assert(ending(bos, eos, config) =~= set![eos as int, bos as int]);
        },
    }
}

/// A template with one place becomes what stands before the place, what the user says, and what
/// stands behind it. At the first position, where there is a system prompt, the system template is
/// taken, and the system prompt and a line break go before what the user says.
pub proof fn law_prompt_takes_the_place_in_its_template(
    pos: usize,
    system_prompt: Option<Seq<char>>,
    user_prompt: Seq<char>,
    before: Seq<char>,
    behind: Seq<char>,
    other_template: Seq<char>,
)
    requires
        !before.contains('%'),
        !behind.contains('%'),
    ensures
        ({
            let template = before + seq!['%', 's'] + behind;
            &&& system_prompt is None || pos > 0 ==> rendered(
                pos,
                system_prompt,
                user_prompt,
                template,
                other_template,
            ) == before + user_prompt + behind
            &&& pos == 0 ==> (system_prompt matches Some(system) ==> rendered(
                pos,
                system_prompt,
                user_prompt,
                other_template,
                template,
            ) == before + system + seq!['\n'] + user_prompt + behind)
        }),
{
    reveal_strlit("%s");
    reveal_strlit("\n");
    let mark = seq!['%', 's'];
    let template = before + mark + behind;
    assert(slot() =~= mark);
    assert("\n"@ =~= seq!['\n']);
    assert forall|with: Seq<char>| #[trigger] text::substituted(template, mark, with) == before + with + behind by {
        assert forall|k: int| 0 <= k <= before.len() - 1 implies !#[trigger] text::occurs_at(template, mark, k) by {
            assert(template[k] == before[k]);
            assert(before.contains(before[k]));
            if text::occurs_at(template, mark, k) {
                assert(template.subrange(k, k + 2)[0] == template[k]);
            }
        }
        assert forall|k: int| 0 <= k <= behind.len() implies !#[trigger] text::occurs_at(behind, mark, k) by {
            if text::occurs_at(behind, mark, k) {
                assert(behind.subrange(k, k + 2)[0] == behind[k]);
                assert(behind.contains(behind[k]));
            }
        }
        assert(template.subrange(before.len() as int, before.len() as int + 2) =~= mark);
        text::law_first_place_is_filled(template, mark, with, before.len() as int);
        assert(template.take(before.len() as int) =~= before);
        assert(template.skip(before.len() as int + 2) =~= behind);
        text::law_text_without_the_mark_stays(behind, mark, with);
    }
    match system_prompt {
        Some(system) if pos == 0 => {
            let with = system + "\n"@ + user_prompt;
            assert(text::substituted(template, mark, with) == before + with + behind);
            assert(before + with + behind =~= before + system + seq!['\n'] + user_prompt + behind);
        },
        _ => {
            assert(text::substituted(template, mark, user_prompt) == before + user_prompt + behind);
        },
    }
}

/// Words that were given beforehand are heard once, at the first position; after that nothing is
/// said any more. A line is asked for exactly where no words were given.
pub proof fn law_given_words_are_heard_once(pos: usize, cli_user_prompt: Option<Seq<char>>)
    ensures
        input_at(pos, cli_user_prompt) is Ask <==> cli_user_prompt is None,
        cli_user_prompt matches Some(words) ==> input_at(0, cli_user_prompt) == UserInput::Given(words),
        pos > 0 ==> (input_at(pos, cli_user_prompt) matches UserInput::Given(words) ==> words.len() == 0),
{
}

/// Counts of so many tokens, one by one.
pub open spec fn counted(metrics: TokenMetrics, n: nat) -> TokenMetrics
    decreases n,
{
    if n == 0 {
        metrics
    } else {
        counted(metrics, (n - 1) as nat).incremented()
    }
}

/// After `n` tokens since the clock was started, the report says `n` tokens and the time since the
/// first start: a second start changes nothing. There is no report without tokens or without time.
pub proof fn law_report_is_tokens_and_time(first: u64, again: u64, now: u64, n: nat)
    requires
        n <= usize::MAX,
    ensures
        counted(TokenMetrics::idle().started(first).started(again), n).report(now) == if n > 0 && first < now {
            Some(Report { generated: n as usize, nanos: (now - first) as u64 })
        } else {
            None
        },
        counted(TokenMetrics::idle(), n).report(now) is None,
    decreases n,
{
    lemma_counted(TokenMetrics::idle().started(first).started(again), n);
    lemma_counted(TokenMetrics::idle(), n);
}

proof fn lemma_counted(metrics: TokenMetrics, n: nat)
    requires
        metrics.generated_count == 0,
        n <= usize::MAX,
    ensures
        counted(metrics, n) == (TokenMetrics { start_time: metrics.start_time, generated_count: n as usize }),
    decreases n,
{
    if n > 0 {
        lemma_counted(metrics, (n - 1) as nat);
    }
}

/// Going on takes one position and leaves the counts alone.
pub proof fn law_advancing_takes_one_position(state: GenerationState)
    requires
        state.pos < usize::MAX,
    ensures
        state.advanced().pos - state.pos == 1,
        state.advanced().metrics == state.metrics,
        GenerationState::idle().pos == 0,
        GenerationState::idle().metrics.generated_count == 0,
        GenerationState::idle().metrics.start_time is None,
{
}

/// Whether a token is one of those that the tokenizer and the configuration name as the end: with an
/// extended configuration the end tokens of tokenizer, model and chat, else the end token and the
/// start token of the tokenizer.
pub open spec fn named_end(token: usize, tokenizer: Tokenizer, config: ModelConfig) -> bool {
    match config.v2 {
        Some(v2) => seq![tokenizer.eos_token_id, v2.model_eos, v2.chat_eos].contains(token as u32) && token
            <= u32::MAX,
        None => seq![tokenizer.eos_token_id, tokenizer.bos_token_id].contains(token as u32) && token <= u32::MAX,
    }
}

/// The tokens named as the end are those that end generation.
pub proof fn lemma_named_ends(token: usize, tokenizer: Tokenizer, config: ModelConfig)
    ensures
        named_end(token, tokenizer, config) == terminates(
            token,
            tokenizer.bos_token_id,
            tokenizer.eos_token_id,
            config,
        ),
{
    law_ending_tokens_are_those_named(tokenizer.bos_token_id, tokenizer.eos_token_id, config);
    let ending = ending(tokenizer.bos_token_id, tokenizer.eos_token_id, config);
    assert(ending.contains(token as int) == terminates(
        token,
        tokenizer.bos_token_id,
        tokenizer.eos_token_id,
        config,
    ));
    match config.v2 {
        Some(v2) => {
            let ids = seq![tokenizer.eos_token_id, v2.model_eos, v2.chat_eos];
            assert(ids[0] == tokenizer.eos_token_id && ids[1] == v2.model_eos && ids[2] == v2.chat_eos);
        },
        None => {
            let ids = seq![tokenizer.eos_token_id, tokenizer.bos_token_id];
            assert(ids[0] == tokenizer.eos_token_id && ids[1] == tokenizer.bos_token_id);
        },
    }
}

} // verus!
