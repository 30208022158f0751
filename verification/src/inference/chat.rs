//! Chatting.
//!
//! A chat is a sequence of steps. Each step is told what has happened since the last one, and says
//! what to do next; the terminal, the tokenizer, the model and sampling are up to the caller.

use super::configuration::ModelConfig;
use super::generation;
use super::generation::{GenerationState, Report, TokenMetrics, Tokenizer, UserInput};
use super::qwen3_5;
use crate::text;
use vstd::prelude::*;
use vstd::string::*;

verus! {

/// What a chat is about.
#[derive(Debug)]
pub struct ChatSettings {
    pub tokenizer: Tokenizer,
    pub config: ModelConfig,
    /// What the user says, where that is known beforehand.
    pub cli_user_prompt: Option<String>,
    pub system_prompt: Option<String>,
}

/// The text in an optional string.
pub open spec fn opt_string(s: Option<String>) -> Option<Seq<char>> {
    match s {
        Some(s) => Some(s@),
        None => None,
    }
}

impl ChatSettings {
    /// Whether the token ends a turn of the assistant.
    pub open spec fn stops(self, token: usize) -> bool {
        generation::terminates(token, self.tokenizer.bos_token_id, self.tokenizer.eos_token_id, self.config)
    }

    /// The prompt for what the user says.
    pub open spec fn prompt(self, pos: usize, words: Seq<char>) -> Seq<char> {
        generation::rendered(
            pos,
            opt_string(self.system_prompt),
            words,
            self.tokenizer.prompt_template@,
            self.tokenizer.system_prompt_template@,
        )
    }

    /// Whether the chat ends when the user says `words`: it does where these are none, unless they
    /// were given beforehand for the first position.
    pub open spec fn ends_with(self, pos: usize, words: Seq<char>) -> bool {
        words.len() == 0 && !(pos == 0 && self.cli_user_prompt is Some)
    }

    fn user_prompt(&self) -> (prompt: Option<&str>)
        ensures
            text::opt_text(prompt) == opt_string(self.cli_user_prompt),
    {
        match &self.cli_user_prompt {
            Some(prompt) => Some(prompt.as_str()),
            None => None,
        }
    }

    fn system(&self) -> (prompt: Option<&str>)
        ensures
            text::opt_text(prompt) == opt_string(self.system_prompt),
    {
        match &self.system_prompt {
            Some(prompt) => Some(prompt.as_str()),
            None => None,
        }
    }
}

/// What a chat waits for; `L` is the type of lists of tokens.
#[derive(Debug)]
pub enum ChatPhase<L> {
    /// To begin.
    Begin,
    /// For the next turn.
    Turn,
    /// For the turn of the user, in a fresh context.
    UserTurn,
    /// For a line of the user.
    Line,
    /// For the tokens of a prompt.
    Tokens,
    /// For a prompt of so many tokens to be processed, and a token sampled.
    Prefill(usize),
    /// For token `fed` of a prompt to be processed, and a token sampled.
    Feed { prompt: L, fed: usize },
    /// For a token of the assistant to be processed, and the next one sampled.
    Reply,
    /// For the last token of the assistant to be processed.
    Absorb,
    /// For nothing any more.
    Over,
}

/// What to do next; `S` is the type of text, `L` that of lists of tokens.
#[derive(Debug)]
pub enum ChatAction<S, L> {
    /// Reset the caches; where the context has rolled over, end the line.
    ResetCache { rollover: bool },
    /// Show the prompt sign and read a line.
    ReadLine,
    /// Encode the text.
    Encode(S),
    /// Process the tokens from the first position on, and sample where there are logits.
    Prefill(L),
    /// Process the token at the position, and sample.
    Forward { token: usize, pos: usize },
    /// Print the token, process it at the position, and sample.
    Speak { token: usize, pos: usize },
    /// Process the token at the position.
    Absorb { token: usize, pos: usize },
    /// End the line.
    EndLine,
    /// The chat is over.
    Exit,
}

/// What has happened; `S` is the type of text, `L` that of lists of tokens.
#[derive(Debug)]
pub enum ChatEvent<S, L> {
    /// The action was carried out, and gave nothing.
    Done,
    /// A line was read.
    Line(S),
    /// A text was encoded.
    Tokens(L),
    /// A prompt was processed, and a token sampled where there were logits.
    Prefilled(Option<usize>),
    /// A token was processed, and a token sampled.
    Sampled(usize),
}

/// How far a chat has come.
pub struct ChatState {
    pub phase: ChatPhase<Seq<usize>>,
    pub state: GenerationState,
    pub user_turn: bool,
    pub next_token: usize,
}

/// A step: how far the chat has come then, what to do, and what to report before it.
pub struct ChatStep {
    pub to: ChatState,
    pub action: ChatAction<Seq<char>, Seq<usize>>,
    pub report: Option<Report>,
}

/// The smaller of two numbers.
pub open spec fn smaller(a: nat, b: nat) -> nat {
    if a <= b {
        a
    } else {
        b
    }
}

impl ChatState {
    /// The same chat, with another phase.
    pub open spec fn waiting(self, phase: ChatPhase<Seq<usize>>) -> ChatState {
        ChatState { phase, ..self }
    }

    /// The same chat, where the turn of the user is over.
    pub open spec fn heard_out(self) -> ChatState {
        ChatState { user_turn: false, ..self }
    }

    /// The same chat, with a token sampled and one position further.
    pub open spec fn sampled(self, token: usize) -> ChatState {
        ChatState { next_token: token, state: self.state.advanced(), ..self }
    }

    /// The same chat, with other counts.
    pub open spec fn counting(self, metrics: TokenMetrics) -> ChatState {
        ChatState { state: GenerationState { pos: self.state.pos, metrics }, ..self }
    }

    /// The user has said `words`.
    pub open spec fn on_words(self, settings: ChatSettings, words: Seq<char>, report: Option<Report>) -> ChatStep {
        if settings.ends_with(self.state.pos, words) {
            ChatStep { to: self.waiting(ChatPhase::Over), action: ChatAction::Exit, report }
        } else {
            ChatStep {
                to: self.waiting(ChatPhase::Tokens),
                action: ChatAction::Encode(settings.prompt(self.state.pos, words)),
                report,
            }
        }
    }

    /// It is the turn of the user.
    pub open spec fn user_step(self, settings: ChatSettings, now: u64) -> ChatStep {
        let report = self.state.metrics.report(now);
        let idle = self.counting(TokenMetrics::idle());
        match generation::input_at(self.state.pos, opt_string(settings.cli_user_prompt)) {
            UserInput::Given(words) => idle.on_words(settings, words, report),
            UserInput::Ask => ChatStep { to: idle.waiting(ChatPhase::Line), action: ChatAction::ReadLine, report },
        }
    }

    /// The turn of the assistant is over, and that of the user comes next.
    pub open spec fn reply_over(self, now: u64) -> ChatStep {
        ChatStep {
            to: ChatState { user_turn: true, ..self.counting(TokenMetrics::idle()) }.waiting(ChatPhase::Turn),
            action: ChatAction::EndLine,
            report: self.state.metrics.report(now),
        }
    }

    /// It is the turn of the assistant. A token that ends the turn is processed where the context
    /// window has room for it.
    pub open spec fn assistant_step(self, settings: ChatSettings, now: u64) -> ChatStep {
        let token = self.next_token;
        let pos = self.state.pos;
        if settings.stops(token) {
            if pos < settings.config.seq_len {
                ChatStep { to: self.waiting(ChatPhase::Absorb), action: ChatAction::Absorb { token, pos }, report: None }
            } else {
                self.reply_over(now)
            }
        } else {
            ChatStep {
                to: self.counting(self.state.metrics.started(now)).waiting(ChatPhase::Reply),
                action: ChatAction::Speak { token, pos },
                report: None,
            }
        }
    }

    /// The next turn. Where the context window is full, a fresh context begins, with the user.
    pub open spec fn turn(self, settings: ChatSettings, now: u64) -> ChatStep {
        if self.state.pos >= settings.config.seq_len {
            ChatStep {
                to: ChatState {
                    phase: ChatPhase::UserTurn,
                    state: GenerationState::idle(),
                    user_turn: true,
                    next_token: self.next_token,
                },
                action: ChatAction::ResetCache { rollover: true },
                report: self.state.metrics.report(now),
            }
        } else if self.user_turn {
            self.user_step(settings, now)
        } else {
            self.assistant_step(settings, now)
        }
    }

    /// The prompt was encoded. As much of it is processed as the context window has room for.
    pub open spec fn on_tokens(self, settings: ChatSettings, tokens: Seq<usize>, now: u64) -> ChatStep {
        let pos = self.state.pos;
        let room = if settings.config.seq_len >= pos {
            (settings.config.seq_len - pos) as nat
        } else {
            0
        };
        let prompt = tokens.take(smaller(tokens.len(), room) as int);
        if prompt.len() == 0 {
            self.heard_out().turn(settings, now)
        } else if pos == 0 {
            ChatStep {
                to: self.waiting(ChatPhase::Prefill(prompt.len() as usize)),
                action: ChatAction::Prefill(prompt),
                report: None,
            }
        } else {
            ChatStep {
                to: self.waiting(ChatPhase::Feed { prompt, fed: 0 }),
                action: ChatAction::Forward { token: prompt[0], pos },
                report: None,
            }
        }
    }

    /// A prompt was processed as a whole.
    pub open spec fn on_prefilled(
        self,
        settings: ChatSettings,
        count: usize,
        sampled: Option<usize>,
        now: u64,
    ) -> ChatStep {
        ChatState {
            next_token: match sampled {
                Some(token) => token,
                None => self.next_token,
            },
            state: GenerationState { pos: count, metrics: self.state.metrics },
            ..self
        }.heard_out().turn(settings, now)
    }

    /// Token `fed` of a prompt was processed.
    pub open spec fn on_fed(
        self,
        settings: ChatSettings,
        prompt: Seq<usize>,
        fed: usize,
        sampled: usize,
        now: u64,
    ) -> ChatStep {
        let after = self.sampled(sampled);
        if fed + 1 < prompt.len() {
            ChatStep {
                to: after.waiting(ChatPhase::Feed { prompt, fed: (fed + 1) as usize }),
                action: ChatAction::Forward { token: prompt[fed + 1], pos: after.state.pos },
                report: None,
            }
        } else {
            after.heard_out().turn(settings, now)
        }
    }

    /// The last token of the assistant was processed.
    pub open spec fn on_absorbed(self, now: u64) -> ChatStep {
        ChatState { state: self.state.advanced(), ..self }.reply_over(now)
    }

    /// The step after an event. Only the events that the phase waits for are meant.
    pub open spec fn next(self, settings: ChatSettings, event: ChatEvent<Seq<char>, Seq<usize>>, now: u64) -> ChatStep {
        match (self.phase, event) {
            (ChatPhase::Begin, _) => ChatStep {
                to: self.waiting(ChatPhase::Turn),
                action: ChatAction::ResetCache { rollover: false },
                report: None,
            },
            (ChatPhase::Turn, _) => self.turn(settings, now),
            (ChatPhase::UserTurn, _) => self.user_step(settings, now),
            (ChatPhase::Line, ChatEvent::Line(line)) => self.on_words(settings, text::trimmed(line), None),
            (ChatPhase::Tokens, ChatEvent::Tokens(tokens)) => self.on_tokens(settings, tokens, now),
            (ChatPhase::Prefill(count), ChatEvent::Prefilled(sampled)) => self.on_prefilled(
                settings,
                count,
                sampled,
                now,
            ),
            (ChatPhase::Feed { prompt, fed }, ChatEvent::Sampled(token)) => self.on_fed(
                settings,
                prompt,
                fed,
                token,
                now,
            ),
            (ChatPhase::Reply, ChatEvent::Sampled(token)) => self.sampled(token).counting(
                self.state.metrics.incremented(),
            ).turn(settings, now),
            (ChatPhase::Absorb, _) => self.on_absorbed(now),
            _ => ChatStep { to: self.waiting(ChatPhase::Over), action: ChatAction::Exit, report: None },
        }
    }
}

impl View for ChatPhase<Vec<usize>> {
    type V = ChatPhase<Seq<usize>>;

    open spec fn view(&self) -> ChatPhase<Seq<usize>> {
        match *self {
            ChatPhase::Begin => ChatPhase::Begin,
            ChatPhase::Turn => ChatPhase::Turn,
            ChatPhase::UserTurn => ChatPhase::UserTurn,
            ChatPhase::Line => ChatPhase::Line,
            ChatPhase::Tokens => ChatPhase::Tokens,
            ChatPhase::Prefill(count) => ChatPhase::Prefill(count),
            ChatPhase::Feed { prompt, fed } => ChatPhase::Feed { prompt: prompt@, fed },
            ChatPhase::Reply => ChatPhase::Reply,
            ChatPhase::Absorb => ChatPhase::Absorb,
            ChatPhase::Over => ChatPhase::Over,
        }
    }
}

impl View for ChatAction<String, Vec<usize>> {
    type V = ChatAction<Seq<char>, Seq<usize>>;

    open spec fn view(&self) -> ChatAction<Seq<char>, Seq<usize>> {
        match *self {
            ChatAction::ResetCache { rollover } => ChatAction::ResetCache { rollover },
            ChatAction::ReadLine => ChatAction::ReadLine,
            ChatAction::Encode(words) => ChatAction::Encode(words@),
            ChatAction::Prefill(tokens) => ChatAction::Prefill(tokens@),
            ChatAction::Forward { token, pos } => ChatAction::Forward { token, pos },
            ChatAction::Speak { token, pos } => ChatAction::Speak { token, pos },
            ChatAction::Absorb { token, pos } => ChatAction::Absorb { token, pos },
            ChatAction::EndLine => ChatAction::EndLine,
            ChatAction::Exit => ChatAction::Exit,
        }
    }
}

impl View for ChatEvent<String, Vec<usize>> {
    type V = ChatEvent<Seq<char>, Seq<usize>>;

    open spec fn view(&self) -> ChatEvent<Seq<char>, Seq<usize>> {
        match *self {
            ChatEvent::Done => ChatEvent::Done,
            ChatEvent::Line(line) => ChatEvent::Line(line@),
            ChatEvent::Tokens(tokens) => ChatEvent::Tokens(tokens@),
            ChatEvent::Prefilled(sampled) => ChatEvent::Prefilled(sampled),
            ChatEvent::Sampled(token) => ChatEvent::Sampled(token),
        }
    }
}

/// A chat.
#[derive(Debug)]
pub struct ChatSession {
    pub phase: ChatPhase<Vec<usize>>,
    pub state: GenerationState,
    pub user_turn: bool,
    pub next_token: usize,
}

impl View for ChatSession {
    type V = ChatState;

    open spec fn view(&self) -> ChatState {
        ChatState {
            phase: self.phase@,
            state: self.state,
            user_turn: self.user_turn,
            next_token: self.next_token,
        }
    }
}

impl ChatState {
    /// The chat stays within the context window, with room for every token that is to be
    /// processed.
    pub open spec fn wf(self, settings: ChatSettings) -> bool {
        let pos = self.state.pos;
        let seq_len = settings.config.seq_len;
        &&& pos <= seq_len
        &&& self.state.metrics.generated_count <= pos
        &&& match self.phase {
            ChatPhase::Begin => pos == 0,
            ChatPhase::UserTurn => pos == 0 && self.user_turn,
            ChatPhase::Line => self.user_turn,
            ChatPhase::Tokens => self.user_turn,
            ChatPhase::Prefill(count) => pos == 0 && 0 < count <= seq_len,
            ChatPhase::Feed { prompt, fed } => {
                &&& fed < prompt.len() <= seq_len
                &&& pos + prompt.len() - fed <= seq_len
            },
            ChatPhase::Reply => pos < seq_len,
            ChatPhase::Absorb => pos < seq_len,
            _ => true,
        }
    }

    /// Whether the event is what the chat waits for.
    pub open spec fn awaits(self, event: ChatEvent<Seq<char>, Seq<usize>>) -> bool {
        match self.phase {
            ChatPhase::Line => event is Line,
            ChatPhase::Tokens => event is Tokens,
            ChatPhase::Prefill(_) => event is Prefilled,
            ChatPhase::Feed { .. } => event is Sampled,
            ChatPhase::Reply => event is Sampled,
            ChatPhase::Over => false,
            _ => event is Done,
        }
    }
}

/// What to do, and what to report before it.
pub type Outcome = (ChatAction<String, Vec<usize>>, Option<Report>);

/// Whether a chat and what it is to do are as the step has them.
pub open spec fn taken(session: ChatSession, outcome: Outcome, step: ChatStep) -> bool {
    &&& session@ == step.to
    &&& outcome.0@ == step.action
    &&& outcome.1 == step.report
}

impl ChatSession {
    /// A chat that has not begun.
    pub fn new() -> (session: Self)
        ensures
            session@ == (ChatState {
                phase: ChatPhase::Begin,
                state: GenerationState::idle(),
                user_turn: true,
                next_token: 0,
            }),
            forall|settings: ChatSettings| #[trigger] session@.wf(settings),
    {
        ChatSession { phase: ChatPhase::Begin, state: GenerationState::new(), user_turn: true, next_token: 0 }
    }

    /// Whether the event is what the chat waits for.
    pub fn is_awaited(&self, event: &ChatEvent<String, Vec<usize>>) -> (awaited: bool)
        ensures
            awaited == self@.awaits(event@),
    {
        match (&self.phase, event) {
            (ChatPhase::Line, ChatEvent::Line(_)) => true,
            (ChatPhase::Line, _) => false,
            (ChatPhase::Tokens, ChatEvent::Tokens(_)) => true,
            (ChatPhase::Tokens, _) => false,
            (ChatPhase::Prefill(_), ChatEvent::Prefilled(_)) => true,
            (ChatPhase::Prefill(_), _) => false,
            (ChatPhase::Feed { .. }, ChatEvent::Sampled(_)) => true,
            (ChatPhase::Feed { .. }, _) => false,
            (ChatPhase::Reply, ChatEvent::Sampled(_)) => true,
            (ChatPhase::Reply, _) => false,
            (ChatPhase::Over, _) => false,
            (_, ChatEvent::Done) => true,
            (_, _) => false,
        }
    }

    fn hear(&mut self, settings: &ChatSettings, words: String, report: Option<Report>) -> (outcome: Outcome)
        ensures
            taken(*final(self), outcome, old(self)@.on_words(*settings, words@, report)),
    {
        let pos: usize = self.state.pos;
        let silent = words.as_str().unicode_len() == 0;
        if silent && !(pos == 0 && settings.cli_user_prompt.is_some()) {
            self.phase = ChatPhase::Over;
            return (ChatAction::Exit, report);
        }
        let prompt = generation::render_prompt(pos, settings.system(), words.as_str(), &settings.tokenizer);
        self.phase = ChatPhase::Tokens;
        (ChatAction::Encode(prompt), report)
    }

    fn begin_user_turn(&mut self, settings: &ChatSettings, now: u64) -> (outcome: Outcome)
        ensures
            taken(*final(self), outcome, old(self)@.user_step(*settings, now)),
    {
        let report = self.state.metrics.report_and_reset(now);
        match generation::get_user_input(self.state.pos, settings.user_prompt()) {
            UserInput::Given(words) => self.hear(settings, words, report),
            UserInput::Ask => {
                self.phase = ChatPhase::Line;
                (ChatAction::ReadLine, report)
            },
        }
    }

    fn end_reply(&mut self, now: u64) -> (outcome: Outcome)
        ensures
            taken(*final(self), outcome, old(self)@.reply_over(now)),
    {
        let report = self.state.metrics.report_and_reset(now);
        self.user_turn = true;
        self.phase = ChatPhase::Turn;
        (ChatAction::EndLine, report)
    }

    fn handle_assistant_turn(&mut self, settings: &ChatSettings, now: u64) -> (outcome: Outcome)
        ensures
            taken(*final(self), outcome, old(self)@.assistant_step(*settings, now)),
    {
        let token: usize = self.next_token;
        let pos: usize = self.state.pos;
        if generation::is_termination_token(token, &settings.tokenizer, &settings.config) {
            if pos < settings.config.seq_len {
                self.phase = ChatPhase::Absorb;
                (ChatAction::Absorb { token, pos }, None)
            } else {
                self.end_reply(now)
            }
        } else {
            self.state.metrics.start_generation(now);
            self.phase = ChatPhase::Reply;
            (ChatAction::Speak { token, pos }, None)
        }
    }

    fn take_turn(&mut self, settings: &ChatSettings, now: u64) -> (outcome: Outcome)
        ensures
            taken(*final(self), outcome, old(self)@.turn(*settings, now)),
    {
        if self.state.pos >= settings.config.seq_len {
            let report = self.state.reset(now);
            self.user_turn = true;
            self.phase = ChatPhase::UserTurn;
            (ChatAction::ResetCache { rollover: true }, report)
        } else if self.user_turn {
            self.begin_user_turn(settings, now)
        } else {
            self.handle_assistant_turn(settings, now)
        }
    }

    fn handle_user_turn(&mut self, settings: &ChatSettings, tokens: Vec<usize>, now: u64) -> (outcome: Outcome)
        ensures
            taken(*final(self), outcome, old(self)@.on_tokens(*settings, tokens@, now)),
    {
        let pos: usize = self.state.pos;
        let seq_len: usize = settings.config.seq_len;
        let room: usize = if seq_len >= pos {
            seq_len - pos
        } else {
            0
        };
        let mut prompt = tokens;
        if prompt.len() > room {
            prompt.truncate(room);
        }
        assert(prompt@ =~= tokens@.take(smaller(tokens@.len(), room as nat) as int));
        if prompt.len() == 0 {
            self.user_turn = false;
            return self.take_turn(settings, now);
        }
        if pos == 0 {
            self.phase = ChatPhase::Prefill(prompt.len());
            (ChatAction::Prefill(prompt), None)
        } else {
            let token: usize = prompt[0];
            self.phase = ChatPhase::Feed { prompt, fed: 0 };
            (ChatAction::Forward { token, pos }, None)
        }
    }

    fn feed(&mut self, settings: &ChatSettings, prompt: Vec<usize>, fed: usize, sampled: usize, now: u64) -> (outcome:
        Outcome)
        requires
            fed < prompt@.len(),
            old(self).state.pos < usize::MAX,
        ensures
            taken(*final(self), outcome, old(self)@.on_fed(*settings, prompt@, fed, sampled, now)),
    {
        self.next_token = sampled;
        self.state.advance();
        assert(prompt.len() == prompt@.len());
        let next: usize = fed + 1;
        if next < prompt.len() {
            let token: usize = prompt[next];
            self.phase = ChatPhase::Feed { prompt, fed: next };
            (ChatAction::Forward { token, pos: self.state.pos }, None)
        } else {
            self.user_turn = false;
            self.take_turn(settings, now)
        }
    }
}

/// One step of a chat: what to do after the event, and what to report before it. `now` is the
/// time.
pub fn chat(
    session: &mut ChatSession,
    settings: &ChatSettings,
    event: ChatEvent<String, Vec<usize>>,
    now: u64,
) -> (outcome: Outcome)
    requires
        old(session)@.wf(*settings),
        old(session)@.awaits(event@),
    ensures
        taken(*final(session), outcome, old(session)@.next(*settings, event@, now)),
        final(session)@.wf(*settings),
{
    let ghost before = session@;
    proof {
        law_chat_stays_in_window(before, *settings, event@, now);
    }
    let mut phase = ChatPhase::Over;
    std::mem::swap(&mut phase, &mut session.phase);
    match (phase, event) {
        (ChatPhase::Begin, _) => {
            session.phase = ChatPhase::Turn;
            (ChatAction::ResetCache { rollover: false }, None)
        },
        (ChatPhase::Turn, _) => session.take_turn(settings, now),
        (ChatPhase::UserTurn, _) => session.begin_user_turn(settings, now),
        (ChatPhase::Line, ChatEvent::Line(line)) => {
            let words = text::trim_text(line.as_str());
            session.hear(settings, words, None)
        },
        (ChatPhase::Tokens, ChatEvent::Tokens(tokens)) => session.handle_user_turn(settings, tokens, now),
        (ChatPhase::Prefill(count), ChatEvent::Prefilled(sampled)) => {
            if let Some(token) = sampled {
                session.next_token = token;
            }
            session.state.pos = count;
            session.user_turn = false;
            session.take_turn(settings, now)
        },
        (ChatPhase::Feed { prompt, fed }, ChatEvent::Sampled(token)) => session.feed(
            settings,
            prompt,
            fed,
            token,
            now,
        ),
        (ChatPhase::Reply, ChatEvent::Sampled(token)) => {
            session.next_token = token;
            session.state.metrics.increment_token();
            session.state.advance();
            session.take_turn(settings, now)
        },
        (ChatPhase::Absorb, _) => {
            session.state.advance();
            session.end_reply(now)
        },
        (_, _) => (ChatAction::Exit, None),
    }
}

/// Every step keeps the chat within its context window.
pub proof fn law_chat_stays_in_window(
    chat: ChatState,
    settings: ChatSettings,
    event: ChatEvent<Seq<char>, Seq<usize>>,
    now: u64,
)
    requires
        chat.wf(settings),
        chat.awaits(event),
    ensures
        chat.next(settings, event, now).to.wf(settings),
{
}

/// How many positions the caches of a model hold after an action, where they held `cached`.
pub open spec fn cached_after(action: ChatAction<Seq<char>, Seq<usize>>, cached: nat) -> nat {
    match action {
        ChatAction::ResetCache { .. } => 0,
        ChatAction::Prefill(tokens) => tokens.len(),
        ChatAction::Forward { .. } => cached + 1,
        ChatAction::Speak { .. } => cached + 1,
        ChatAction::Absorb { .. } => cached + 1,
        _ => cached,
    }
}

/// Whether a model whose caches hold `cached` positions can carry out the action: single tokens
/// come at the next position, and prompts fit into the context window.
pub open spec fn feasible(action: ChatAction<Seq<char>, Seq<usize>>, seq_len: usize, cached: nat) -> bool {
    match action {
        ChatAction::Prefill(tokens) => 0 < tokens.len() <= seq_len,
        ChatAction::Forward { pos, .. } => qwen3_5::position_fault(seq_len, cached as usize, pos) is None,
        ChatAction::Speak { pos, .. } => qwen3_5::position_fault(seq_len, cached as usize, pos) is None,
        ChatAction::Absorb { pos, .. } => qwen3_5::position_fault(seq_len, cached as usize, pos) is None,
        _ => true,
    }
}

impl ChatState {
    /// Whether the caches of the model, with `cached` positions, hold what the chat has come to:
    /// its own position, and the tokens that are being processed.
    pub open spec fn in_step(self, cached: nat) -> bool {
        match self.phase {
            ChatPhase::Begin => true,
            ChatPhase::Prefill(count) => cached == count,
            ChatPhase::Feed { .. } => cached == self.state.pos + 1,
            ChatPhase::Reply => cached == self.state.pos + 1,
            ChatPhase::Absorb => cached == self.state.pos + 1,
            _ => cached == self.state.pos,
        }
    }
}

/// A model that carries out the actions of a chat holds in its caches exactly the positions that
/// the chat has come to, and can carry out every action.
pub proof fn law_chat_keeps_step_with_caches(
    chat: ChatState,
    settings: ChatSettings,
    event: ChatEvent<Seq<char>, Seq<usize>>,
    now: u64,
    cached: nat,
)
    requires
        chat.wf(settings),
        chat.awaits(event),
        chat.in_step(cached),
    ensures
        ({
            let step = chat.next(settings, event, now);
            &&& feasible(step.action, settings.config.seq_len, cached)
            &&& step.to.in_step(cached_after(step.action, cached))
        }),
{
}

/// The assistant says no token that ends a turn, and takes every such token into the transcript.
pub proof fn law_spoken_tokens_end_no_turn(
    chat: ChatState,
    settings: ChatSettings,
    event: ChatEvent<Seq<char>, Seq<usize>>,
    now: u64,
)
    requires
        chat.awaits(event),
    ensures
        match chat.next(settings, event, now).action {
            ChatAction::Speak { token, .. } => !settings.stops(token),
            ChatAction::Absorb { token, .. } => settings.stops(token),
            _ => true,
        },
{
}

/// Where the words of the user are given beforehand, nobody is asked for a line.
pub proof fn law_given_prompt_needs_no_line(
    chat: ChatState,
    settings: ChatSettings,
    event: ChatEvent<Seq<char>, Seq<usize>>,
    now: u64,
)
    requires
        settings.cli_user_prompt is Some,
    ensures
        !(chat.next(settings, event, now).action is ReadLine),
{
}

/// A token that ends the turn of the assistant is neither said nor sampled after. It is processed at
/// the next position where the context window has room; where it has none, the turn just ends. Either
/// way the user comes next, the token stays, and counting starts anew.
pub proof fn law_stop_token_is_taken_where_there_is_room(chat: ChatState, settings: ChatSettings, now: u64)
    requires
        settings.stops(chat.next_token),
        chat.state.pos < usize::MAX,
    ensures
        ({
            let token = chat.next_token;
            let pos = chat.state.pos;
            let first = chat.assistant_step(settings, now);
            let last = if pos < settings.config.seq_len {
                first.to.next(settings, ChatEvent::Done, now)
            } else {
                first
            };
            &&& pos < settings.config.seq_len ==> first.action == ChatAction::<Seq<char>, Seq<usize>>::Absorb {
                token,
                pos,
            } && first.to.phase is Absorb && last.to.state.pos == pos + 1
            &&& pos >= settings.config.seq_len ==> last.to.state.pos == pos
            &&& last.action is EndLine
            &&& last.report == chat.state.metrics.report(now)
            &&& last.to.phase is Turn
            &&& last.to.user_turn
            &&& last.to.next_token == token
            &&& last.to.state.metrics == TokenMetrics::idle()
        }),
{
}

/// What a chat does with a token that was sampled for the assistant, where it has come to position
/// `pos`: a full context window makes it begin anew, a token named as the end is taken in, and every
/// other token is said.
pub open spec fn answered(settings: ChatSettings, token: usize, pos: int) -> ChatAction<Seq<char>, Seq<usize>> {
    if pos >= settings.config.seq_len {
        ChatAction::ResetCache { rollover: true }
    } else if generation::named_end(token, settings.tokenizer, settings.config) {
        ChatAction::Absorb { token, pos: pos as usize }
    } else {
        ChatAction::Speak { token, pos: pos as usize }
    }
}

/// How many tokens of a prompt the context window has room for behind position `pos`.
pub open spec fn taken_in(tokens: Seq<usize>, pos: usize, seq_len: usize) -> int {
    vstd::math::min(tokens.len() as int, seq_len - pos)
}

/// The step of a user turn after `k` of its tokens were processed, where the prompt has become
/// `tokens` and each processed token gave a sample.
pub open spec fn fed(
    chat: ChatState,
    settings: ChatSettings,
    tokens: Seq<usize>,
    samples: Seq<usize>,
    times: Seq<u64>,
    k: nat,
) -> ChatStep
    decreases k,
{
    if k == 0 {
        chat.next(settings, ChatEvent::Tokens(tokens), times[0])
    } else {
        fed(chat, settings, tokens, samples, times, (k - 1) as nat).to.next(
            settings,
            ChatEvent::Sampled(samples[k - 1]),
            times[k as int],
        )
    }
}

/// Over a user turn at a later position, the tokens of the prompt are processed one by one in their
/// order, each at the position behind the one before, as far as the context window has room. The
/// last sample is then what the assistant begins with; nothing of the prompt is processed twice.
pub proof fn law_prompt_is_fed_in_order(
    chat: ChatState,
    settings: ChatSettings,
    tokens: Seq<usize>,
    samples: Seq<usize>,
    times: Seq<u64>,
    k: nat,
)
    requires
        chat.phase is Tokens,
        0 < chat.state.pos <= settings.config.seq_len,
        0 < taken_in(tokens, chat.state.pos, settings.config.seq_len),
        k <= taken_in(tokens, chat.state.pos, settings.config.seq_len),
    ensures
        ({
            let step = fed(chat, settings, tokens, samples, times, k);
            let pos = chat.state.pos;
            if k < taken_in(tokens, pos, settings.config.seq_len) {
                &&& step.action == ChatAction::<Seq<char>, Seq<usize>>::Forward {
                    token: tokens[k as int],
                    pos: (pos + k) as usize,
                }
                &&& step.report is None
                &&& step.to.state.pos == pos + k
                &&& step.to.state.metrics == chat.state.metrics
                &&& step.to.user_turn == chat.user_turn
                &&& step.to.phase == (ChatPhase::Feed {
                    prompt: tokens.take(taken_in(tokens, pos, settings.config.seq_len)),
                    fed: k as usize,
                })
            } else {
                &&& step.action == answered(settings, samples[k - 1], pos + k)
                &&& step.to.next_token == samples[k - 1]
                &&& pos + k < settings.config.seq_len ==> step.to.state.pos == pos + k && !step.to.user_turn
            }
        }),
    decreases k,
{
    if k > 0 {
        law_prompt_is_fed_in_order(chat, settings, tokens, samples, times, (k - 1) as nat);
        generation::lemma_named_ends(samples[k - 1], settings.tokenizer, settings.config);
    }
}

/// At the first position the prompt is processed as a whole, from its first token on and as far as
/// the context window has room. The sample is then what the assistant begins with, behind the
/// prompt.
pub proof fn law_first_prompt_is_processed_whole(
    chat: ChatState,
    settings: ChatSettings,
    tokens: Seq<usize>,
    sampled: Option<usize>,
    now: u64,
    later: u64,
)
    requires
        chat.phase is Tokens,
        chat.state.pos == 0,
        0 < taken_in(tokens, 0, settings.config.seq_len),
    ensures
        ({
            let count = taken_in(tokens, 0, settings.config.seq_len);
            let first = chat.next(settings, ChatEvent::Tokens(tokens), now);
            let then = first.to.next(settings, ChatEvent::Prefilled(sampled), later);
            let token = match sampled {
                Some(token) => token,
                None => chat.next_token,
            };
            &&& first.action == ChatAction::<Seq<char>, Seq<usize>>::Prefill(tokens.take(count))
            &&& first.report is None
            &&& then.action == answered(settings, token, count)
            &&& then.to.next_token == token
            &&& count < settings.config.seq_len ==> then.to.state.pos == count && !then.to.user_turn
        }),
{
    let token = match sampled {
        Some(token) => token,
        None => chat.next_token,
    };
    generation::lemma_named_ends(token, settings.tokenizer, settings.config);
}

/// A prompt without tokens, or for which there is no room, is passed over: the assistant goes on
/// with the token that it has.
pub proof fn law_empty_prompt_is_passed_over(chat: ChatState, settings: ChatSettings, tokens: Seq<usize>, now: u64)
    requires
        chat.phase is Tokens,
        chat.state.pos <= settings.config.seq_len,
        taken_in(tokens, chat.state.pos, settings.config.seq_len) == 0,
    ensures
        chat.next(settings, ChatEvent::Tokens(tokens), now).action == answered(
            settings,
            chat.next_token,
            chat.state.pos as int,
        ),
        chat.next(settings, ChatEvent::Tokens(tokens), now).to.next_token == chat.next_token,
{
    generation::lemma_named_ends(chat.next_token, settings.tokenizer, settings.config);
}

/// The step of a reply after `k + 1` samples, from a chat on whose behalf a token is being said.
pub open spec fn replied(chat: ChatState, settings: ChatSettings, samples: Seq<usize>, times: Seq<u64>, k: nat) -> ChatStep
    decreases k,
{
    let before = if k == 0 {
        chat
    } else {
        replied(chat, settings, samples, times, (k - 1) as nat).to
    };
    before.next(settings, ChatEvent::Sampled(samples[k as int]), times[k as int])
}

/// Over a reply, each sample is said in its order, at the position behind the one before, until one
/// is named as the end or the context window is full. Every token that was said is counted, and
/// where the window is full the count and the time since the first one are reported.
pub proof fn law_reply_says_what_was_sampled(
    chat: ChatState,
    settings: ChatSettings,
    samples: Seq<usize>,
    times: Seq<u64>,
    k: nat,
)
    requires
        chat.phase is Reply,
        !chat.user_turn,
        chat.state.pos + 1 + k <= settings.config.seq_len,
        chat.state.metrics.generated_count + 1 + k <= usize::MAX,
        chat.state.metrics.start_time is Some,
        forall|j: int|
            0 <= j < k ==> !generation::named_end(#[trigger] samples[j], settings.tokenizer, settings.config),
    ensures
        ({
            let step = replied(chat, settings, samples, times, k);
            let pos = chat.state.pos + 1 + k;
            let count = chat.state.metrics.generated_count + 1 + k;
            let start = chat.state.metrics.start_time->Some_0;
            &&& step.action == answered(settings, samples[k as int], pos)
            &&& step.to.next_token == samples[k as int]
            &&& if step.action is ResetCache {
                &&& step.to.state.pos == 0
                &&& step.to.user_turn
                &&& step.report == if start < times[k as int] {
                    Some(Report { generated: count as usize, nanos: (times[k as int] - start) as u64 })
                } else {
                    None
                }
            } else {
                &&& step.to.state.pos == pos
                &&& !step.to.user_turn
                &&& step.report is None
                &&& step.to.state.metrics == (TokenMetrics {
                    start_time: Some(start),
                    generated_count: count as usize,
                })
                &&& step.to.phase is Reply <==> step.action is Speak
            }
        }),
    decreases k,
{
    generation::lemma_named_ends(samples[k as int], settings.tokenizer, settings.config);
    if k > 0 {
        assert(!generation::named_end(samples[k - 1], settings.tokenizer, settings.config));
        law_reply_says_what_was_sampled(chat, settings, samples, times, (k - 1) as nat);
    }
}

/// The clock of a reply starts with its first token, and it is said as it was sampled.
pub proof fn law_first_word_starts_the_clock(chat: ChatState, settings: ChatSettings, now: u64)
    requires
        chat.phase is Turn,
        !chat.user_turn,
        chat.state.metrics == TokenMetrics::idle(),
    ensures
        ({
            let step = chat.next(settings, ChatEvent::Done, now);
            &&& step.action == answered(settings, chat.next_token, chat.state.pos as int)
            &&& step.action is Speak ==> step.to.phase is Reply && step.to.state.metrics == (TokenMetrics {
                start_time: Some(now),
                generated_count: 0,
            })
        }),
{
    generation::lemma_named_ends(chat.next_token, settings.tokenizer, settings.config);
}

/// After the end token was processed, the line ends, what was said is reported, counting begins
/// anew, and it is the turn of the user, one position further.
pub proof fn law_reply_ends_with_its_report(chat: ChatState, settings: ChatSettings, now: u64)
    requires
        chat.phase is Absorb,
        chat.state.pos < usize::MAX,
    ensures
        ({
            let step = chat.next(settings, ChatEvent::Done, now);
            let metrics = chat.state.metrics;
            &&& step.action is EndLine
            &&& step.to.phase is Turn
            &&& step.to.user_turn
            &&& step.to.next_token == chat.next_token
            &&& step.to.state.pos == chat.state.pos + 1
            &&& step.to.state.metrics == (TokenMetrics { start_time: None, generated_count: 0 })
            &&& step.report is Some <==> {
                &&& metrics.generated_count > 0
                &&& metrics.start_time matches Some(start) && start < now
            }
            &&& step.report matches Some(report) ==> {
                &&& report.generated == metrics.generated_count
                &&& report.nanos == now - metrics.start_time->Some_0
            }
        }),
{
}

/// The prompt for what the user says: rendered from the templates of the tokenizer, each in its own
/// place, with the system prompt of the chat.
pub open spec fn encoded(settings: ChatSettings, pos: usize, words: Seq<char>) -> ChatAction<Seq<char>, Seq<usize>> {
    ChatAction::Encode(
        generation::rendered(
            pos,
            opt_string(settings.system_prompt),
            words,
            settings.tokenizer.prompt_template@,
            settings.tokenizer.system_prompt_template@,
        ),
    )
}

/// On the turn of the user a line is asked for where no words were given beforehand. Words given
/// beforehand are taken at the first position, even where there are none of them, and end the chat
/// after it.
pub proof fn law_user_turn_hears_the_user(chat: ChatState, settings: ChatSettings, now: u64)
    requires
        chat.phase is UserTurn || (chat.phase is Turn && chat.user_turn && chat.state.pos < settings.config.seq_len),
    ensures
        ({
            let step = chat.next(settings, ChatEvent::Done, now);
            &&& match settings.cli_user_prompt {
                None => step.action is ReadLine && step.to.phase is Line,
                Some(words) => if chat.state.pos == 0 {
                    step.action == encoded(settings, 0, words@) && step.to.phase is Tokens
                } else {
                    step.action is Exit && step.to.phase is Over
                },
            }
            &&& step.to.state.pos == chat.state.pos
            &&& step.to.user_turn == chat.user_turn
            &&& step.to.next_token == chat.next_token
        }),
{
}

/// A line of the user, without the white space around it, goes into the prompt. A line of white
/// space alone ends the chat.
pub proof fn law_line_becomes_the_prompt(chat: ChatState, settings: ChatSettings, line: Seq<char>, now: u64)
    requires
        chat.phase is Line,
        settings.cli_user_prompt is None,
    ensures
        ({
            let step = chat.next(settings, ChatEvent::Line(line), now);
            let blank = forall|k: int|
                0 <= k < line.len() ==> text::white_space_code_points().contains(#[trigger] line[k] as int);
            &&& blank ==> step.action is Exit && step.to.phase is Over
            &&& !blank ==> step.action == encoded(settings, chat.state.pos, text::trimmed(line)) && step.to.phase
                is Tokens
            &&& step.report is None
            &&& step.to.state == chat.state
            &&& step.to.user_turn == chat.user_turn
            &&& step.to.next_token == chat.next_token
        }),
{
    let ends = text::law_trimming_leaves_out_white_space(line);
    if ends.0 < ends.1 {
        assert(!text::white_space_code_points().contains(line[ends.0] as int));
    } else {
        assert forall|k: int| 0 <= k < line.len() implies text::white_space_code_points().contains(
            #[trigger] line[k] as int,
        ) by {
            assert(k < ends.0 || ends.1 <= k);
        }
    }
}

/// A chat begins with fresh caches and the user. Where the context window is full on any turn, it
/// begins anew in the same way, at the first position, and the counts are reported and dropped.
pub proof fn law_full_window_begins_anew(chat: ChatState, settings: ChatSettings, now: u64)
    ensures
        chat.phase is Begin ==> {
            let step = chat.next(settings, ChatEvent::Done, now);
            &&& step.action == ChatAction::<Seq<char>, Seq<usize>>::ResetCache { rollover: false }
            &&& step.to.phase is Turn
            &&& step.to.state == chat.state
            &&& step.to.user_turn == chat.user_turn
            &&& step.report is None
        },
        chat.phase is Turn && chat.state.pos >= settings.config.seq_len ==> {
            let step = chat.next(settings, ChatEvent::Done, now);
            &&& step.action == ChatAction::<Seq<char>, Seq<usize>>::ResetCache { rollover: true }
            &&& step.to.phase is UserTurn
            &&& step.to.user_turn
            &&& step.to.state.pos == 0
            &&& step.to.state.metrics == (TokenMetrics { start_time: None, generated_count: 0 })
            &&& step.report == chat.state.metrics.report(now)
        },
{
}

/// What a chat waits for is what its action brings: a line after asking for one, tokens after a text
/// to encode, the outcome of a prompt after a prompt, a sample after a token that is to be sampled
/// after, and nothing where the chat is over. After every other action it waits for it to be done.
pub proof fn law_actions_are_answered_by_their_events(
    chat: ChatState,
    settings: ChatSettings,
    event: ChatEvent<Seq<char>, Seq<usize>>,
    now: u64,
    answer: ChatEvent<Seq<char>, Seq<usize>>,
)
    requires
        chat.awaits(event),
    ensures
        ({
            let step = chat.next(settings, event, now);
            step.to.awaits(answer) <==> match step.action {
                ChatAction::ReadLine => answer is Line,
                ChatAction::Encode(_) => answer is Tokens,
                ChatAction::Prefill(_) => answer is Prefilled,
                ChatAction::Forward { .. } => answer is Sampled,
                ChatAction::Speak { .. } => answer is Sampled,
                ChatAction::ResetCache { .. } => answer is Done,
                ChatAction::Absorb { .. } => answer is Done,
                ChatAction::EndLine => answer is Done,
                ChatAction::Exit => false,
            }
        }),
{
}

} // verus!
