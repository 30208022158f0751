//! Chats.

use qwen3_rs::inference::chat::{chat, ChatAction, ChatEvent, ChatSession, ChatSettings};
use qwen3_rs::inference::configuration::ModelConfig;
use qwen3_rs::inference::generation::{Report, Tokenizer};

type Action = ChatAction<String, Vec<usize>>;
type Event = ChatEvent<String, Vec<usize>>;

fn settings(seq_len: usize, cli: Option<&str>) -> ChatSettings {
    ChatSettings {
        tokenizer: Tokenizer {
            bos_token_id: 1,
            eos_token_id: 2,
            prompt_template: String::from("[%s]"),
            system_prompt_template: String::from("{%s}"),
        },
        config: ModelConfig {
            architecture_id: 1,
            dim: 64,
            hidden_dim: 256,
            n_layers: 2,
            n_heads: 4,
            n_kv_heads: 2,
            head_dim: 16,
            seq_len,
            vocab_size: 1000,
            group_size: 32,
            shared_classifier: true,
            v2: None,
        },
        cli_user_prompt: cli.map(String::from),
        system_prompt: Some(String::from("sys")),
    }
}

struct Driver {
    session: ChatSession,
    settings: ChatSettings,
    now: u64,
    reports: Vec<Report>,
}

impl Driver {
    fn new(seq_len: usize, cli: Option<&str>) -> Driver {
        Driver { session: ChatSession::new(), settings: settings(seq_len, cli), now: 0, reports: Vec::new() }
    }

    fn step(&mut self, event: Event) -> Action {
        assert!(self.session.is_awaited(&event));
        self.now += 10;
        let (action, report) = chat(&mut self.session, &self.settings, event, self.now);
        self.reports.extend(report);
        action
    }
}

fn line(s: &str) -> Event {
    ChatEvent::Line(String::from(s))
}

#[test]
fn conversation_goes_back_and_forth() {
    let mut chat = Driver::new(100, None);
    assert!(matches!(chat.step(ChatEvent::Done), ChatAction::ResetCache { rollover: false }));
    assert!(matches!(chat.step(ChatEvent::Done), ChatAction::ReadLine));
    assert!(matches!(chat.step(line("  hi \r\n")), ChatAction::Encode(s) if s == "{sys\nhi}"));
    assert!(matches!(chat.step(ChatEvent::Tokens(vec![10, 11])), ChatAction::Prefill(t) if t == vec![10, 11]));
    assert!(matches!(chat.step(ChatEvent::Prefilled(Some(40))), ChatAction::Speak { token: 40, pos: 2 }));
    assert!(matches!(chat.step(ChatEvent::Sampled(41)), ChatAction::Speak { token: 41, pos: 3 }));
    assert!(matches!(chat.step(ChatEvent::Sampled(2)), ChatAction::Absorb { token: 2, pos: 4 }));
    assert!(chat.reports.is_empty());
    assert!(matches!(chat.step(ChatEvent::Done), ChatAction::EndLine));
    assert_eq!(chat.reports, vec![Report { generated: 2, nanos: 30 }]);
    assert!(matches!(chat.step(ChatEvent::Done), ChatAction::ReadLine));
    assert!(matches!(chat.step(line("more")), ChatAction::Encode(s) if s == "[more]"));
    assert!(matches!(
        chat.step(ChatEvent::Tokens(vec![12, 13])),
        ChatAction::Forward { token: 12, pos: 5 }
    ));
    assert!(matches!(chat.step(ChatEvent::Sampled(50)), ChatAction::Forward { token: 13, pos: 6 }));
    assert!(matches!(chat.step(ChatEvent::Sampled(51)), ChatAction::Speak { token: 51, pos: 7 }));
    assert!(matches!(chat.step(ChatEvent::Sampled(1)), ChatAction::Absorb { token: 1, pos: 8 }));
    assert!(matches!(chat.step(ChatEvent::Done), ChatAction::EndLine));
    assert!(matches!(chat.step(ChatEvent::Done), ChatAction::ReadLine));
    assert!(matches!(chat.step(line(" \t\n")), ChatAction::Exit));
    assert!(!chat.session.is_awaited(&ChatEvent::Done));
}

#[test]
fn given_prompt_makes_a_chat_of_one_turn() {
    let mut chat = Driver::new(100, Some("hello"));
    chat.step(ChatEvent::Done);
    assert!(matches!(chat.step(ChatEvent::Done), ChatAction::Encode(s) if s == "{sys\nhello}"));
    assert!(matches!(chat.step(ChatEvent::Tokens(vec![10])), ChatAction::Prefill(_)));
    assert!(matches!(chat.step(ChatEvent::Prefilled(Some(2))), ChatAction::Absorb { token: 2, pos: 1 }));
    assert!(matches!(chat.step(ChatEvent::Done), ChatAction::EndLine));
    assert!(matches!(chat.step(ChatEvent::Done), ChatAction::Exit));
}

#[test]
fn empty_given_prompt_does_not_end_the_chat() {
    let mut chat = Driver::new(100, Some(""));
    chat.step(ChatEvent::Done);
    assert!(matches!(chat.step(ChatEvent::Done), ChatAction::Encode(s) if s == "{sys\n}"));
}

#[test]
fn full_context_starts_afresh_with_the_user() {
    let mut chat = Driver::new(3, None);
    chat.step(ChatEvent::Done);
    chat.step(ChatEvent::Done);
    chat.step(line("hi"));
    assert!(matches!(
        chat.step(ChatEvent::Tokens(vec![10, 11, 12, 13])),
        ChatAction::Prefill(t) if t == vec![10, 11, 12]
    ));
    assert!(matches!(chat.step(ChatEvent::Prefilled(Some(40))), ChatAction::ResetCache { rollover: true }));
    assert!(matches!(chat.step(ChatEvent::Done), ChatAction::ReadLine));
    assert!(matches!(chat.step(line("x")), ChatAction::Encode(s) if s == "{sys\nx}"));
    assert!(matches!(chat.step(ChatEvent::Tokens(vec![10, 11])), ChatAction::Prefill(_)));
    assert!(matches!(chat.step(ChatEvent::Prefilled(Some(41))), ChatAction::Speak { token: 41, pos: 2 }));
    assert!(matches!(chat.step(ChatEvent::Sampled(42)), ChatAction::ResetCache { rollover: true }));
    assert_eq!(chat.reports, vec![Report { generated: 1, nanos: 10 }]);
}

#[test]
fn later_prompts_are_cut_to_the_room_that_is_left() {
    let mut chat = Driver::new(4, None);
    chat.step(ChatEvent::Done);
    chat.step(ChatEvent::Done);
    chat.step(line("hi"));
    chat.step(ChatEvent::Tokens(vec![10]));
    assert!(matches!(chat.step(ChatEvent::Prefilled(Some(2))), ChatAction::Absorb { pos: 1, .. }));
    chat.step(ChatEvent::Done);
    chat.step(ChatEvent::Done);
    chat.step(line("more"));
    assert!(matches!(
        chat.step(ChatEvent::Tokens(vec![20, 21, 22])),
        ChatAction::Forward { token: 20, pos: 2 }
    ));
    assert!(matches!(chat.step(ChatEvent::Sampled(50)), ChatAction::Forward { token: 21, pos: 3 }));
    assert!(matches!(chat.step(ChatEvent::Sampled(51)), ChatAction::ResetCache { rollover: true }));
}

#[test]
fn prompt_without_tokens_leaves_the_turn_to_the_assistant() {
    let mut chat = Driver::new(4, None);
    chat.step(ChatEvent::Done);
    chat.step(ChatEvent::Done);
    chat.step(line("hi"));
    assert!(matches!(chat.step(ChatEvent::Tokens(vec![])), ChatAction::Speak { token: 0, pos: 0 }));
}

#[test]
fn prefill_without_logits_keeps_the_token() {
    let mut chat = Driver::new(4, None);
    chat.step(ChatEvent::Done);
    chat.step(ChatEvent::Done);
    chat.step(line("hi"));
    chat.step(ChatEvent::Tokens(vec![7]));
    assert!(matches!(chat.step(ChatEvent::Prefilled(None)), ChatAction::Speak { token: 0, pos: 1 }));
}

#[test]
fn no_context_means_only_fresh_starts() {
    let mut chat = Driver::new(0, None);
    chat.step(ChatEvent::Done);
    assert!(matches!(chat.step(ChatEvent::Done), ChatAction::ResetCache { rollover: true }));
    assert!(matches!(chat.step(ChatEvent::Done), ChatAction::ReadLine));
    chat.step(line("hi"));
    assert!(matches!(chat.step(ChatEvent::Tokens(vec![7])), ChatAction::ResetCache { rollover: true }));
}
