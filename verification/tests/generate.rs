//! Runs that continue a prompt.

use qwen3_rs::inference::configuration::ModelConfig;
use qwen3_rs::inference::generate::{generate, GenerateAction, GenerateEvent, GenerateFault, GeneratePhase, GenerateRun};
use qwen3_rs::inference::generation::{Report, Tokenizer};

fn config(seq_len: usize) -> ModelConfig {
    ModelConfig {
        architecture_id: 1,
        dim: 64,
        hidden_dim: 256,
        n_layers: 2,
        n_heads: 4,
        n_kv_heads: 2,
        head_dim: 16,
        seq_len,
        vocab_size: 1000,
        group_size: 32,
        shared_classifier: true,
        v2: None,
    }
}

fn tokenizer() -> Tokenizer {
    Tokenizer {
        bos_token_id: 1,
        eos_token_id: 2,
        prompt_template: String::new(),
        system_prompt_template: String::new(),
    }
}

fn begin(run: &mut GenerateRun, tokens: Vec<usize>, seq_len: usize) -> Result<GenerateAction, GenerateFault> {
    generate(run, &tokenizer(), &config(seq_len), GenerateEvent::Encoded(tokens), 0)
}

#[test]
fn prompt_has_to_fit() {
    let none = begin(&mut GenerateRun::new(), vec![], 4).unwrap_err();
    assert_eq!(none, GenerateFault::NoPrompt);
    assert_eq!(none.message(), "Please provide a prompt");
    let long = begin(&mut GenerateRun::new(), vec![5; 6], 4).unwrap_err();
    assert_eq!(long.message(), "Prompt length (6) exceeds context window (4)");
}

#[test]
fn prefill_has_to_give_logits() {
    let mut run = GenerateRun::new();
    begin(&mut run, vec![5, 6], 4).unwrap();
    let fault = generate(&mut run, &tokenizer(), &config(4), GenerateEvent::Prefilled(None), 0).unwrap_err();
    assert_eq!(fault.message(), "Prefill returned empty logits");
    assert_eq!(run.phase, GeneratePhase::Over);
}

#[test]
fn tokens_are_emitted_up_to_a_stop_token() {
    let mut run = GenerateRun::new();
    let tokenizer = tokenizer();
    let config = config(100);
    let first = begin(&mut run, vec![5, 6, 7], 100).unwrap();
    assert!(matches!(first, GenerateAction::Prefill(tokens) if tokens == vec![5, 6, 7]));
    let mut step = |event: GenerateEvent, now: u64| {
        assert!(run.is_awaited(&event));
        generate(&mut run, &tokenizer, &config, event, now).unwrap()
    };
    assert!(matches!(step(GenerateEvent::Prefilled(Some(40)), 10), GenerateAction::Emit { token: 40, pos: 3 }));
    assert!(matches!(step(GenerateEvent::Sampled(41), 20), GenerateAction::Emit { token: 41, pos: 4 }));
    assert!(matches!(
        step(GenerateEvent::Sampled(2), 35),
        GenerateAction::Finish(Some(Report { generated: 2, nanos: 25 }))
    ));
    assert!(!run.is_awaited(&GenerateEvent::Sampled(3)));
}

#[test]
fn tokens_are_emitted_up_to_the_end_of_the_context() {
    let mut run = GenerateRun::new();
    begin(&mut run, vec![5, 6, 7], 4).unwrap();
    let tokenizer = tokenizer();
    let config = config(4);
    let emit = generate(&mut run, &tokenizer, &config, GenerateEvent::Prefilled(Some(40)), 1).unwrap();
    assert!(matches!(emit, GenerateAction::Emit { token: 40, pos: 3 }));
    let end = generate(&mut run, &tokenizer, &config, GenerateEvent::Sampled(41), 1).unwrap();
    assert!(matches!(end, GenerateAction::Finish(None)));
}

#[test]
fn full_context_emits_nothing() {
    let mut run = GenerateRun::new();
    begin(&mut run, vec![5, 6, 7, 8], 4).unwrap();
    let end = generate(&mut run, &tokenizer(), &config(4), GenerateEvent::Prefilled(Some(40)), 1).unwrap();
    assert!(matches!(end, GenerateAction::Finish(None)));
}
