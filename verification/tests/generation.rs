//! When generation stops, how prompts are put together, and how tokens are counted.

use qwen3_rs::inference::configuration::{ModelConfig, ModelConfigV2};
use qwen3_rs::inference::generation::{
    get_user_input, is_termination_token, render_prompt, GenerationState, Report, TokenMetrics, Tokenizer, UserInput,
};

fn v1_config() -> ModelConfig {
    ModelConfig {
        architecture_id: 1,
        dim: 64,
        hidden_dim: 256,
        n_layers: 2,
        n_heads: 4,
        n_kv_heads: 2,
        head_dim: 16,
        seq_len: 128,
        vocab_size: 1000,
        group_size: 32,
        shared_classifier: true,
        v2: None,
    }
}

fn v2_config() -> ModelConfig {
    ModelConfig {
        architecture_id: 3,
        v2: Some(ModelConfigV2 {
            norm_eps: 1e-6f32.to_bits(),
            n_linear_k_heads: 4,
            n_linear_v_heads: 4,
            linear_k_head_dim: 16,
            linear_v_head_dim: 16,
            conv_kernel_size: 4,
            rope_theta: 10000000.0f32.to_bits(),
            rotary_dim: 64,
            full_attention_mask: 0b0000100010001000,
            model_eos: 999,
            chat_eos: 998,
        }),
        ..v1_config()
    }
}

fn tokenizer(bos: u32) -> Tokenizer {
    Tokenizer {
        bos_token_id: bos,
        eos_token_id: 2,
        prompt_template: String::from("<u>%s</u>"),
        system_prompt_template: String::from("<s>%s</s>"),
    }
}

#[test]
fn test_v1_stops_on_eos() {
    assert!(is_termination_token(2, &tokenizer(1), &v1_config()));
}

#[test]
fn test_v1_stops_on_bos() {
    assert!(is_termination_token(1, &tokenizer(1), &v1_config()));
}

#[test]
fn test_v1_non_terminal_passes() {
    assert!(!is_termination_token(42, &tokenizer(1), &v1_config()));
}

#[test]
fn test_v2_stops_on_eos() {
    assert!(is_termination_token(2, &tokenizer(0), &v2_config()));
}

#[test]
fn test_v2_stops_on_model_eos() {
    assert!(is_termination_token(999, &tokenizer(0), &v2_config()));
}

#[test]
fn test_v2_stops_on_chat_eos() {
    assert!(is_termination_token(998, &tokenizer(0), &v2_config()));
}

#[test]
fn test_v2_does_not_stop_on_bos_zero() {
    assert!(!is_termination_token(0, &tokenizer(0), &v2_config()));
}

#[test]
fn test_v2_non_terminal_passes() {
    assert!(!is_termination_token(777, &tokenizer(0), &v2_config()));
}

#[test]
fn test_v2_also_stops_on_bos_when_nonzero() {
    assert!(!is_termination_token(1, &tokenizer(1), &v2_config()));
}

#[test]
fn prompt_of_the_user_fills_the_template() {
    assert_eq!(render_prompt(3, Some("be brief"), "hi", &tokenizer(1)), "<u>hi</u>");
    assert_eq!(render_prompt(0, None, "hi", &tokenizer(1)), "<u>hi</u>");
}

#[test]
fn system_prompt_comes_first_at_the_first_position() {
    assert_eq!(render_prompt(0, Some("be brief"), "hi", &tokenizer(1)), "<s>be brief\nhi</s>");
}

#[test]
fn every_place_in_a_template_is_filled_once() {
    let mut tok = tokenizer(1);
    tok.prompt_template = String::from("%s-%%s-%s");
    assert_eq!(render_prompt(1, None, "%s", &tok), "%s-%%s-%s");
    tok.prompt_template = String::from("no place");
    assert_eq!(render_prompt(1, None, "hi", &tok), "no place");
}

#[test]
fn given_prompt_is_used_once() {
    assert!(matches!(get_user_input(0, Some("hello")), UserInput::Given(s) if s == "hello"));
    assert!(matches!(get_user_input(7, Some("hello")), UserInput::Given(s) if s.is_empty()));
    assert!(matches!(get_user_input(0, None), UserInput::Ask));
}

#[test]
fn metrics_report_tokens_and_time() {
    let mut metrics = TokenMetrics::new();
    assert_eq!(metrics.report_and_reset(50), None);
    metrics.start_generation(100);
    metrics.increment_token();
    metrics.start_generation(200);
    metrics.increment_token();
    assert_eq!(metrics.report_and_reset(350), Some(Report { generated: 2, nanos: 250 }));
    assert_eq!(metrics, TokenMetrics::new());
}

#[test]
fn metrics_without_tokens_or_time_report_nothing() {
    let mut metrics = TokenMetrics::new();
    metrics.start_generation(100);
    assert_eq!(metrics.report_and_reset(350), None);
    metrics.start_generation(100);
    metrics.increment_token();
    assert_eq!(metrics.report_and_reset(100), None);
    assert_eq!(metrics.generated_count, 0);
    metrics.increment_token();
    assert_eq!(metrics.report_and_reset(100), None);
    assert_eq!(metrics.generated_count, 0);
}

#[test]
fn state_advances_and_resets() {
    let mut state = GenerationState::new();
    state.advance();
    state.advance();
    state.metrics.start_generation(5);
    state.metrics.increment_token();
    assert_eq!(state.pos, 2);
    assert_eq!(state.reset(9), Some(Report { generated: 1, nanos: 4 }));
    assert_eq!(state, GenerationState::new());
}
