//! Configurations as they are published.

use qwen3_rs::export::architecture::ArchitectureId;
use qwen3_rs::export::chat_eos::load_chat_eos;
use qwen3_rs::export::config_loader::{
    detect_model_type, head_dim, load_base_model_config, load_hf_config, load_model_info, ConfigDocument, ConfigFault,
    Detected, FlatConfig, InfoFault, LoRAConfig, ModelConfig, ModelType, RopeParameters, Rotary,
};

fn number(section: &serde_json::Value, key: &str) -> Option<u32> {
    section.get(key).and_then(|v| v.as_u64()).map(|n| n as u32)
}

fn flat(section: &serde_json::Value) -> FlatConfig {
    let mut hf = FlatConfig {
        hidden_size: number(section, "hidden_size").unwrap(),
        intermediate_size: number(section, "intermediate_size").unwrap(),
        num_hidden_layers: number(section, "num_hidden_layers").unwrap(),
        num_attention_heads: number(section, "num_attention_heads").unwrap(),
        num_key_value_heads: number(section, "num_key_value_heads").unwrap(),
        vocab_size: number(section, "vocab_size").unwrap(),
        max_position_embeddings: number(section, "max_position_embeddings").unwrap(),
        rms_norm_eps: (section.get("rms_norm_eps").unwrap().as_f64().unwrap() as f32).to_bits(),
        head_dim: number(section, "head_dim"),
        bos_token_id: number(section, "bos_token_id"),
        eos_token_id: number(section, "eos_token_id"),
        hidden_act: section.get("hidden_act").and_then(|v| v.as_str()).map(String::from),
        attention_bias: section.get("attention_bias").and_then(|v| v.as_bool()),
        tie_word_embeddings: section.get("tie_word_embeddings").and_then(|v| v.as_bool()),
        layer_types: section
            .get("layer_types")
            .and_then(|v| v.as_array())
            .map(|items| items.iter().map(|v| String::from(v.as_str().unwrap())).collect()),
        linear_num_key_heads: number(section, "linear_num_key_heads"),
        linear_num_value_heads: number(section, "linear_num_value_heads"),
        linear_key_head_dim: number(section, "linear_key_head_dim"),
        linear_value_head_dim: number(section, "linear_value_head_dim"),
        linear_conv_kernel_dim: number(section, "linear_conv_kernel_dim"),
        rope_parameters: None,
    };
    if let Some(rope) = section.get("rope_parameters") {
        let factor = rope.get("partial_rotary_factor").unwrap().as_f64().unwrap() as f32;
        let theta = rope.get("rope_theta").unwrap().as_f64().unwrap() as f32;
        let computed = head_dim(&hf) as f32 * factor;
        let whole = computed as u32;
        hf.rope_parameters = Some(RopeParameters {
            rope_theta: theta.to_bits(),
            rotary: if (computed - whole as f32).abs() > 1e-6 {
                Rotary::Broken { computed: format!("{computed}"), factor: format!("{factor}") }
            } else {
                Rotary::Whole(whole)
            },
        });
    }
    hf
}

fn load(contents: &str, tokenizer_config: Option<&str>, tokenizer: Option<&str>) -> Result<ModelConfig, String> {
    let document = match ConfigDocument::read(contents) {
        Ok(document) => document,
        Err(fault) => return Err(fault.message()),
    };
    let hf = flat(document.section());
    match load_hf_config(document.architecture(), &hf, load_chat_eos(tokenizer_config, tokenizer)) {
        Ok(config) => Ok(config),
        Err(fault) => Err(fault.message()),
    }
}

const VALID: &str = r#"{
        "architectures": ["Qwen3ForCausalLM"],
        "hidden_size": 256,
        "intermediate_size": 1024,
        "num_hidden_layers": 4,
        "num_attention_heads": 8,
        "num_key_value_heads": 8,
        "vocab_size": 1000,
        "max_position_embeddings": 512,
        "rms_norm_eps": 1e-6,
        "head_dim": 32,
        "bos_token_id": 1,
        "eos_token_id": 2
    }"#;

const OFFICIAL_2B: &str = r#"{
        "architectures": ["Qwen3_5ForConditionalGeneration"],
        "model_type": "qwen3_5",
        "text_config": {
            "attention_bias": false,
            "eos_token_id": 248044,
            "head_dim": 256,
            "hidden_act": "silu",
            "hidden_size": 2048,
            "intermediate_size": 6144,
            "layer_types": [
                "linear_attention", "linear_attention", "linear_attention", "full_attention",
                "linear_attention", "linear_attention", "linear_attention", "full_attention",
                "linear_attention", "linear_attention", "linear_attention", "full_attention",
                "linear_attention", "linear_attention", "linear_attention", "full_attention",
                "linear_attention", "linear_attention", "linear_attention", "full_attention",
                "linear_attention", "linear_attention", "linear_attention", "full_attention"
            ],
            "linear_conv_kernel_dim": 4,
            "linear_key_head_dim": 128,
            "linear_num_key_heads": 16,
            "linear_num_value_heads": 16,
            "linear_value_head_dim": 128,
            "max_position_embeddings": 262144,
            "num_attention_heads": 8,
            "num_hidden_layers": 24,
            "num_key_value_heads": 2,
            "rms_norm_eps": 1e-6,
            "rope_parameters": { "partial_rotary_factor": 0.25, "rope_theta": 10000000 },
            "tie_word_embeddings": true,
            "vocab_size": 248320
        }
    }"#;

const TOKENIZER_2B: &str = r#"{
        "added_tokens_decoder": {
            "248044": { "content": "<|endoftext|>", "special": true },
            "248045": { "content": "<|im_start|>", "special": true },
            "248046": { "content": "<|im_end|>", "special": true }
        },
        "eos_token": "<|im_end|>"
    }"#;

#[test]
fn test_load_hf_config_valid() {
    let config = load(VALID, None, None).unwrap();
    assert_eq!(config.dim, 256);
    assert_eq!(config.hidden_dim, 1024);
    assert_eq!(config.n_layers, 4);
    assert_eq!(config.n_heads, 8);
    assert_eq!(config.n_kv_heads, 8);
    assert_eq!(config.vocab_size, 1000);
    assert_eq!(config.max_seq_len, 512);
    assert_eq!(config.head_dim, 32);
    assert!((f32::from_bits(config.norm_eps) - 1e-6).abs() < 1e-9);
    assert_eq!(config.bos_token_id, 1);
    assert_eq!(config.eos_token_id, 2);
    assert_eq!(config.architecture, ArchitectureId::Qwen3ForCausalLM);
    assert_eq!(config.qwen35, None);
}

#[test]
fn test_load_hf_config_invalid_json() {
    let result = load("invalid json", None, None);
    assert!(result.is_err());
    assert_eq!(result.unwrap_err(), "Failed to parse config.json: expected value at line 1 column 1");
}

#[test]
fn test_load_hf_config_missing_required_field() {
    let contents = r#"{
        "intermediate_size": 1024,
        "num_hidden_layers": 4
    }"#;
    let result = load(contents, None, None);
    assert!(result.is_err());
    assert!(result.unwrap_err().contains("architectures"));
}

#[test]
fn test_load_official_qwen35_2b_config() {
    let config = load(OFFICIAL_2B, Some(TOKENIZER_2B), None).unwrap();
    assert_eq!(config.architecture, ArchitectureId::Qwen3_5ForConditionalGeneration);
    assert_eq!(config.dim, 2048);
    assert_eq!(config.hidden_dim, 6144);
    assert_eq!(config.n_layers, 24);
    assert_eq!(config.n_heads, 8);
    assert_eq!(config.n_kv_heads, 2);
    assert_eq!(config.head_dim, 256);
    assert_eq!(config.vocab_size, 248_320);
    assert_eq!(config.max_seq_len, 262_144);
    assert_eq!(config.eos_token_id, 248_044);
    let q35 = config.qwen35.expect("Qwen3.5 metadata");
    assert_eq!(q35.chat_eos, 248_046);
    assert_eq!(q35.n_linear_k_heads, 16);
    assert_eq!(q35.n_linear_v_heads, 16);
    assert_eq!(q35.linear_k_head_dim, 128);
    assert_eq!(q35.linear_v_head_dim, 128);
    assert_eq!(q35.conv_kernel_size, 4);
    assert_eq!(q35.rotary_dim, 64);
    assert_eq!(q35.full_attention_mask, 0x88_88_88);
    assert_eq!(f32::from_bits(q35.rope_theta), 10_000_000.0);
}

#[test]
fn test_load_hf_config_with_defaults() {
    let contents = r#"{
        "architectures": ["Qwen3ForCausalLM"],
        "hidden_size": 256,
        "intermediate_size": 1024,
        "num_hidden_layers": 4,
        "num_attention_heads": 8,
        "num_key_value_heads": 8,
        "vocab_size": 1000,
        "max_position_embeddings": 512,
        "rms_norm_eps": 1e-6
    }"#;
    let config = load(contents, None, None).unwrap();
    assert_eq!(config.bos_token_id, 0);
    assert_eq!(config.eos_token_id, 0);
    assert_eq!(config.head_dim, 256 / 8);
}

fn refused(contents: &str) -> String {
    load(contents, None, None).unwrap_err()
}

#[test]
fn architecture_has_to_be_one_known_name() {
    assert_eq!(
        refused(r#"{"architectures": ["GPT2LMHeadModel"]}"#),
        "Unknown ArchitectureId: GPT2LMHeadModel"
    );
    assert_eq!(refused(r#"{"architectures": [7]}"#), "architecture name is not a string");
    assert_eq!(
        refused(r#"{"architectures": ["A", 1.5, null]}"#),
        "Multiple architectures are not supported: [String(\"A\"), Number(1.5), Null]"
    );
    assert_eq!(refused(r#"{"architectures": []}"#), "Multiple architectures are not supported: []");
    assert_eq!(
        refused(r#"{"architectures": "Qwen3ForCausalLM"}"#),
        "Cannot determine architecture: missing 'architectures' field"
    );
    assert_eq!(refused("[]"), "Cannot determine architecture: missing 'architectures' field");
}

#[test]
fn qwen35_needs_a_text_section() {
    assert_eq!(
        refused(r#"{"architectures": ["Qwen3_5ForConditionalGeneration"]}"#),
        "Missing 'text_config' field for Qwen3.5 architecture"
    );
}

#[test]
fn other_architectures_are_read_from_the_root() {
    let contents = VALID.replace("Qwen3ForCausalLM", "LlamaForCausalLM");
    let config = load(&contents, None, None).unwrap();
    assert_eq!(config.architecture, ArchitectureId::LlamaForCausalLM);
    assert_eq!(config.qwen35, None);
}

fn variant(from: &str, to: &str) -> Result<ModelConfig, String> {
    assert!(OFFICIAL_2B.contains(from));
    load(&OFFICIAL_2B.replacen(from, to, 1), None, None)
}

#[test]
fn qwen35_features_are_checked() {
    let missing = |name: &str| format!("Qwen3.5 config missing required field '{name}'");
    assert_eq!(variant("\"hidden_act\": \"silu\",", "").unwrap_err(), missing("hidden_act"));
    assert_eq!(
        variant("\"silu\"", "\"gelu\"").unwrap_err(),
        "Qwen3.5 requires hidden_act='silu', got 'gelu'"
    );
    assert_eq!(variant("\"attention_bias\": false,", "").unwrap_err(), missing("attention_bias"));
    assert_eq!(
        variant("\"attention_bias\": false", "\"attention_bias\": true").unwrap_err(),
        "Qwen3.5 requires attention_bias=false, got true"
    );
    assert_eq!(variant("\"tie_word_embeddings\": true,", "").unwrap_err(), missing("tie_word_embeddings"));
    assert_eq!(
        variant("\"tie_word_embeddings\": true", "\"tie_word_embeddings\": false").unwrap_err(),
        "Qwen3.5 requires tie_word_embeddings=true, got false"
    );
    assert_eq!(variant("\"layer_types\"", "\"layers\"").unwrap_err(), missing("layer_types"));
    assert_eq!(variant("\"linear_num_key_heads\"", "\"a\"").unwrap_err(), missing("linear_num_key_heads"));
    assert_eq!(variant("\"linear_num_value_heads\"", "\"a\"").unwrap_err(), missing("linear_num_value_heads"));
    assert_eq!(variant("\"linear_key_head_dim\"", "\"a\"").unwrap_err(), missing("linear_key_head_dim"));
    assert_eq!(variant("\"linear_value_head_dim\"", "\"a\"").unwrap_err(), missing("linear_value_head_dim"));
    assert_eq!(variant("\"linear_conv_kernel_dim\"", "\"a\"").unwrap_err(), missing("linear_conv_kernel_dim"));
    assert_eq!(variant("\"rope_parameters\"", "\"a\"").unwrap_err(), missing("rope_parameters"));
}

#[test]
fn qwen35_layers_are_checked() {
    assert_eq!(
        variant("\"num_hidden_layers\": 24", "\"num_hidden_layers\": 65").unwrap_err(),
        "Qwen3.5 v2 supports at most 64 layers, got 65"
    );
    assert_eq!(
        variant("\"num_hidden_layers\": 24", "\"num_hidden_layers\": 23").unwrap_err(),
        "Qwen3.5 layer_types length 24 does not match num_hidden_layers 23"
    );
    assert_eq!(
        variant("\"full_attention\"", "\"sliding\"").unwrap_err(),
        "Qwen3.5 unknown layer_type 'sliding' at index 3, expected 'full_attention' or 'linear_attention'"
    );
}

#[test]
fn qwen35_rotary_dimension_has_to_be_whole() {
    assert_eq!(
        variant("0.25", "0.3").unwrap_err(),
        "Qwen3.5 rotary_dim (76.8) from head_dim=256 * partial_rotary_factor=0.3 is not integral"
    );
}

#[test]
fn mask_marks_full_attention_layers() {
    let config = variant("\"linear_attention\", \"linear_attention\"", "\"full_attention\", \"linear_attention\"").unwrap();
    assert_eq!(config.qwen35.unwrap().full_attention_mask, 0x88_88_89);
}

#[test]
fn chat_token_falls_back_to_the_end_of_text() {
    let config = load(OFFICIAL_2B, None, None).unwrap();
    assert_eq!(config.qwen35.unwrap().chat_eos, 248_044);
}

#[test]
fn model_type_follows_from_the_files() {
    assert!(matches!(detect_model_type("m", true, true), Ok(Detected::BaseWithAdapter)));
    assert!(matches!(detect_model_type("m", true, false), Ok(Detected::Base)));
    let only = detect_model_type("m", false, true).unwrap_err();
    assert!(matches!(only, ConfigFault::OnlyAdapter(_)));
    assert_eq!(
        only.message(),
        "Only LoRA config is found in m. Make sure to have base model files in the same directory"
    );
    assert_eq!(
        detect_model_type("m", false, false).unwrap_err().message(),
        "No valid configuration files found in m"
    );
    assert!(load_base_model_config("m", true).is_ok());
    assert_eq!(
        load_base_model_config("m", false).unwrap_err().message(),
        "Base model config.json not found in m. For LoRA models, ensure the base model config is available."
    );
}

fn lora() -> LoRAConfig {
    LoRAConfig {
        lora_alpha: 16.0f32.to_bits(),
        r: 8,
        target_modules: vec![String::from("q_proj")],
        base_model_name_or_path: None,
    }
}

#[test]
fn model_information_is_what_the_files_hold() {
    let config = load(VALID, None, None).unwrap();
    let base = load_model_info("m", true, false, Err("no adapter"), Ok(config)).unwrap();
    assert_eq!(base.model_type, ModelType::Base);
    assert_eq!(base.config, config);
    let adapted = load_model_info("m", true, true, Ok::<LoRAConfig, &str>(lora()), Ok(config)).unwrap();
    assert_eq!(adapted.model_type, ModelType::LoRA(lora()));
    assert_eq!(adapted.config, config);
}

#[test]
fn model_information_needs_its_files() {
    let config = load(VALID, None, None).unwrap();
    let only = load_model_info("m", false, true, Ok::<LoRAConfig, &str>(lora()), Ok(config));
    assert!(matches!(only, Err(InfoFault::Files(ConfigFault::OnlyAdapter(path))) if path == "m"));
    let none = load_model_info("m", false, false, Err("a"), Err("c"));
    assert!(matches!(none, Err(InfoFault::Files(ConfigFault::NoConfigFiles(_)))));
    let adapter = load_model_info("m", true, true, Err("a"), Err("c"));
    assert!(matches!(adapter, Err(InfoFault::Adapter("a"))));
    let broken = load_model_info("m", true, true, Ok(lora()), Err("c"));
    assert!(matches!(broken, Err(InfoFault::Config("c"))));
}
