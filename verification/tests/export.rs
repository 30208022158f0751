//! Architectures, and what their checkpoints are made of.

use qwen3_rs::export::architecture::{
    create_architecture, AnyArchitecture, Architecture, ArchitectureId, HeaderInfo, NormWeightLayer, WeightLayer,
};
use qwen3_rs::export::chat_eos::{chat_eos_of, load_chat_eos};
use qwen3_rs::export::config_loader::{
    choose_architecture, choose_section, ArchitectureFault, ModelConfig, ModelInfo, ModelType, Qwen35Config,
};
use qwen3_rs::export::qwen3_5::Qwen3_5;
use qwen3_rs::json::{parse_json, Json};

fn config(full_attention_mask: u64, n_layers: u32) -> ModelConfig {
    ModelConfig {
        dim: 8,
        hidden_dim: 16,
        n_layers,
        n_heads: 2,
        n_kv_heads: 1,
        vocab_size: 100,
        max_seq_len: 64,
        head_dim: 4,
        norm_eps: 1e-6f32.to_bits(),
        bos_token_id: 1,
        eos_token_id: 77,
        architecture: ArchitectureId::Qwen3_5ForConditionalGeneration,
        qwen35: Some(Qwen35Config {
            chat_eos: 78,
            n_linear_k_heads: 2,
            n_linear_v_heads: 3,
            linear_k_head_dim: 4,
            linear_v_head_dim: 5,
            conv_kernel_size: 6,
            rope_theta: 1e7f32.to_bits(),
            rotary_dim: 2,
            full_attention_mask,
        }),
    }
}

#[test]
fn architectures_have_names_and_numbers() {
    let known = [
        ("Qwen3ForCausalLM", 1, ArchitectureId::Qwen3ForCausalLM),
        ("LlamaForCausalLM", 2, ArchitectureId::LlamaForCausalLM),
        ("Qwen3_5ForConditionalGeneration", 3, ArchitectureId::Qwen3_5ForConditionalGeneration),
    ];
    for (name, code, id) in known {
        assert_eq!(ArchitectureId::try_from(name).unwrap(), id);
        assert_eq!(ArchitectureId::try_from(code).unwrap(), id);
        assert_eq!(id.code(), code);
    }
    assert_eq!(ArchitectureId::try_from("qwen3").unwrap_err().message(), "Unknown ArchitectureId: qwen3");
    assert_eq!(ArchitectureId::try_from(4u32).unwrap_err().message(), "Unknown ArchitectureId: 4");
    assert_eq!(ArchitectureId::try_from(0u32).unwrap_err().message(), "Unknown ArchitectureId: 0");
}

#[test]
fn layers_are_described() {
    let norm = NormWeightLayer::new("norm", true, false);
    assert_eq!((norm.name, norm.layered, norm.is_required, norm.default_dim), ("norm", true, false, 0));
    let sized = NormWeightLayer::new_with_dim("norm", false, true, 9);
    assert_eq!((sized.layered, sized.is_required, sized.default_dim), (false, true, 9));
    let weight = WeightLayer::new(String::from("a.weight"), "a", 3);
    assert_eq!((weight.tensor_name.as_str(), weight.component, weight.layer_idx), ("a.weight", "a", 3));
    assert!(!weight.is_fp32);
    assert!(WeightLayer::new_fp32(String::from("a"), "a", 3).is_fp32);
}

#[test]
fn weights_are_listed_layer_by_layer() {
    let listed: Vec<(String, &str, u32, bool)> = Qwen3_5::new(config(0b10, 2))
        .weight_layers
        .iter()
        .map(|w| (w.tensor_name.clone(), w.component, w.layer_idx, w.is_fp32))
        .collect();
    let prefix = "model.language_model.layers.";
    let part = |i: u32, component: &'static str, fp32: bool, suffix: &str| {
        (format!("{prefix}{i}.{component}{suffix}"), component, i, fp32)
    };
    assert_eq!(
        listed,
        vec![
            part(0, "linear_attn.A_log", true, ""),
            part(0, "linear_attn.dt_bias", true, ""),
            part(0, "linear_attn.conv1d", true, ".weight"),
            part(0, "linear_attn.in_proj_qkv", false, ".weight"),
            part(0, "linear_attn.in_proj_z", false, ".weight"),
            part(0, "linear_attn.in_proj_b", false, ".weight"),
            part(0, "linear_attn.in_proj_a", false, ".weight"),
            part(0, "linear_attn.out_proj", false, ".weight"),
            part(0, "mlp.gate_proj", false, ".weight"),
            part(0, "mlp.down_proj", false, ".weight"),
            part(0, "mlp.up_proj", false, ".weight"),
            part(1, "self_attn.q_proj", false, ".weight"),
            part(1, "self_attn.k_proj", false, ".weight"),
            part(1, "self_attn.v_proj", false, ".weight"),
            part(1, "self_attn.o_proj", false, ".weight"),
            part(1, "mlp.gate_proj", false, ".weight"),
            part(1, "mlp.down_proj", false, ".weight"),
            part(1, "mlp.up_proj", false, ".weight"),
        ]
    );
}

#[test]
fn many_layers_are_numbered_in_decimal() {
    let listed = Qwen3_5::new(config(0x8888_8888_8888_8888, 64));
    let last = listed.weight_layers.last().unwrap();
    assert_eq!(last.tensor_name, "model.language_model.layers.63.mlp.up_proj.weight");
    assert_eq!(listed.weight_layers.len(), 48 * 11 + 16 * 7);
}

#[test]
fn norms_are_listed() {
    let architecture = Qwen3_5::new(config(0b10, 2));
    let listed: Vec<(&str, bool, bool, u32)> = architecture
        .norm_weight_layers()
        .iter()
        .map(|n| (n.name, n.layered, n.is_required, n.default_dim))
        .collect();
    assert_eq!(
        listed,
        vec![
            ("model.language_model.layers.{}.input_layernorm.weight", true, true, 0),
            ("model.language_model.layers.{}.post_attention_layernorm.weight", true, true, 0),
            ("model.language_model.norm.weight", false, true, 0),
            ("model.language_model.layers.{}.self_attn.q_norm.weight", true, false, 4),
            ("model.language_model.layers.{}.self_attn.k_norm.weight", true, false, 4),
            ("model.language_model.layers.{}.linear_attn.norm.weight", true, false, 5),
        ]
    );
}

#[test]
fn header_tells_the_model() {
    let architecture = Qwen3_5::new(config(0b10, 2));
    let header: HeaderInfo = architecture.header().unwrap();
    assert_eq!(header.architecture_id, 3);
    assert!(header.shared_classifier);
    let v2 = header.v2.unwrap();
    assert_eq!((v2.n_linear_k_heads, v2.n_linear_v_heads), (2, 3));
    assert_eq!((v2.linear_k_head_dim, v2.linear_v_head_dim), (4, 5));
    assert_eq!((v2.conv_kernel_size, v2.rotary_dim, v2.full_attention_mask), (6, 2, 0b10));
    assert_eq!((v2.model_eos, v2.chat_eos), (77, 78));
    assert_eq!(f32::from_bits(v2.norm_eps), 1e-6);
    assert_eq!(f32::from_bits(v2.rope_theta), 1e7);
    assert_eq!(architecture.id(), ArchitectureId::Qwen3_5ForConditionalGeneration);
    assert_eq!(architecture.name(), "Qwen3_5ForConditionalGeneration");
    assert_eq!(architecture.embed_tokens_layer(), "model.language_model.embed_tokens.weight");
    assert_eq!(architecture.lm_head_layer(), "lm_head.weight");
    assert_eq!(architecture.weight_layers().len(), 18);
}

#[test]
fn architecture_is_created_for_a_model() {
    let info = ModelInfo { model_type: ModelType::Base, config: config(0b10, 2) };
    assert_eq!(create_architecture(&info).id(), ArchitectureId::Qwen3_5ForConditionalGeneration);
    assert!(matches!(create_architecture(&info), AnyArchitecture::Qwen3_5(a) if a.weight_layers.len() == 18));
    let mut v1 = config(0b10, 2);
    v1.architecture = ArchitectureId::Qwen3ForCausalLM;
    v1.qwen35 = None;
    let info = ModelInfo { model_type: ModelType::Base, config: v1 };
    assert_eq!(create_architecture(&info).id(), ArchitectureId::Qwen3ForCausalLM);
    assert!(matches!(create_architecture(&info), AnyArchitecture::Qwen3));
}

#[test]
fn chat_token_is_looked_up_in_the_map_first() {
    let text = r#"{
        "eos_token": {"content": "<e>"},
        "added_tokens_decoder": {"7": {"content": "<x>"}, "8": {"content": "<e>"}},
        "added_tokens": [{"content": "<e>", "id": 9}]
    }"#;
    assert_eq!(load_chat_eos(Some(text), None), Some(8));
}

#[test]
fn chat_token_is_looked_up_in_the_list_next() {
    let text = r#"{
        "eos_token": "<e>",
        "added_tokens_decoder": {"seven": {"content": "<e>"}, "8": {"content": 3}},
        "added_tokens": [{"content": "<e>", "id": -1}, {"content": "<x>", "id": 5}, {"content": "<e>", "id": 9}]
    }"#;
    let tokenizer = r#"{"added_tokens": [{"content": "<e>", "id": 11}]}"#;
    assert_eq!(load_chat_eos(Some(text), Some(tokenizer)), Some(9));
}

#[test]
fn chat_token_is_looked_up_in_the_tokenizer_last() {
    let text = r#"{"eos_token": "<e>"}"#;
    let tokenizer = r#"{"added_tokens": [{"content": "<x>", "id": 10}, {"content": "<e>", "id": 11}]}"#;
    assert_eq!(load_chat_eos(Some(text), Some(tokenizer)), Some(11));
    assert_eq!(load_chat_eos(Some(text), Some("not json")), None);
    assert_eq!(load_chat_eos(Some(text), None), None);
}

#[test]
fn chat_token_needs_a_text() {
    let tokenizer = r#"{"added_tokens": [{"content": "<e>", "id": 11}]}"#;
    assert_eq!(load_chat_eos(None, Some(tokenizer)), None);
    assert_eq!(load_chat_eos(Some("not json"), Some(tokenizer)), None);
    assert_eq!(load_chat_eos(Some("{}"), Some(tokenizer)), None);
    assert_eq!(load_chat_eos(Some(r#"{"eos_token": null}"#), Some(tokenizer)), None);
    assert_eq!(load_chat_eos(Some(r#"{"eos_token": {"content": 1}}"#), Some(tokenizer)), None);
}

#[test]
fn token_ids_keep_their_last_bits() {
    let text = r#"{"eos_token": "<e>", "added_tokens_decoder": {"+4294967298": {"content": "<e>"}}}"#;
    assert_eq!(load_chat_eos(Some(text), None), Some(2));
}

#[test]
fn trees_can_be_searched_without_text() {
    let entry = Json::Object(vec![
        (String::from("content"), Json::Text(String::from("<e>"))),
        (String::from("id"), Json::Number(Some(5), String::from("5"))),
    ]);
    let root = Json::Object(vec![
        (String::from("eos_token"), Json::Text(String::from("<e>"))),
        (String::from("added_tokens"), Json::Array(vec![Json::Null, entry])),
    ]);
    assert_eq!(chat_eos_of(&root, None), Some(5));
    assert!(matches!(choose_architecture(&root), Err(ArchitectureFault::Missing)));
    assert!(choose_section(&root, ArchitectureId::Qwen3_5ForConditionalGeneration).is_none());
    assert!(choose_section(&root, ArchitectureId::Qwen3ForCausalLM).is_some());
}

#[test]
fn json_is_parsed_into_a_tree() {
    let root = parse_json(r#"{"b": [true, null, "x", 3, -1, 2.5], "a": {"c": 1}}"#).unwrap();
    let items = root.get("b").unwrap().as_array().unwrap();
    assert!(matches!(&items[0], Json::Bool(true)));
    assert!(matches!(&items[1], Json::Null));
    assert_eq!(items[2].as_str(), Some("x"));
    assert!(matches!(&items[3], Json::Number(Some(3), text) if text == "3"));
    assert!(matches!(&items[4], Json::Number(None, text) if text == "-1"));
    assert!(matches!(&items[5], Json::Number(None, text) if text == "2.5"));
    assert_eq!(root.get("a").unwrap().get("c").unwrap().as_u64(), Some(1));
    assert!(root.get("z").is_none());
    assert!(items[0].get("a").is_none());
    assert_eq!(root.as_object().unwrap().len(), 2);
    assert!(items[2].as_u64().is_none() && items[2].as_array().is_none() && items[3].as_str().is_none());
    let message = match parse_json("{") {
        Ok(_) => panic!("not JSON"),
        Err(message) => message,
    };
    assert_eq!(message, "EOF while parsing an object at line 1 column 1");
}
