//! What holds across several functions.

use qwen3_rs::export::architecture::{create_architecture, AnyArchitecture, ArchitectureId};
use qwen3_rs::export::config_loader::{
    load_hf_config, FlatConfig, ModelConfig as ExportConfig, ModelInfo, ModelType, Qwen35Config, RopeParameters, Rotary,
};
use qwen3_rs::export::qwen3_5::Qwen3_5;
use qwen3_rs::inference::configuration::{ModelConfig, ModelConfigV2};
use qwen3_rs::inference::layout::attention_head;
use qwen3_rs::inference::mapper::{MemoryMapper, Span};
use qwen3_rs::inference::qwen3_5::{Qwen3_5Transformer, Step};
use qwen3_rs::inference::stream::QuantizedTensor;
use qwen3_rs::inference::weights::{LayerWeights, Mixer};

const WEIGHT_BYTES: usize = 2192;

fn config() -> ModelConfig {
    ModelConfig {
        architecture_id: 3,
        dim: 8,
        hidden_dim: 8,
        n_layers: 2,
        n_heads: 2,
        n_kv_heads: 1,
        head_dim: 4,
        seq_len: 4,
        vocab_size: 3,
        group_size: 4,
        shared_classifier: true,
        v2: Some(ModelConfigV2 {
            norm_eps: 1e-6f32.to_bits(),
            n_linear_k_heads: 2,
            n_linear_v_heads: 2,
            linear_k_head_dim: 2,
            linear_v_head_dim: 2,
            conv_kernel_size: 2,
            rope_theta: 10000000.0f32.to_bits(),
            rotary_dim: 2,
            full_attention_mask: 0b10,
            model_eos: 9,
            chat_eos: 8,
        }),
    }
}

fn exported() -> ExportConfig {
    ExportConfig {
        dim: 8,
        hidden_dim: 8,
        n_layers: 2,
        n_heads: 2,
        n_kv_heads: 1,
        vocab_size: 3,
        max_seq_len: 4,
        head_dim: 4,
        norm_eps: 1e-6f32.to_bits(),
        bos_token_id: 0,
        eos_token_id: 9,
        architecture: ArchitectureId::Qwen3_5ForConditionalGeneration,
        qwen35: Some(Qwen35Config {
            chat_eos: 8,
            n_linear_k_heads: 2,
            n_linear_v_heads: 2,
            linear_k_head_dim: 2,
            linear_v_head_dim: 2,
            conv_kernel_size: 2,
            rope_theta: 10000000.0f32.to_bits(),
            rotary_dim: 2,
            full_attention_mask: 0b10,
        }),
    }
}

fn elements(component: &str) -> usize {
    match component {
        "self_attn.q_proj" => 8 * 16,
        "self_attn.k_proj" | "self_attn.v_proj" => 8 * 4,
        "self_attn.o_proj" => 8 * 8,
        "linear_attn.A_log" | "linear_attn.dt_bias" => 2,
        "linear_attn.conv1d" => 12 * 2,
        "linear_attn.in_proj_qkv" => 8 * 12,
        "linear_attn.in_proj_z" | "linear_attn.out_proj" => 8 * 8,
        "linear_attn.in_proj_b" | "linear_attn.in_proj_a" => 8 * 2,
        "mlp.gate_proj" | "mlp.down_proj" | "mlp.up_proj" => 8 * 8,
        other => panic!("unknown part {other}"),
    }
}

fn quantized(layer: &LayerWeights, component: &str) -> QuantizedTensor {
    match (layer.mixer, component) {
        (_, "mlp.gate_proj") => layer.mlp_w1.weight,
        (_, "mlp.down_proj") => layer.mlp_w2.weight,
        (_, "mlp.up_proj") => layer.mlp_w3.weight,
        (Mixer::FullAttention(a), "self_attn.q_proj") => a.wq.weight,
        (Mixer::FullAttention(a), "self_attn.k_proj") => a.wk.weight,
        (Mixer::FullAttention(a), "self_attn.v_proj") => a.wv.weight,
        (Mixer::FullAttention(a), "self_attn.o_proj") => a.wo.weight,
        (Mixer::DeltaNet(n), "linear_attn.in_proj_qkv") => n.w_qkv.weight,
        (Mixer::DeltaNet(n), "linear_attn.in_proj_z") => n.w_z.weight,
        (Mixer::DeltaNet(n), "linear_attn.in_proj_b") => n.w_b.weight,
        (Mixer::DeltaNet(n), "linear_attn.in_proj_a") => n.w_a.weight,
        (Mixer::DeltaNet(n), "linear_attn.out_proj") => n.w_out.weight,
        (_, other) => panic!("unknown part {other}"),
    }
}

fn single(layer: &LayerWeights, component: &str) -> Span {
    match (layer.mixer, component) {
        (Mixer::DeltaNet(n), "linear_attn.A_log") => n.a_log,
        (Mixer::DeltaNet(n), "linear_attn.dt_bias") => n.dt_bias,
        (Mixer::DeltaNet(n), "linear_attn.conv1d") => n.conv_weight,
        (_, other) => panic!("unknown part {other}"),
    }
}

#[test]
fn loader_reads_what_exporter_lists() {
    let bytes = [0u8; WEIGHT_BYTES];
    let model = Qwen3_5Transformer::new(config(), MemoryMapper::new(&bytes), 0.0f32).unwrap();
    let listed = Qwen3_5::new(exported());
    let mut offset = 0;
    for norm in &listed.norm_layers {
        let width = if norm.is_required { 8 } else { norm.default_dim as usize };
        offset += 4 * width * if norm.layered { 2 } else { 1 };
    }
    for weight in listed.weight_layers.iter().filter(|w| w.is_fp32) {
        let len = 4 * elements(weight.component);
        let layer = &model.weights.layers[weight.layer_idx as usize];
        assert_eq!(single(layer, weight.component), Span { offset, len });
        offset += len;
    }
    assert_eq!(model.weights.embedding_q.q, Span { offset, len: 24 });
    offset += 48;
    for weight in listed.weight_layers.iter().filter(|w| !w.is_fp32) {
        let len = elements(weight.component);
        let layer = &model.weights.layers[weight.layer_idx as usize];
        let tensor = QuantizedTensor { q: Span { offset, len }, s: Span { offset: offset + len, len } };
        assert_eq!(quantized(layer, weight.component), tensor);
        offset += 2 * len;
    }
    assert_eq!(offset, WEIGHT_BYTES);
}

#[test]
fn accepted_configurations_can_be_exported() {
    let hf = FlatConfig {
        hidden_size: 8,
        intermediate_size: 8,
        num_hidden_layers: 64,
        num_attention_heads: 2,
        num_key_value_heads: 1,
        vocab_size: 3,
        max_position_embeddings: 4,
        rms_norm_eps: 1e-6f32.to_bits(),
        head_dim: None,
        bos_token_id: None,
        eos_token_id: Some(9),
        hidden_act: Some(String::from("silu")),
        attention_bias: Some(false),
        tie_word_embeddings: Some(true),
        layer_types: Some(
            (0..64).map(|i| String::from(if i % 4 == 3 { "full_attention" } else { "linear_attention" })).collect(),
        ),
        linear_num_key_heads: Some(2),
        linear_num_value_heads: Some(2),
        linear_key_head_dim: Some(2),
        linear_value_head_dim: Some(2),
        linear_conv_kernel_dim: Some(2),
        rope_parameters: Some(RopeParameters { rope_theta: 1e7f32.to_bits(), rotary: Rotary::Whole(2) }),
    };
    let config = load_hf_config(ArchitectureId::Qwen3_5ForConditionalGeneration, &hf, Some(7)).unwrap();
    assert_eq!(config.head_dim, 4);
    assert_eq!(config.qwen35.unwrap().chat_eos, 7);
    assert_eq!(config.qwen35.unwrap().full_attention_mask, 0x8888_8888_8888_8888);
    let info = ModelInfo { model_type: ModelType::Base, config };
    assert!(matches!(create_architecture(&info), AnyArchitecture::Qwen3_5(_)));
}

#[test]
fn heads_read_what_is_stored_for_each_position() {
    let mut wide = config();
    wide.n_heads = 4;
    wide.n_kv_heads = 2;
    wide.head_dim = 2;
    wide.n_layers = 3;
    if let Some(v2) = &mut wide.v2 {
        v2.full_attention_mask = 0b110;
    }
    let bytes = [0u8; 8192];
    let mut model = Qwen3_5Transformer::new(wide, MemoryMapper::new(&bytes), 0.0f32).unwrap();
    let mut stored = Vec::new();
    for pos in 0..4 {
        for step in model.forward(0, pos).unwrap() {
            if let Step::FullAttention { slot, pos, kv_offset, .. } = step {
                let first = (100 * slot + 10 * pos) as f32;
                let row = [first, first + 1.0, first + 2.0, first + 3.0];
                model.caches.store(kv_offset, &row, &row);
                stored.push((slot, pos, row));
            }
        }
    }
    assert_eq!(stored.len(), 8);
    for (slot, pos, row) in stored {
        for h in 0..4 {
            let head = attention_head(&model.shape, slot, h);
            let start = head.first_key + pos * model.shape.kv_dim;
            let part = h / 2 * 2;
            assert_eq!(model.caches.full_attn_k_cache[start..start + 2], row[part..part + 2]);
            assert_eq!(model.caches.full_attn_v_cache[start..start + 2], row[part..part + 2]);
        }
    }
}

fn used(model: &Qwen3_5Transformer<'_, f32>) -> Vec<Span> {
    let weights = &model.weights;
    let mut spans = vec![weights.final_norm.weight, weights.embedding_q.q, weights.embedding_q.s];
    for norm in weights.input_norms.iter().chain(&weights.post_attention_norms) {
        spans.push(norm.weight);
    }
    for layer in &weights.layers {
        let mut maps = vec![layer.mlp_w1, layer.mlp_w2, layer.mlp_w3];
        match layer.mixer {
            Mixer::FullAttention(a) => {
                spans.extend([a.q_norm.weight, a.k_norm.weight]);
                maps.extend([a.wq, a.wk, a.wv, a.wo]);
            }
            Mixer::DeltaNet(n) => {
                spans.extend([n.gated_norm.weight, n.a_log, n.dt_bias, n.conv_weight]);
                maps.extend([n.w_qkv, n.w_z, n.w_b, n.w_a, n.w_out]);
            }
        }
        for map in maps {
            spans.extend([map.weight.q, map.weight.s]);
        }
    }
    spans
}

#[test]
fn placeholders_do_not_matter() {
    let bytes: Vec<u8> = (0..WEIGHT_BYTES).map(|i| (i % 251) as u8).collect();
    let mut other = bytes.clone();
    let placeholders = [160..176, 192..208, 232..240];
    for slot in placeholders.clone() {
        for p in slot {
            other[p] ^= 0xff;
        }
    }
    let model = Qwen3_5Transformer::new(config(), MemoryMapper::new(&bytes), 0.0f32).unwrap();
    let twin = Qwen3_5Transformer::new(config(), MemoryMapper::new(&other), 0.0f32).unwrap();
    assert_eq!(used(&model), used(&twin));
    let mut seen = vec![false; WEIGHT_BYTES];
    for span in used(&model) {
        let range = span.offset..span.offset + span.len;
        assert_eq!(bytes[range.clone()], other[range.clone()]);
        seen[range].fill(true);
    }
    for (p, &seen) in seen.iter().enumerate() {
        assert_eq!(seen, !placeholders.iter().any(|slot| slot.contains(&p)));
    }
}
