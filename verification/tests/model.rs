//! Loading a small model, and laying out its forward passes.

use qwen3_rs::inference::configuration::{ModelConfig, ModelConfigV2};
use qwen3_rs::inference::layout::{
    attention_head, conv_cell, count_rotary_pairs, delta_head, embedding_cell, key_start, split_query_gate, state_cell,
    AttentionHead, DeltaHead,
};
use qwen3_rs::inference::mapper::{MemoryMapper, Span};
use qwen3_rs::inference::qwen3_5::{PositionFault, Qwen3_5Transformer, Step, TransformerBuffers};
use qwen3_rs::inference::shape::Shape;
use qwen3_rs::inference::stream::QuantizedTensor;
use qwen3_rs::inference::weights::{Mixer, StandardRMSNorm};

const WEIGHT_BYTES: usize = 2192;

fn extension() -> ModelConfigV2 {
    ModelConfigV2 {
        norm_eps: 1e-6f32.to_bits(),
        n_linear_k_heads: 2,
        n_linear_v_heads: 2,
        linear_k_head_dim: 2,
        linear_v_head_dim: 2,
        conv_kernel_size: 2,
        rope_theta: 10000000.0f32.to_bits(),
        rotary_dim: 2,
        full_attention_mask: 0b10,
        model_eos: 9,
        chat_eos: 8,
    }
}

fn config() -> ModelConfig {
    ModelConfig {
        architecture_id: 3,
        dim: 8,
        hidden_dim: 8,
        n_layers: 2,
        n_heads: 2,
        n_kv_heads: 1,
        head_dim: 4,
        seq_len: 4,
        vocab_size: 3,
        group_size: 4,
        shared_classifier: true,
        v2: Some(extension()),
    }
}

fn load(config: ModelConfig, bytes: &[u8]) -> Result<Qwen3_5Transformer<'_, f32>, String> {
    match Qwen3_5Transformer::new(config, MemoryMapper::new(bytes), 0.0f32) {
        Ok(model) => Ok(model),
        Err(fault) => Err(fault.message()),
    }
}

fn with_v2(change: fn(&mut ModelConfigV2)) -> ModelConfig {
    let mut v2 = extension();
    change(&mut v2);
    ModelConfig { v2: Some(v2), ..config() }
}

fn refused(config: ModelConfig) -> String {
    load(config, &[0; WEIGHT_BYTES]).unwrap_err()
}

fn tensor(offset: usize, elements: usize) -> QuantizedTensor {
    QuantizedTensor { q: Span { offset, len: elements }, s: Span { offset: offset + elements, len: elements } }
}

#[test]
fn weights_are_found_in_order() {
    let bytes = vec![7u8; 5 + WEIGHT_BYTES];
    let mut mapper = MemoryMapper::new(&bytes);
    mapper.skip(5).unwrap();
    let model = Qwen3_5Transformer::new(config(), mapper, 0.0f32).unwrap();
    let base = 5;
    let norm = |offset: usize, len: usize| StandardRMSNorm {
        weight: Span { offset: base + offset, len },
        eps: 1e-6f32.to_bits(),
    };
    assert_eq!(model.weights.input_norms, vec![norm(0, 32), norm(32, 32)]);
    assert_eq!(model.weights.post_attention_norms, vec![norm(64, 32), norm(96, 32)]);
    assert_eq!(model.weights.final_norm, norm(128, 32));
    assert_eq!(model.weights.embedding_q, tensor(base + 352, 24));
    assert_eq!(model.weights.linear_layer_map, vec![Some(0), None]);
    assert_eq!(model.weights.layers.len(), 2);

    let first = model.weights.layers[0];
    match first.mixer {
        Mixer::DeltaNet(net) => {
            assert_eq!(net.a_log, Span { offset: base + 240, len: 8 });
            assert_eq!(net.dt_bias, Span { offset: base + 248, len: 8 });
            assert_eq!(net.conv_weight, Span { offset: base + 256, len: 96 });
            assert_eq!(net.gated_norm.weight, Span { offset: base + 224, len: 8 });
            assert_eq!(net.w_qkv.weight, tensor(base + 400, 96));
            assert_eq!((net.w_qkv.in_features, net.w_qkv.out_features), (8, 12));
            assert_eq!(net.w_z.weight, tensor(base + 592, 64));
            assert_eq!(net.w_b.weight, tensor(base + 720, 16));
            assert_eq!(net.w_a.weight, tensor(base + 752, 16));
            assert_eq!(net.w_out.weight, tensor(base + 784, 64));
            assert_eq!((net.qkv_dim, net.conv_kernel, net.dim), (12, 2, 8));
        }
        Mixer::FullAttention(_) => panic!("layer 0 has linear attention"),
    }
    assert_eq!(first.mlp_w1.weight, tensor(base + 912, 64));
    assert_eq!(first.mlp_w2.weight, tensor(base + 1040, 64));
    assert_eq!(first.mlp_w3.weight, tensor(base + 1168, 64));

    let second = model.weights.layers[1];
    match second.mixer {
        Mixer::FullAttention(attention) => {
            assert_eq!(attention.q_norm, norm(160 + 16, 16));
            assert_eq!(attention.k_norm, norm(192 + 16, 16));
            assert_eq!(attention.wq.weight, tensor(base + 1296, 128));
            assert_eq!((attention.wq.in_features, attention.wq.out_features), (8, 16));
            assert_eq!(attention.wk.weight, tensor(base + 1552, 32));
            assert_eq!(attention.wv.weight, tensor(base + 1616, 32));
            assert_eq!(attention.wo.weight, tensor(base + 1680, 64));
            assert_eq!(attention.kv_mul, 2);
        }
        Mixer::DeltaNet(_) => panic!("layer 1 has full attention"),
    }
    assert_eq!(second.mlp_w3.weight, tensor(base + 1808 + 256, 64));
    assert_eq!(base + 1808 + 256 + 128, bytes.len());
}

#[test]
fn loaded_model_has_blank_space() {
    let bytes = [0u8; WEIGHT_BYTES];
    let model = load(config(), &bytes).unwrap();
    assert_eq!(model.caches.full_attn_k_cache, vec![0.0; 16]);
    assert_eq!(model.caches.full_attn_v_cache, vec![0.0; 16]);
    assert_eq!(model.caches.delta_conv_states, vec![vec![0.0; 24]]);
    assert_eq!(model.caches.delta_recurrent_states, vec![vec![0.0; 8]]);
    assert_eq!(model.logits, vec![0.0; 3]);
    assert_eq!(model.buffers.q_buf.len(), 16);
    assert_eq!(model.buffers.k_buf.len(), 4);
    assert_eq!(model.buffers.att_buf.len(), 8);
    assert_eq!(model.buffers.qkv_buf.len(), 12);
    assert_eq!((model.buffers.xq.q.len(), model.buffers.xq.s.len()), (8, 2));
    assert_eq!(*model.get_config(), config());
    assert_eq!(model.next_pos, 0);
}

#[test]
fn short_checkpoints_are_refused_with_the_piece_that_is_cut() {
    let bytes = [0u8; WEIGHT_BYTES];
    let cut = |len: usize| load(config(), &bytes[..len]).unwrap_err();
    assert_eq!(cut(0), "Failed to read input norms");
    assert_eq!(cut(63), "Failed to read input norms");
    assert_eq!(cut(64), "Failed to read post-attention norms");
    assert_eq!(cut(128), "Failed to read final norm");
    assert_eq!(cut(160), "Failed to read Q norms");
    assert_eq!(cut(192), "Failed to read K norms");
    assert_eq!(cut(224), "Failed to read DeltaNet gated norms");
    assert_eq!(cut(240), "Failed to read A_log[0]");
    assert_eq!(cut(248), "Failed to read dt_bias[0]");
    assert_eq!(cut(351), "Failed to read conv1d[0]");
    assert_eq!(cut(352), "Failed to read quantized tensor data");
    assert_eq!(cut(376), "Failed to read quantized tensor scales");
    assert_eq!(cut(400), "Failed to read quantized tensor data");
    assert_eq!(cut(WEIGHT_BYTES - 1), "Failed to read quantized tensor scales");
    assert!(load(config(), &bytes).is_ok());
}

#[test]
fn dimensions_are_checked() {
    assert_eq!(refused(ModelConfig { v2: None, ..config() }), "Qwen3.5 requires v2 header");
    assert_eq!(refused(ModelConfig { seq_len: 0, ..config() }), "seq_len must be non-zero");
    assert_eq!(
        refused(ModelConfig { group_size: 3, ..config() }),
        "dim (8) must be divisible by group_size (3)"
    );
    assert_eq!(
        refused(ModelConfig { group_size: 0, ..config() }),
        "dim (8) must be divisible by group_size (0)"
    );
    assert_eq!(
        refused(ModelConfig { dim: 0, n_heads: 0, group_size: 0, ..config() }),
        "dim (0) must be divisible by group_size (0)"
    );
    assert_eq!(
        refused(ModelConfig { dim: 0, n_heads: 0, n_kv_heads: 0, ..config() }),
        "n_heads (0) must be divisible by n_kv_heads (0)"
    );
    assert_eq!(refused(ModelConfig { n_layers: 0, ..config() }), "n_layers must be positive");
    assert_eq!(
        refused(ModelConfig { n_layers: 65, ..config() }),
        "Qwen3.5 v2 supports at most 64 layers, got 65"
    );
    assert_eq!(
        refused(with_v2(|v2| v2.full_attention_mask = 0b100)),
        "full_attention_mask has bits set above n_layers"
    );
    let both = "Qwen3.5 requires both full and linear attention layers";
    assert_eq!(refused(with_v2(|v2| v2.full_attention_mask = 0)), both);
    assert_eq!(refused(with_v2(|v2| v2.full_attention_mask = 0b11)), both);
    assert_eq!(
        refused(ModelConfig { n_heads: 3, ..config() }),
        "Qwen3.5-2B requires n_heads * head_dim (12) == hidden size (8)"
    );
    assert_eq!(
        refused(ModelConfig { n_kv_heads: 3, ..config() }),
        "n_heads (2) must be divisible by n_kv_heads (3)"
    );
    assert_eq!(
        refused(with_v2(|v2| v2.n_linear_v_heads = 3)),
        "n_linear_v_heads (3) must equal n_linear_k_heads (2) for recurrence"
    );
    assert_eq!(
        refused(with_v2(|v2| v2.linear_v_head_dim = 4)),
        "linear_v_head_dim (4) must equal linear_k_head_dim (2) for recurrence"
    );
    assert_eq!(
        refused(with_v2(|v2| {
            v2.linear_v_head_dim = 0;
            v2.linear_k_head_dim = 0;
        })),
        "linear head dims must be positive"
    );
    assert_eq!(refused(with_v2(|v2| v2.conv_kernel_size = 0)), "conv_kernel_size must be positive");
    assert_eq!(refused(with_v2(|v2| v2.rotary_dim = 0)), "rotary_dim (0) must be between 1 and head_dim (4)");
    assert_eq!(refused(with_v2(|v2| v2.rotary_dim = 5)), "rotary_dim (5) must be between 1 and head_dim (4)");
}

#[test]
fn dimensions_too_large_for_the_machine_are_refused() {
    let huge = "Model dimensions are too large";
    assert_eq!(refused(ModelConfig { n_kv_heads: usize::MAX, ..config() }), huge);
    assert_eq!(refused(with_v2(|v2| v2.n_linear_k_heads = usize::MAX)), huge);
    assert_eq!(refused(ModelConfig { seq_len: usize::MAX, ..config() }), huge);
    assert_eq!(refused(ModelConfig { vocab_size: usize::MAX, ..config() }), "Failed to read quantized tensor data");
}

#[test]
fn working_space_needs_a_context() {
    let none = TransformerBuffers::new(8, 8, 2, 1, 4, 12, 2, 0, 4, 0.0f32);
    assert_eq!(none.unwrap_err().message(), "seq_len must be non-zero");
    let huge = TransformerBuffers::new(8, 8, usize::MAX, 1, 4, 12, 2, 4, 4, 0.0f32);
    assert_eq!(huge.unwrap_err().message(), "Model dimensions are too large");
}

fn expected_pass(row: usize, pos: usize, logits: bool) -> Vec<Step> {
    let mut steps = vec![
        Step::SelectRow { row },
        Step::InputNorm { layer: 0 },
        Step::DeltaNet { layer: 0, slot: 0, pos },
        Step::AddAttention,
        Step::PostAttentionNorm { layer: 0 },
        Step::FeedForward { layer: 0 },
        Step::AddFeedForward,
        Step::InputNorm { layer: 1 },
        Step::FullAttention { layer: 1, slot: 0, pos, kv_offset: 4 * pos },
        Step::AddAttention,
        Step::PostAttentionNorm { layer: 1 },
        Step::FeedForward { layer: 1 },
        Step::AddFeedForward,
        Step::FinalNorm,
    ];
    if logits {
        steps.push(Step::Logits);
    }
    steps
}

#[test]
fn forward_passes_follow_each_other() {
    let bytes = [0u8; WEIGHT_BYTES];
    let mut model = load(config(), &bytes).unwrap();
    assert_eq!(model.forward(2, 0).unwrap(), expected_pass(2, 0, true));
    assert_eq!(model.forward(1, 1).unwrap(), expected_pass(1, 1, true));
    let again = model.forward(1, 1).unwrap_err();
    assert_eq!(again, PositionFault::OutOfOrder { pos: 1, expected: 2 });
    assert_eq!(again.message(), "Position (1) does not follow the cached positions (2)");
    model.forward(0, 2).unwrap();
    model.forward(0, 3).unwrap();
    let full = model.forward(0, 4).unwrap_err();
    assert_eq!(full, PositionFault::OutOfContext { pos: 4, seq_len: 4 });
    assert_eq!(full.message(), "Position (4) exceeds context window (4)");
}

#[test]
fn prefill_gives_logits_for_the_last_token_alone() {
    let bytes = [0u8; WEIGHT_BYTES];
    let mut model = load(config(), &bytes).unwrap();
    model.forward(0, 0).unwrap();
    let passes = model.prefill_impl(&[2, 1, 0]).unwrap();
    assert_eq!(passes, vec![expected_pass(2, 0, false), expected_pass(1, 1, false), expected_pass(0, 2, true)]);
    assert_eq!(model.next_pos, 3);
    assert!(model.prefill_impl(&[]).unwrap().is_empty());
    assert_eq!(model.next_pos, 3);
    assert_eq!(
        model.prefill_impl(&[0; 5]).unwrap_err(),
        PositionFault::OutOfContext { pos: 4, seq_len: 4 }
    );
    assert_eq!(model.next_pos, 3);
    assert_eq!(model.prefill_impl(&[0; 4]).unwrap().len(), 4);
}

#[test]
fn logits_are_given_where_they_were_computed() {
    let bytes = [0u8; WEIGHT_BYTES];
    let mut with = load(config(), &bytes).unwrap();
    let mut without = load(config(), &bytes).unwrap();
    let mut steps = with.forward_internal(2, 0, true).unwrap();
    assert_eq!(steps.pop(), Some(Step::Logits));
    assert_eq!(steps, without.forward_internal(2, 0, false).unwrap());
    assert_eq!(with.next_pos, without.next_pos);
    assert_eq!(with.forward(1, 1).unwrap(), without.forward(1, 1).unwrap());
    assert_eq!(with.given_logits(true), &[0.0; 3]);
    assert!(with.given_logits(false).is_empty());
}

#[test]
fn reset_makes_caches_as_good_as_new() {
    let bytes = [0u8; WEIGHT_BYTES];
    let mut model = load(config(), &bytes).unwrap();
    model.forward(0, 0).unwrap();
    model.caches.store(4, &[1.0, 2.0, 3.0, 4.0], &[5.0, 6.0, 7.0, 8.0]);
    model.caches.push(0, 2, 0, &[1.5; 12]);
    model.caches.delta_recurrent_states[0][3] = 2.5;
    model.reset_cache_impl();
    let fresh = load(config(), &bytes).unwrap();
    assert_eq!(model.caches.full_attn_k_cache, fresh.caches.full_attn_k_cache);
    assert_eq!(model.caches.full_attn_v_cache, fresh.caches.full_attn_v_cache);
    assert_eq!(model.caches.delta_conv_states, fresh.caches.delta_conv_states);
    assert_eq!(model.caches.delta_recurrent_states, fresh.caches.delta_recurrent_states);
    assert_eq!(model.next_pos, 0);
}

#[test]
fn heads_find_their_numbers() {
    let shape = Shape::new(&config()).unwrap();
    assert_eq!(attention_head(&shape, 0, 1), AttentionHead { query: 4, scores: 4, first_key: 0 });
    let wide = Shape { n_heads: 4, n_kv_heads: 2, head_dim: 2, kv_dim: 4, n_full: 3, ..shape };
    assert_eq!(attention_head(&wide, 2, 3), AttentionHead { query: 6, scores: 12, first_key: 2 * 16 + 2 });
    assert_eq!(attention_head(&wide, 1, 1), AttentionHead { query: 2, scores: 4, first_key: 16 });
    assert_eq!(key_start(&wide, 2, 3, 3), 2 * 16 + 2 + 3 * 4);
    assert_eq!(delta_head(&shape, 1), DeltaHead { query: 2, key: 6, value: 10, state: 4, out: 2 });
    assert_eq!(conv_cell(&shape, 11, 1), 23);
    let mut cells: Vec<usize> = Vec::new();
    for h in 0..2 {
        for i in 0..2 {
            for j in 0..2 {
                cells.push(state_cell(&shape, h, i, j));
            }
        }
    }
    assert_eq!(cells, vec![0, 1, 2, 3, 4, 5, 6, 7]);
}

#[test]
fn queries_and_gates_come_apart() {
    let both: Vec<u8> = (0..12).collect();
    let (query, gate) = split_query_gate(&both, 2, 3);
    assert_eq!(query, vec![0, 1, 2, 6, 7, 8]);
    assert_eq!(gate, vec![3, 4, 5, 9, 10, 11]);
}

#[test]
fn embedding_rows_have_their_own_scales() {
    let shape = Shape::new(&config()).unwrap();
    assert_eq!(embedding_cell(&shape, 0, 0), (0, 0));
    assert_eq!(embedding_cell(&shape, 0, 7), (7, 1));
    assert_eq!(embedding_cell(&shape, 2, 3), (19, 4));
    assert_eq!(embedding_cell(&shape, 2, 4), (20, 5));
}

#[test]
fn rotated_numbers_come_in_pairs() {
    assert_eq!(count_rotary_pairs(64, 256), 32);
    assert_eq!(count_rotary_pairs(64, 10), 5);
    assert_eq!(count_rotary_pairs(5, 10), 2);
    assert_eq!(count_rotary_pairs(0, 10), 0);
}
