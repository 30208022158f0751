//! The order of the weights in a checkpoint: what the exporter lists is what the loader reads.
//!
//! A checkpoint has no names in it, so the two have to agree on which weights there are, on their
//! order, and on their sizes. Behind the norms come the weights in single precision, the embedding,
//! and the quantized weights, the weights of each kind in the order in which they are listed.

use super::architecture::NormWeightLayer;
use super::qwen3_5;
use super::qwen3_5::Part;
use crate::inference::shape::Shape;
use crate::inference::stream;
use crate::inference::weights;
use crate::mask;
use vstd::prelude::*;

verus! {

/// The listed weights of one kind.
pub open spec fn of_kind(listed: Seq<Part>, is_fp32: bool) -> Seq<Part>
    decreases listed.len(),
{
    if listed.len() == 0 {
        seq![]
    } else if listed.last().is_fp32 == is_fp32 {
        of_kind(listed.drop_last(), is_fp32).push(listed.last())
    } else {
        of_kind(listed.drop_last(), is_fp32)
    }
}

/// How many numbers the weights of a part have in a model with the given dimensions.
pub open spec fn elements(shape: Shape, component: Seq<char>) -> nat {
    let dim = shape.dim as nat;
    let hidden = shape.hidden_dim as nat;
    if component == "self_attn.q_proj"@ {
        dim * 2 * shape.all_heads_dim as nat
    } else if component == "self_attn.k_proj"@ || component == "self_attn.v_proj"@ {
        dim * shape.kv_dim as nat
    } else if component == "self_attn.o_proj"@ {
        shape.all_heads_dim as nat * dim
    } else if component == "linear_attn.A_log"@ || component == "linear_attn.dt_bias"@ {
        shape.n_linear_v_heads as nat
    } else if component == "linear_attn.conv1d"@ {
        shape.linear_qkv_dim as nat * shape.conv_kernel_size as nat
    } else if component == "linear_attn.in_proj_qkv"@ {
        dim * shape.linear_qkv_dim as nat
    } else if component == "linear_attn.in_proj_z"@ || component == "linear_attn.out_proj"@ {
        dim * dim
    } else if component == "linear_attn.in_proj_b"@ || component == "linear_attn.in_proj_a"@ {
        dim * shape.n_linear_v_heads as nat
    } else if component == "mlp.down_proj"@ {
        hidden * dim
    } else {
        dim * hidden
    }
}

/// The sizes of listed weights.
pub open spec fn sizes(shape: Shape, listed: Seq<Part>) -> Seq<nat> {
    Seq::new(listed.len(), |k: int| elements(shape, listed[k].component))
}

/// The lengths in bytes of pieces of a stream.
pub open spec fn lengths(pieces: Seq<stream::Piece>) -> Seq<nat> {
    Seq::new(pieces.len(), |k: int| pieces[k].bytes)
}

/// The lengths in bytes of listed weights in single precision.
pub open spec fn fp32_lengths(shape: Shape, listed: Seq<Part>) -> Seq<nat> {
    Seq::new(listed.len(), |k: int| elements(shape, listed[k].component) * 4)
}

/// No two parts have the same name: the names differ in length, or in one character.
proof fn lemma_spellings()
    ensures
        "self_attn.q_proj"@.len() == 16,
        "self_attn.k_proj"@.len() == 16,
        "self_attn.v_proj"@.len() == 16,
        "self_attn.o_proj"@.len() == 16,
        "linear_attn.A_log"@.len() == 17,
        "linear_attn.dt_bias"@.len() == 19,
        "linear_attn.conv1d"@.len() == 18,
        "linear_attn.in_proj_qkv"@.len() == 23,
        "linear_attn.in_proj_z"@.len() == 21,
        "linear_attn.in_proj_b"@.len() == 21,
        "linear_attn.in_proj_a"@.len() == 21,
        "linear_attn.out_proj"@.len() == 20,
        "mlp.gate_proj"@.len() == 13,
        "mlp.down_proj"@.len() == 13,
        "mlp.up_proj"@.len() == 11,
        "self_attn.q_proj"@[10] == 'q',
        "self_attn.k_proj"@[10] == 'k',
        "self_attn.v_proj"@[10] == 'v',
        "self_attn.o_proj"@[10] == 'o',
        "linear_attn.in_proj_z"@[20] == 'z',
        "linear_attn.in_proj_b"@[20] == 'b',
        "linear_attn.in_proj_a"@[20] == 'a',
        "mlp.gate_proj"@[4] == 'g',
        "mlp.down_proj"@[4] == 'd',
{
    reveal_strlit("self_attn.q_proj");
    reveal_strlit("self_attn.k_proj");
    reveal_strlit("self_attn.v_proj");
    reveal_strlit("self_attn.o_proj");
    reveal_strlit("linear_attn.A_log");
    reveal_strlit("linear_attn.dt_bias");
    reveal_strlit("linear_attn.conv1d");
    reveal_strlit("linear_attn.in_proj_qkv");
    reveal_strlit("linear_attn.in_proj_z");
    reveal_strlit("linear_attn.in_proj_b");
    reveal_strlit("linear_attn.in_proj_a");
    reveal_strlit("linear_attn.out_proj");
    reveal_strlit("mlp.gate_proj");
    reveal_strlit("mlp.down_proj");
    reveal_strlit("mlp.up_proj");
}

proof fn lemma_full_attention_sizes(shape: Shape)
    ensures
        ({
            let dim = shape.dim as nat;
            let parts = qwen3_5::full_attention_parts();
            &&& elements(shape, parts[0]@) == dim * 2 * shape.all_heads_dim as nat
            &&& elements(shape, parts[1]@) == dim * shape.kv_dim as nat
            &&& elements(shape, parts[2]@) == dim * shape.kv_dim as nat
            &&& elements(shape, parts[3]@) == shape.all_heads_dim as nat * dim
        }),
{
    lemma_spellings();
}

proof fn lemma_delta_sizes(shape: Shape)
    ensures
        ({
            let parts = qwen3_5::delta_parts();
            &&& elements(shape, parts[0]@) == shape.n_linear_v_heads as nat
            &&& elements(shape, parts[1]@) == shape.n_linear_v_heads as nat
            &&& elements(shape, parts[2]@) == shape.linear_qkv_dim as nat * shape.conv_kernel_size as nat
        }),
{
    lemma_spellings();
}

proof fn lemma_linear_attention_sizes(shape: Shape)
    ensures
        ({
            let dim = shape.dim as nat;
            let parts = qwen3_5::linear_attention_parts();
            &&& elements(shape, parts[0]@) == dim * shape.linear_qkv_dim as nat
            &&& elements(shape, parts[1]@) == dim * dim
            &&& elements(shape, parts[2]@) == dim * shape.n_linear_v_heads as nat
            &&& elements(shape, parts[3]@) == dim * shape.n_linear_v_heads as nat
            &&& elements(shape, parts[4]@) == dim * dim
        }),
{
    lemma_spellings();
}

proof fn lemma_mlp_sizes(shape: Shape)
    ensures
        ({
            let dim = shape.dim as nat;
            let hidden = shape.hidden_dim as nat;
            let parts = qwen3_5::mlp_parts();
            &&& elements(shape, parts[0]@) == dim * hidden
            &&& elements(shape, parts[1]@) == hidden * dim
            &&& elements(shape, parts[2]@) == dim * hidden
        }),
{
    lemma_spellings();
}

proof fn lemma_of_kind_concat(a: Seq<Part>, b: Seq<Part>, is_fp32: bool)
    ensures
        of_kind(a + b, is_fp32) == of_kind(a, is_fp32) + of_kind(b, is_fp32),
    decreases b.len(),
{
    if b.len() == 0 {
        assert(a + b =~= a);
        assert(of_kind(a, is_fp32) + of_kind(b, is_fp32) =~= of_kind(a, is_fp32));
    } else {
        lemma_of_kind_concat(a, b.drop_last(), is_fp32);
        assert((a + b).drop_last() =~= a + b.drop_last());
        assert(of_kind(a + b, is_fp32) =~= of_kind(a, is_fp32) + of_kind(b, is_fp32));
    }
}

proof fn lemma_of_one_kind(listed: Seq<Part>, kind: bool, is_fp32: bool)
    requires
        forall|k: int| 0 <= k < listed.len() ==> (#[trigger] listed[k]).is_fp32 == kind,
    ensures
        of_kind(listed, is_fp32) == if kind == is_fp32 {
            listed
        } else {
            Seq::<Part>::empty()
        },
    decreases listed.len(),
{
    if listed.len() > 0 {
        assert(listed.last() == listed[listed.len() - 1]);
        lemma_of_one_kind(listed.drop_last(), kind, is_fp32);
        assert(listed.drop_last().push(listed.last()) =~= listed);
    }
}

/// The quantized weights of a layer have the sizes that the loader reads, in its order, and the
/// weights in single precision those that it reads for a layer with linear attention.
proof fn lemma_layer_order(shape: Shape, i: u32, slot: nat)
    ensures
        ({
            let listed = qwen3_5::layer_parts(shape.full_attention_mask, i);
            &&& sizes(shape, of_kind(listed, false)) == weights::layer_tensor_sizes(shape, i as int)
            &&& fp32_lengths(shape, of_kind(listed, true)) == if mask::is_full(shape.full_attention_mask, i as int) {
                Seq::<nat>::empty()
            } else {
                lengths(weights::delta_layer_pieces(shape, slot))
            }
        }),
{
    let listed = qwen3_5::layer_parts(shape.full_attention_mask, i);
    let mlp = qwen3_5::named_parts(i, qwen3_5::mlp_parts(), false);
    lemma_mlp_sizes(shape);
    lemma_of_one_kind(mlp, false, false);
    lemma_of_one_kind(mlp, false, true);
    if mask::is_full(shape.full_attention_mask, i as int) {
        let attention = qwen3_5::named_parts(i, qwen3_5::full_attention_parts(), false);
        lemma_full_attention_sizes(shape);
        lemma_of_one_kind(attention, false, false);
        lemma_of_one_kind(attention, false, true);
        lemma_of_kind_concat(attention, mlp, false);
        lemma_of_kind_concat(attention, mlp, true);
        assert(of_kind(listed, false) == attention + mlp);
        assert(sizes(shape, attention + mlp) =~= weights::layer_tensor_sizes(shape, i as int));
        assert(of_kind(listed, true) =~= Seq::<Part>::empty());
    } else {
        let single = qwen3_5::named_parts(i, qwen3_5::delta_parts(), true);
        let quantized = qwen3_5::named_parts(i, qwen3_5::linear_attention_parts(), false);
        lemma_delta_sizes(shape);
        lemma_linear_attention_sizes(shape);
        lemma_of_one_kind(single, true, false);
        lemma_of_one_kind(single, true, true);
        lemma_of_one_kind(quantized, false, false);
        lemma_of_one_kind(quantized, false, true);
        lemma_of_kind_concat(single, quantized, false);
        lemma_of_kind_concat(single, quantized, true);
        lemma_of_kind_concat(single + quantized, mlp, false);
        lemma_of_kind_concat(single + quantized, mlp, true);
        assert(of_kind(listed, false) =~= quantized + mlp);
        assert(sizes(shape, quantized + mlp) =~= weights::layer_tensor_sizes(shape, i as int));
        assert(of_kind(listed, true) =~= single);
        assert(fp32_lengths(shape, single) =~= lengths(weights::delta_layer_pieces(shape, slot)));
    }
}

proof fn lemma_order(shape: Shape, n: nat)
    requires
        n <= mask::MAX_LAYERS,
    ensures
        ({
            let listed = qwen3_5::parts_before_layer(shape.full_attention_mask, n);
            &&& weights::layer_pieces(shape, n) == stream::tensors_pieces(
                sizes(shape, of_kind(listed, false)),
                shape.group_size as nat,
            )
            &&& fp32_lengths(shape, of_kind(listed, true)) == lengths(
                weights::delta_pieces(shape, mask::linear_before(shape.full_attention_mask, n as int)),
            )
        }),
    decreases n,
{
    let attention = shape.full_attention_mask;
    let group = shape.group_size as nat;
    if n == 0 {
        assert(of_kind(Seq::<Part>::empty(), false) =~= Seq::<Part>::empty());
        assert(sizes(shape, Seq::<Part>::empty()) =~= Seq::<nat>::empty());
        assert(fp32_lengths(shape, of_kind(Seq::<Part>::empty(), true)) =~= lengths(weights::delta_pieces(shape, 0)));
    } else {
        let m = (n - 1) as nat;
        let i = m as u32;
        let before = qwen3_5::parts_before_layer(attention, m);
        let own = qwen3_5::layer_parts(attention, i);
        let slot = mask::linear_before(attention, m as int);
        lemma_order(shape, m);
        lemma_layer_order(shape, i, slot);
        lemma_of_kind_concat(before, own, false);
        lemma_of_kind_concat(before, own, true);
        mask::lemma_full_before_bounds(attention, m as int);
        let old_sizes = sizes(shape, of_kind(before, false));
        let own_sizes = sizes(shape, of_kind(own, false));
        assert(sizes(shape, of_kind(before + own, false)) =~= old_sizes + own_sizes);
        stream::lemma_tensors_concat(old_sizes, own_sizes, group);
        let old_lengths = fp32_lengths(shape, of_kind(before, true));
        let own_lengths = fp32_lengths(shape, of_kind(own, true));
        assert(fp32_lengths(shape, of_kind(before + own, true)) =~= old_lengths + own_lengths);
        if mask::is_full(attention, m as int) {
            assert(mask::linear_before(attention, n as int) == slot);
            assert(old_lengths + own_lengths =~= old_lengths);
        } else {
            assert(mask::linear_before(attention, n as int) == slot + 1);
            assert(lengths(weights::delta_pieces(shape, slot + 1)) =~= old_lengths + own_lengths);
        }
    }
}

/// The loader reads the quantized weights that the exporter lists, in their order, as tensors of
/// their sizes; and it reads the weights in single precision that the exporter lists, in their
/// order, as pieces of their lengths.
pub proof fn law_loader_reads_what_exporter_lists(shape: Shape)
    requires
        shape.n_layers <= mask::MAX_LAYERS,
        shape.n_linear == mask::linear_before(shape.full_attention_mask, shape.n_layers as int),
    ensures
        ({
            let listed = qwen3_5::parts_before_layer(shape.full_attention_mask, shape.n_layers as nat);
            &&& weights::layer_pieces(shape, shape.n_layers as nat) == stream::tensors_pieces(
                sizes(shape, of_kind(listed, false)),
                shape.group_size as nat,
            )
            &&& lengths(weights::delta_pieces(shape, shape.n_linear as nat)) == fp32_lengths(
                shape,
                of_kind(listed, true),
            )
        }),
{
    lemma_order(shape, shape.n_layers as nat);
}

/// The width of listed norm weights: that of the model where they have to be there, else that of the
/// ones that may take their place.
pub open spec fn norm_width(shape: Shape, norm: NormWeightLayer<'static>) -> nat {
    if norm.is_required {
        shape.dim as nat
    } else if norm.default_dim == 0 {
        shape.head_dim as nat
    } else {
        norm.default_dim as nat
    }
}

/// The loader reads the norms that the exporter lists, in their order, with a row for each layer
/// where there is one for each.
pub proof fn law_loader_reads_listed_norms(shape: Shape, head_dim: u32, linear_v_head_dim: u32, k: int)
    requires
        shape.head_dim == head_dim,
        shape.linear_v_head_dim == linear_v_head_dim,
        linear_v_head_dim > 0,
        0 <= k < 6,
    ensures
        ({
            let norms = qwen3_5::norm_list(head_dim, linear_v_head_dim);
            let rows = if norms[k].layered {
                shape.n_layers as nat
            } else {
                1
            };
            &&& norms.len() == weights::norm_pieces(shape).len()
            &&& weights::norm_pieces(shape)[k].bytes == rows * norm_width(shape, norms[k]) * 4
        }),
{
    assert(1 * shape.dim as nat == shape.dim as nat);
}

} // verus!
