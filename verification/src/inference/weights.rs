//! Loading a Qwen3.5 checkpoint.
//!
//! Behind the header the weights follow in a fixed order, without names:
//! 1. norms in single precision: for all layers the input norms, the post-attention norms, the
//!    final norm, then for all layers the query norms, the key norms and the gated norms;
//! 2. for each linear attention layer `A_log`, `dt_bias` and the convolution, in single precision;
//! 3. the quantized embedding;
//! 4. for each layer its quantized tensors.
//!
//! The loader finds out where in the checkpoint each of them lies.

use super::mapper::{MemoryMapper, Span};
use super::shape;
use super::shape::Shape;
use super::size;
use super::stream;
use super::stream::{Piece, QuantizedTensor, StreamReader};
use crate::mask;
use crate::text;
use vstd::prelude::*;
use vstd::string::*;

verus! {

/// Root mean square norm with weights that are offsets from one.
#[derive(Debug, Clone, Copy, PartialEq, Eq, Structural)]
pub struct StandardRMSNorm {
    pub weight: Span,
    /// Bit pattern of a single-precision number.
    pub eps: u32,
}

/// Root mean square norm per value head, with a gate.
#[derive(Debug, Clone, Copy, PartialEq, Eq, Structural)]
pub struct GatedRMSNorm {
    pub weight: Span,
    /// Bit pattern of a single-precision number.
    pub eps: u32,
    pub n_v_heads: usize,
    pub v_head_dim: usize,
}

/// A quantized linear map.
#[derive(Debug, Clone, Copy, PartialEq, Eq, Structural)]
pub struct QLinear {
    pub weight: QuantizedTensor,
    pub in_features: usize,
    pub out_features: usize,
    pub group_size: usize,
}

/// Full attention with an output gate.
#[derive(Debug, Clone, Copy, PartialEq, Eq, Structural)]
pub struct GatedFullAttention {
    pub wq: QLinear,
    pub wk: QLinear,
    pub wv: QLinear,
    pub wo: QLinear,
    pub q_norm: StandardRMSNorm,
    pub k_norm: StandardRMSNorm,
    pub n_heads: usize,
    pub n_kv_heads: usize,
    pub head_dim: usize,
    /// How many query heads share one key and value head.
    pub kv_mul: usize,
    pub rotary_dim: usize,
    /// Bit pattern of a single-precision number.
    pub rope_theta: u32,
    pub group_size: usize,
}

/// Linear attention by a gated delta rule.
#[derive(Debug, Clone, Copy, PartialEq, Eq, Structural)]
pub struct GatedDeltaNet {
    pub w_qkv: QLinear,
    pub w_z: QLinear,
    pub w_a: QLinear,
    pub w_b: QLinear,
    pub w_out: QLinear,
    pub a_log: Span,
    pub dt_bias: Span,
    pub conv_weight: Span,
    pub gated_norm: GatedRMSNorm,
    pub n_k_heads: usize,
    pub k_head_dim: usize,
    pub v_head_dim: usize,
    pub q_head_dim: usize,
    pub qkv_dim: usize,
    pub conv_kernel: usize,
    pub group_size: usize,
    pub dim: usize,
    /// Bit pattern of a single-precision number.
    pub norm_eps: u32,
}

/// What mixes the positions in a layer.
#[derive(Debug, Clone, Copy, PartialEq, Eq, Structural)]
pub enum Mixer {
    FullAttention(GatedFullAttention),
    DeltaNet(GatedDeltaNet),
}

/// The quantized weights of a layer.
#[derive(Debug, Clone, Copy, PartialEq, Eq, Structural)]
pub struct LayerWeights {
    pub mixer: Mixer,
    pub mlp_w1: QLinear,
    pub mlp_w2: QLinear,
    pub mlp_w3: QLinear,
}

impl StandardRMSNorm {
    /// A norm with the weights at the given place.
    pub fn new(weight: Span, eps: u32) -> (norm: Self)
        ensures
            norm == (StandardRMSNorm { weight, eps }),
    {
        StandardRMSNorm { weight, eps }
    }
}

impl GatedRMSNorm {
    /// A norm with the weights at the given place.
    pub fn new(weight: Span, eps: u32, n_v_heads: usize, v_head_dim: usize) -> (norm: Self)
        ensures
            norm == (GatedRMSNorm { weight, eps, n_v_heads, v_head_dim }),
    {
        GatedRMSNorm { weight, eps, n_v_heads, v_head_dim }
    }
}

/// The single piece of `count` numbers of four bytes.
pub open spec fn floats(label: Seq<char>, count: nat) -> Piece {
    Piece { label, bytes: count * 4 }
}

/// The norms of the model.
pub open spec fn norm_pieces(shape: Shape) -> Seq<Piece> {
    let n_layers = shape.n_layers as nat;
    seq![
        floats("input norms"@, n_layers * shape.dim as nat),
        floats("post-attention norms"@, n_layers * shape.dim as nat),
        floats("final norm"@, shape.dim as nat),
        floats("Q norms"@, n_layers * shape.head_dim as nat),
        floats("K norms"@, n_layers * shape.head_dim as nat),
        floats("DeltaNet gated norms"@, n_layers * shape.linear_v_head_dim as nat),
    ]
}

/// A label with the number of a linear attention layer.
pub open spec fn numbered(name: Seq<char>, i: nat) -> Seq<char> {
    name + "["@ + text::decimal(i) + "]"@
}

/// The single-precision weights of linear attention layer `i`.
pub open spec fn delta_layer_pieces(shape: Shape, i: nat) -> Seq<Piece> {
    seq![
        floats(numbered("A_log"@, i), shape.n_linear_v_heads as nat),
        floats(numbered("dt_bias"@, i), shape.n_linear_v_heads as nat),
        floats(numbered("conv1d"@, i), shape.linear_qkv_dim as nat * shape.conv_kernel_size as nat),
    ]
}

/// The single-precision weights of the first `n` linear attention layers.
pub open spec fn delta_pieces(shape: Shape, n: nat) -> Seq<Piece>
    decreases n,
{
    if n == 0 {
        seq![]
    } else {
        delta_pieces(shape, (n - 1) as nat) + delta_layer_pieces(shape, (n - 1) as nat)
    }
}

/// The quantized embedding.
pub open spec fn embedding_pieces(shape: Shape) -> Seq<Piece> {
    stream::tensor_pieces(shape.vocab_size as nat * shape.dim as nat, shape.group_size as nat)
}

/// The numbers of elements of the quantized tensors of layer `i`, in order.
pub open spec fn layer_tensor_sizes(shape: Shape, i: int) -> Seq<nat> {
    let dim = shape.dim as nat;
    let hidden = shape.hidden_dim as nat;
    let mlp = seq![dim * hidden, hidden * dim, dim * hidden];
    if mask::is_full(shape.full_attention_mask, i) {
        seq![
            dim * 2 * shape.all_heads_dim as nat,
            dim * shape.kv_dim as nat,
            dim * shape.kv_dim as nat,
            shape.all_heads_dim as nat * dim,
        ] + mlp
    } else {
        seq![
            dim * shape.linear_qkv_dim as nat,
            dim * dim,
            dim * shape.n_linear_v_heads as nat,
            dim * shape.n_linear_v_heads as nat,
            dim * dim,
        ] + mlp
    }
}

/// The quantized tensors of the first `n` layers.
pub open spec fn layer_pieces(shape: Shape, n: nat) -> Seq<Piece>
    decreases n,
{
    if n == 0 {
        seq![]
    } else {
        layer_pieces(shape, (n - 1) as nat) + stream::tensors_pieces(
            layer_tensor_sizes(shape, n - 1),
            shape.group_size as nat,
        )
    }
}

/// The pieces in front of the quantized tensors of layer `i`.
pub open spec fn pieces_before_layer(shape: Shape, i: nat) -> Seq<Piece> {
    norm_pieces(shape) + delta_pieces(shape, shape.n_linear as nat) + embedding_pieces(shape) + layer_pieces(shape, i)
}

/// All weights of the model.
pub open spec fn weight_stream(shape: Shape) -> Seq<Piece> {
    pieces_before_layer(shape, shape.n_layers as nat)
}

/// Row `i` of a piece that holds rows of `width` numbers of four bytes.
pub open spec fn row_of(block: Span, width: usize, i: int) -> Span {
    Span { offset: (block.offset + i * (width * 4)) as usize, len: (width * 4) as usize }
}

/// The place of piece `k` of the weights, which start at `base`.
pub open spec fn weight_span(shape: Shape, base: nat, k: int) -> Span {
    stream::span_at(weight_stream(shape), base, k)
}

/// Row `i` of the norms in piece `k`.
pub open spec fn norm_at(shape: Shape, base: nat, k: int, width: usize, i: int) -> StandardRMSNorm {
    StandardRMSNorm { weight: row_of(weight_span(shape, base, k), width, i), eps: shape.norm_eps }
}

/// The quantized tensors of layer `i`.
pub open spec fn layer_tensor(shape: Shape, base: nat, i: int, t: int) -> QuantizedTensor {
    stream::tensor_at(weight_stream(shape), base, pieces_before_layer(shape, i as nat).len() + 2 * t)
}

/// The linear map in a tensor.
pub open spec fn linear_of(shape: Shape, weight: QuantizedTensor, in_features: usize, out_features: usize) -> QLinear {
    QLinear { weight, in_features, out_features, group_size: shape.group_size }
}

/// What mixes the positions in full attention layer `i`.
pub open spec fn full_attention_at(shape: Shape, base: nat, i: int) -> GatedFullAttention {
    let t = |k: int| layer_tensor(shape, base, i, k);
    GatedFullAttention {
        wq: linear_of(shape, t(0), shape.dim, (2 * shape.all_heads_dim) as usize),
        wk: linear_of(shape, t(1), shape.dim, shape.kv_dim),
        wv: linear_of(shape, t(2), shape.dim, shape.kv_dim),
        wo: linear_of(shape, t(3), shape.all_heads_dim, shape.dim),
        q_norm: norm_at(shape, base, 3, shape.head_dim, i),
        k_norm: norm_at(shape, base, 4, shape.head_dim, i),
        n_heads: shape.n_heads,
        n_kv_heads: shape.n_kv_heads,
        head_dim: shape.head_dim,
        kv_mul: (shape.n_heads as int / shape.n_kv_heads as int) as usize,
        rotary_dim: shape.rotary_dim,
        rope_theta: shape.rope_theta,
        group_size: shape.group_size,
    }
}

/// What mixes the positions in linear attention layer `i`.
pub open spec fn delta_net_at(shape: Shape, base: nat, i: int) -> GatedDeltaNet {
    let t = |k: int| layer_tensor(shape, base, i, k);
    let first = 6 + 3 * mask::linear_before(shape.full_attention_mask, i) as int;
    GatedDeltaNet {
        w_qkv: linear_of(shape, t(0), shape.dim, shape.linear_qkv_dim),
        w_z: linear_of(shape, t(1), shape.dim, shape.dim),
        w_b: linear_of(shape, t(2), shape.dim, shape.n_linear_v_heads),
        w_a: linear_of(shape, t(3), shape.dim, shape.n_linear_v_heads),
        w_out: linear_of(shape, t(4), shape.dim, shape.dim),
        a_log: weight_span(shape, base, first),
        dt_bias: weight_span(shape, base, first + 1),
        conv_weight: weight_span(shape, base, first + 2),
        gated_norm: GatedRMSNorm {
            weight: row_of(weight_span(shape, base, 5), shape.linear_v_head_dim, i),
            eps: shape.norm_eps,
            n_v_heads: shape.n_linear_v_heads,
            v_head_dim: shape.linear_v_head_dim,
        },
        n_k_heads: shape.n_linear_k_heads,
        k_head_dim: shape.linear_k_head_dim,
        v_head_dim: shape.linear_v_head_dim,
        q_head_dim: shape.linear_k_head_dim,
        qkv_dim: shape.linear_qkv_dim,
        conv_kernel: shape.conv_kernel_size,
        group_size: shape.group_size,
        dim: shape.dim,
        norm_eps: shape.norm_eps,
    }
}

/// The quantized weights of layer `i`.
pub open spec fn layer_at(shape: Shape, base: nat, i: int) -> LayerWeights {
    let full = mask::is_full(shape.full_attention_mask, i);
    let t = |k: int| layer_tensor(shape, base, i, if full { 4 + k } else { 5 + k });
    LayerWeights {
        mixer: if full {
            Mixer::FullAttention(full_attention_at(shape, base, i))
        } else {
            Mixer::DeltaNet(delta_net_at(shape, base, i))
        },
        mlp_w1: linear_of(shape, t(0), shape.dim, shape.hidden_dim),
        mlp_w2: linear_of(shape, t(1), shape.hidden_dim, shape.dim),
        mlp_w3: linear_of(shape, t(2), shape.dim, shape.hidden_dim),
    }
}

/// The embedding.
pub open spec fn embedding_at(shape: Shape, base: nat) -> QuantizedTensor {
    stream::tensor_at(weight_stream(shape), base, 6 + 3 * shape.n_linear)
}

/// The linear attention layer that layer `i` is, if it is one.
pub open spec fn linear_slot(shape: Shape, i: int) -> Option<usize> {
    if mask::is_full(shape.full_attention_mask, i) {
        None
    } else {
        Some(mask::linear_before(shape.full_attention_mask, i) as usize)
    }
}

proof fn lemma_delta_len(shape: Shape, n: nat)
    ensures
        delta_pieces(shape, n).len() == 3 * n,
    decreases n,
{
    if n > 0 {
        lemma_delta_len(shape, (n - 1) as nat);
    }
}

/// `prefix` is a part of the weights, from the first piece on.
spec fn leads(shape: Shape, prefix: Seq<Piece>) -> bool {
    &&& prefix.len() <= weight_stream(shape).len()
    &&& weight_stream(shape).take(prefix.len() as int) == prefix
}

proof fn lemma_leads(shape: Shape, prefix: Seq<Piece>, rest: Seq<Piece>)
    requires
        leads(shape, prefix + rest),
    ensures
        leads(shape, prefix),
{
    assert(weight_stream(shape).take(prefix.len() as int) =~= (prefix + rest).take(prefix.len() as int));
    assert((prefix + rest).take(prefix.len() as int) =~= prefix);
}

proof fn lemma_layers_lead(shape: Shape, i: nat)
    requires
        i <= shape.n_layers,
    ensures
        leads(shape, pieces_before_layer(shape, i)),
    decreases shape.n_layers - i,
{
    if i == shape.n_layers {
        let all = weight_stream(shape);
        assert(all.take(all.len() as int) =~= all);
    } else {
        lemma_layers_lead(shape, i + 1);
        let more = stream::tensors_pieces(layer_tensor_sizes(shape, i as int), shape.group_size as nat);
        assert(pieces_before_layer(shape, i + 1) =~= pieces_before_layer(shape, i) + more);
        lemma_leads(shape, pieces_before_layer(shape, i), more);
    }
}

proof fn lemma_embedding_leads(shape: Shape)
    ensures
        leads(
            shape,
            norm_pieces(shape) + delta_pieces(shape, shape.n_linear as nat) + embedding_pieces(shape),
        ),
        leads(shape, norm_pieces(shape) + delta_pieces(shape, shape.n_linear as nat)),
        leads(shape, norm_pieces(shape)),
{
    lemma_layers_lead(shape, 0);
    let delta = delta_pieces(shape, shape.n_linear as nat);
    assert(pieces_before_layer(shape, 0) =~= norm_pieces(shape) + delta + embedding_pieces(shape));
    lemma_leads(shape, norm_pieces(shape) + delta, embedding_pieces(shape));
    lemma_leads(shape, norm_pieces(shape), delta);
}

proof fn lemma_delta_leads(shape: Shape, i: nat)
    requires
        i <= shape.n_linear,
    ensures
        leads(shape, norm_pieces(shape) + delta_pieces(shape, i)),
    decreases shape.n_linear - i,
{
    if i == shape.n_linear {
        lemma_embedding_leads(shape);
    } else {
        lemma_delta_leads(shape, i + 1);
        assert(norm_pieces(shape) + delta_pieces(shape, i + 1) =~= (norm_pieces(shape) + delta_pieces(shape, i))
            + delta_layer_pieces(shape, i));
        lemma_leads(shape, norm_pieces(shape) + delta_pieces(shape, i), delta_layer_pieces(shape, i));
    }
}

proof fn lemma_stuck(shape: Shape, prefix: Seq<Piece>, limit: nat, label: Seq<char>)
    requires
        leads(shape, prefix),
        stream::first_unfit(prefix, limit) == Some(label),
    ensures
        stream::first_unfit(weight_stream(shape), limit) == Some(label),
{
    let all = weight_stream(shape);
    let rest = all.skip(prefix.len() as int);
    assert(all =~= prefix + rest);
    stream::lemma_first_unfit_concat(prefix, rest, limit);
}

proof fn lemma_span_leads(shape: Shape, prefix: Seq<Piece>, base: nat, k: int)
    requires
        leads(shape, prefix),
        0 <= k < prefix.len(),
    ensures
        stream::span_at(prefix, base, k) == weight_span(shape, base, k),
{
    let all = weight_stream(shape);
    let rest = all.skip(prefix.len() as int);
    assert(all =~= prefix + rest);
    stream::lemma_span_stable(prefix, rest, base, k);
}

fn float_bytes(rows: usize, width: usize) -> (bytes: Option<usize>)
    ensures
        size::denotes(bytes, rows as nat * width as nat * 4),
{
    assert(size::denotes(Some(rows), rows as nat));
    let count = size::times(Some(rows), width);
    assert(size::denotes(count, rows as nat * width as nat));
    size::times(count, 4)
}

/// The norms have their lengths, and lie in the checkpoint.
spec fn norms_placed(shape: Shape, spans: Seq<Span>) -> bool {
    &&& spans.len() == 6
    &&& forall|k: int|
        0 <= k < 6 ==> (#[trigger] spans[k]).len == norm_pieces(shape)[k].bytes && spans[k].offset + spans[k].len
            <= usize::MAX
}

/// Reads the norms of the model.
fn read_norms(reader: &mut StreamReader<'_>, shape: &Shape) -> (result: Result<Vec<Span>, String>)
    requires
        old(reader).wf(),
        old(reader).done@ == Seq::<Piece>::empty(),
    ensures
        match result {
            Ok(spans) => {
                &&& final(reader).read_on(*old(reader), norm_pieces(*shape))
                &&& spans@.len() == 6
                &&& forall|k: int| 0 <= k < 6 ==> #[trigger] spans@[k] == weight_span(*shape, old(reader).base@, k)
                &&& norms_placed(*shape, spans@)
            },
            Err(label) => stream::first_unfit(weight_stream(*shape), old(reader).limit()) == Some(label@),
        },
{
    let ghost before = *reader;
    let n: usize = shape.n_layers;
    let sizes: Vec<Option<usize>> = vec![
        float_bytes(n, shape.dim),
        float_bytes(n, shape.dim),
        float_bytes(1, shape.dim),
        float_bytes(n, shape.head_dim),
        float_bytes(n, shape.head_dim),
        float_bytes(n, shape.linear_v_head_dim),
    ];
    let labels: Vec<String> = vec![
        "input norms".to_owned(),
        "post-attention norms".to_owned(),
        "final norm".to_owned(),
        "Q norms".to_owned(),
        "K norms".to_owned(),
        "DeltaNet gated norms".to_owned(),
    ];
    let ghost pieces = norm_pieces(*shape);
    proof {
        lemma_embedding_leads(*shape);
        assert(before.done@ + pieces =~= pieces);
        assert(1 * shape.dim as nat == shape.dim as nat);
    }
    match stream::read_pieces(reader, &sizes, &labels, Ghost(pieces)) {
        Ok(spans) => {
            proof {
                assert forall|k: int| 0 <= k < 6 implies #[trigger] spans@[k] == weight_span(
                    *shape,
                    before.base@,
                    k,
                ) by {
                    lemma_span_leads(*shape, pieces, before.base@, k);
                }
            }
            Ok(spans)
        },
        Err(label) => {
            proof {
                lemma_stuck(*shape, pieces, before.limit(), label@);
            }
            Err(label)
        },
    }
}

/// Reads the single-precision weights of the linear attention layers, three pieces for each.
fn read_delta_weights(reader: &mut StreamReader<'_>, shape: &Shape) -> (result: Result<Vec<Span>, String>)
    requires
        old(reader).wf(),
        old(reader).done@ == norm_pieces(*shape),
    ensures
        match result {
            Ok(spans) => {
                &&& final(reader).read_on(*old(reader), delta_pieces(*shape, shape.n_linear as nat))
                &&& spans@.len() == 3 * shape.n_linear
                &&& forall|k: int|
                    0 <= k < 3 * shape.n_linear ==> #[trigger] spans@[k] == weight_span(
                        *shape,
                        old(reader).base@,
                        6 + k,
                    )
            },
            Err(label) => stream::first_unfit(weight_stream(*shape), old(reader).limit()) == Some(label@),
        },
{
    let ghost before = *reader;
    let mut spans: Vec<Span> = Vec::new();
    assert(before.done@ + delta_pieces(*shape, 0) =~= before.done@);
    for i in 0..shape.n_linear
        invariant
            before == *old(reader),
            before.done@ == norm_pieces(*shape),
            reader.read_on(before, delta_pieces(*shape, i as nat)),
            spans@.len() == 3 * i,
            forall|k: int| 0 <= k < 3 * i ==> #[trigger] spans@[k] == weight_span(*shape, before.base@, 6 + k),
    {
        let ghost sofar = *reader;
        let ghost pieces = delta_layer_pieces(*shape, i as nat);
        let names: Vec<&str> = vec!["A_log", "dt_bias", "conv1d"];
        let mut labels: Vec<String> = Vec::new();
        for j in 0..3usize
            invariant
                names@ == seq!["A_log", "dt_bias", "conv1d"],
                labels@.len() == j,
                forall|k: int| 0 <= k < j ==> (#[trigger] labels@[k])@ == numbered(names@[k]@, i as nat),
        {
            let mut label = names[j].to_owned();
            label.append("[");
            text::push_decimal(&mut label, i as u64);
            label.append("]");
            labels.push(label);
        }
        let sizes: Vec<Option<usize>> = vec![
            float_bytes(1, shape.n_linear_v_heads),
            float_bytes(1, shape.n_linear_v_heads),
            float_bytes(shape.linear_qkv_dim, shape.conv_kernel_size),
        ];
        proof {
            lemma_delta_leads(*shape, (i + 1) as nat);
            lemma_delta_len(*shape, i as nat);
            assert(before.done@ + delta_pieces(*shape, (i + 1) as nat) =~= sofar.done@ + pieces);
            assert(1 * shape.n_linear_v_heads as nat == shape.n_linear_v_heads as nat);
            assert forall|k: int| 0 <= k < 3 implies labels@[k]@ == (#[trigger] pieces[k]).label by {
                assert(labels@[k]@ == numbered(names@[k]@, i as nat));
            }
        }
        match stream::read_pieces(reader, &sizes, &labels, Ghost(pieces)) {
            Ok(more) => {
                proof {
                    assert forall|k: int| 0 <= k < 3 implies #[trigger] more@[k] == weight_span(
                        *shape,
                        before.base@,
                        6 + 3 * i + k,
                    ) by {
                        lemma_span_leads(*shape, reader.done@, before.base@, 6 + 3 * i + k);
                    }
                }
                spans.push(more[0]);
                spans.push(more[1]);
                spans.push(more[2]);
            },
            Err(label) => {
                proof {
                    lemma_stuck(*shape, sofar.done@ + pieces, before.limit(), label@);
                }
                return Err(label);
            },
        }
    }
    Ok(spans)
}

/// The sizes of the quantized tensors of layer `i`.
fn tensor_sizes(shape: &Shape, i: usize) -> (sizes: Vec<Option<usize>>)
    requires
        i < mask::MAX_LAYERS,
    ensures
        stream::all_denote(sizes@, layer_tensor_sizes(*shape, i as int)),
{
    let dim = Some(shape.dim);
    assert(size::denotes(dim, shape.dim as nat));
    assert(size::denotes(Some(shape.hidden_dim), shape.hidden_dim as nat));
    assert(size::denotes(Some(shape.all_heads_dim), shape.all_heads_dim as nat));
    let twice = size::times(dim, 2);
    assert(size::denotes(twice, shape.dim as nat * 2));
    let up = size::times(dim, shape.hidden_dim);
    let down = size::times(Some(shape.hidden_dim), shape.dim);
    assert(size::denotes(up, shape.dim as nat * shape.hidden_dim as nat));
    assert(size::denotes(down, shape.hidden_dim as nat * shape.dim as nat));
    let ghost numbers = layer_tensor_sizes(*shape, i as int);
    if mask::has_full_attention(shape.full_attention_mask, i) {
        let sizes: Vec<Option<usize>> = vec![
            size::times(twice, shape.all_heads_dim),
            size::times(dim, shape.kv_dim),
            size::times(dim, shape.kv_dim),
            size::times(Some(shape.all_heads_dim), shape.dim),
            up,
            down,
            up,
        ];
        assert forall|k: int| 0 <= k < 7 implies #[trigger] size::denotes(sizes@[k], numbers[k]) by {}
        sizes
    } else {
        let sizes: Vec<Option<usize>> = vec![
            size::times(dim, shape.linear_qkv_dim),
            size::times(dim, shape.dim),
            size::times(dim, shape.n_linear_v_heads),
            size::times(dim, shape.n_linear_v_heads),
            size::times(dim, shape.dim),
            up,
            down,
            up,
        ];
        assert forall|k: int| 0 <= k < 8 implies #[trigger] size::denotes(sizes@[k], numbers[k]) by {}
        sizes
    }
}

proof fn lemma_row_fits(block: Span, rows: nat, width: nat, i: nat)
    requires
        i < rows,
        block.len == rows * width * 4,
        block.offset + block.len <= usize::MAX,
    ensures
        block.offset + i * (width * 4) + width * 4 <= usize::MAX,
        i * (width * 4) <= usize::MAX,
{
    assert(i * (width * 4) + width * 4 <= rows * width * 4) by (nonlinear_arith)
        requires
            i < rows,
    ;
    assert(0 <= i * (width * 4)) by (nonlinear_arith);
}

/// Row `i` of a piece with `rows` rows of `width` numbers of four bytes.
fn row(block: Span, rows: usize, width: usize, i: usize) -> (span: Span)
    requires
        i < rows,
        block.len == rows as nat * width as nat * 4,
        block.offset + block.len <= usize::MAX,
    ensures
        span == row_of(block, width, i as int),
{
    proof {
        lemma_row_fits(block, rows as nat, width as nat, i as nat);
    }
    Span { offset: block.offset + i * (width * 4), len: width * 4 }
}

/// The norms of all layers in a piece.
fn layer_norms(shape: &Shape, block: Span) -> (norms: Vec<StandardRMSNorm>)
    requires
        block.len == shape.n_layers as nat * shape.dim as nat * 4,
        block.offset + block.len <= usize::MAX,
    ensures
        norms@ == Seq::new(
            shape.n_layers as nat,
            |i: int| StandardRMSNorm { weight: row_of(block, shape.dim, i), eps: shape.norm_eps },
        ),
{
    let mut norms: Vec<StandardRMSNorm> = Vec::new();
    for i in 0..shape.n_layers
        invariant
            block.len == shape.n_layers as nat * shape.dim as nat * 4,
            block.offset + block.len <= usize::MAX,
            norms@.len() == i,
            forall|k: int|
                0 <= k < i ==> #[trigger] norms@[k] == (StandardRMSNorm {
                    weight: row_of(block, shape.dim, k),
                    eps: shape.norm_eps,
                }),
    {
        norms.push(StandardRMSNorm::new(row(block, shape.n_layers, shape.dim, i), shape.norm_eps));
    }
    norms
}

/// What has to hold of the dimensions for the weights to be read.
pub open spec fn sound(shape: Shape) -> bool {
    &&& shape.group_size > 0
    &&& shape.n_kv_heads > 0
    &&& shape.n_layers <= mask::MAX_LAYERS
    &&& shape.n_linear == mask::linear_before(shape.full_attention_mask, shape.n_layers as int)
    &&& shape.all_heads_dim == shape.dim
}

fn linear(shape: &Shape, weight: QuantizedTensor, in_features: usize, out_features: usize) -> (map: QLinear)
    ensures
        map == linear_of(*shape, weight, in_features, out_features),
{
    QLinear { weight, in_features, out_features, group_size: shape.group_size }
}

/// The width of queries and gates fits where the tensor that projects onto them was read.
proof fn lemma_query_width(shape: Shape, i: int, sofar: Seq<Piece>, read: Seq<Piece>)
    requires
        sound(shape),
        mask::is_full(shape.full_attention_mask, i),
        read == sofar + stream::tensors_pieces(layer_tensor_sizes(shape, i), shape.group_size as nat),
        stream::total_bytes(read) <= usize::MAX,
    ensures
        2 * shape.all_heads_dim <= usize::MAX,
{
    let numbers = layer_tensor_sizes(shape, i);
    stream::lemma_tensors_index(numbers, shape.group_size as nat, 0);
    stream::lemma_piece_fits(read, sofar.len() as int);
    let dim = shape.dim as nat;
    assert(read[sofar.len() as int].bytes == dim * 2 * dim);
    if dim > 0 {
        assert(dim * 2 * dim >= 2 * dim) by (nonlinear_arith)
            requires
                dim >= 1,
        ;
    }
}

/// Puts the weights of layer `i` together.
fn assemble_layer(
    shape: &Shape,
    norms: &Vec<Span>,
    delta: &Vec<Span>,
    tensors: &Vec<QuantizedTensor>,
    i: usize,
    linear_idx: usize,
    Ghost(base): Ghost<nat>,
) -> (layer: LayerWeights)
    requires
        sound(*shape),
        i < shape.n_layers,
        linear_idx == mask::linear_before(shape.full_attention_mask, i as int),
        norms_placed(*shape, norms@),
        forall|k: int| 0 <= k < 6 ==> #[trigger] norms@[k] == weight_span(*shape, base, k),
        delta@.len() == 3 * shape.n_linear,
        forall|k: int| 0 <= k < delta@.len() ==> #[trigger] delta@[k] == weight_span(*shape, base, 6 + k),
        tensors@.len() == layer_tensor_sizes(*shape, i as int).len(),
        forall|k: int| 0 <= k < tensors@.len() ==> #[trigger] tensors@[k] == layer_tensor(*shape, base, i as int, k),
        mask::is_full(shape.full_attention_mask, i as int) ==> 2 * shape.all_heads_dim <= usize::MAX,
    ensures
        layer == layer_at(*shape, base, i as int),
{
    assert(norms@[3].len == norm_pieces(*shape)[3].bytes);
    assert(norms@[4].len == norm_pieces(*shape)[4].bytes);
    assert(norms@[5].len == norm_pieces(*shape)[5].bytes);
    if mask::has_full_attention(shape.full_attention_mask, i) {
        let attn = GatedFullAttention {
            wq: linear(shape, tensors[0], shape.dim, 2 * shape.all_heads_dim),
            wk: linear(shape, tensors[1], shape.dim, shape.kv_dim),
            wv: linear(shape, tensors[2], shape.dim, shape.kv_dim),
            wo: linear(shape, tensors[3], shape.all_heads_dim, shape.dim),
            q_norm: StandardRMSNorm::new(row(norms[3], shape.n_layers, shape.head_dim, i), shape.norm_eps),
            k_norm: StandardRMSNorm::new(row(norms[4], shape.n_layers, shape.head_dim, i), shape.norm_eps),
            n_heads: shape.n_heads,
            n_kv_heads: shape.n_kv_heads,
            head_dim: shape.head_dim,
            kv_mul: shape.n_heads / shape.n_kv_heads,
            rotary_dim: shape.rotary_dim,
            rope_theta: shape.rope_theta,
            group_size: shape.group_size,
        };
        assert(attn == full_attention_at(*shape, base, i as int));
        LayerWeights {
            mixer: Mixer::FullAttention(attn),
            mlp_w1: linear(shape, tensors[4], shape.dim, shape.hidden_dim),
            mlp_w2: linear(shape, tensors[5], shape.hidden_dim, shape.dim),
            mlp_w3: linear(shape, tensors[6], shape.dim, shape.hidden_dim),
        }
    } else {
        proof {
            mask::lemma_counts_grow(shape.full_attention_mask, i as int, shape.n_layers as int);
            mask::lemma_full_before_bounds(shape.full_attention_mask, shape.n_layers as int);
        }
        let net = GatedDeltaNet {
            w_qkv: linear(shape, tensors[0], shape.dim, shape.linear_qkv_dim),
            w_z: linear(shape, tensors[1], shape.dim, shape.dim),
            w_b: linear(shape, tensors[2], shape.dim, shape.n_linear_v_heads),
            w_a: linear(shape, tensors[3], shape.dim, shape.n_linear_v_heads),
            w_out: linear(shape, tensors[4], shape.dim, shape.dim),
            a_log: delta[3 * linear_idx],
            dt_bias: delta[3 * linear_idx + 1],
            conv_weight: delta[3 * linear_idx + 2],
            gated_norm: GatedRMSNorm::new(
                row(norms[5], shape.n_layers, shape.linear_v_head_dim, i),
                shape.norm_eps,
                shape.n_linear_v_heads,
                shape.linear_v_head_dim,
            ),
            n_k_heads: shape.n_linear_k_heads,
            k_head_dim: shape.linear_k_head_dim,
            v_head_dim: shape.linear_v_head_dim,
            q_head_dim: shape.linear_k_head_dim,
            qkv_dim: shape.linear_qkv_dim,
            conv_kernel: shape.conv_kernel_size,
            group_size: shape.group_size,
            dim: shape.dim,
            norm_eps: shape.norm_eps,
        };
        assert(net == delta_net_at(*shape, base, i as int));
        LayerWeights {
            mixer: Mixer::DeltaNet(net),
            mlp_w1: linear(shape, tensors[5], shape.dim, shape.hidden_dim),
            mlp_w2: linear(shape, tensors[6], shape.hidden_dim, shape.dim),
            mlp_w3: linear(shape, tensors[7], shape.dim, shape.hidden_dim),
        }
    }
}

/// Reads the quantized tensors of all layers and puts the layers together.
fn read_layers(reader: &mut StreamReader<'_>, shape: &Shape, norms: &Vec<Span>, delta: &Vec<Span>) -> (result: Result<
    Vec<LayerWeights>,
    String,
>)
    requires
        old(reader).wf(),
        old(reader).done@ == pieces_before_layer(*shape, 0),
        sound(*shape),
        norms_placed(*shape, norms@),
        forall|k: int| 0 <= k < 6 ==> #[trigger] norms@[k] == weight_span(*shape, old(reader).base@, k),
        delta@.len() == 3 * shape.n_linear,
        forall|k: int|
            0 <= k < delta@.len() ==> #[trigger] delta@[k] == weight_span(*shape, old(reader).base@, 6 + k),
    ensures
        match result {
            Ok(layers) => {
                &&& layers@ == Seq::new(shape.n_layers as nat, |i: int| layer_at(*shape, old(reader).base@, i))
                &&& stream::first_unfit(weight_stream(*shape), old(reader).limit()) is None
            },
            Err(label) => stream::first_unfit(weight_stream(*shape), old(reader).limit()) == Some(label@),
        },
{
    let ghost before = *reader;
    let ghost base = before.base@;
    let mut layers: Vec<LayerWeights> = Vec::new();
    let mut linear_idx: usize = 0;
    for i in 0..shape.n_layers
        invariant
            before == *old(reader),
            base == before.base@,
            sound(*shape),
            reader.wf(),
            reader.base@ == base,
            reader.mapper@.data == before.mapper@.data,
            reader.done@ == pieces_before_layer(*shape, i as nat),
            linear_idx == mask::linear_before(shape.full_attention_mask, i as int),
            linear_idx <= i,
            norms_placed(*shape, norms@),
            forall|k: int| 0 <= k < 6 ==> #[trigger] norms@[k] == weight_span(*shape, base, k),
            delta@.len() == 3 * shape.n_linear,
            forall|k: int| 0 <= k < delta@.len() ==> #[trigger] delta@[k] == weight_span(*shape, base, 6 + k),
            layers@.len() == i,
            forall|k: int| 0 <= k < i ==> #[trigger] layers@[k] == layer_at(*shape, base, k),
    {
        let ghost sofar = *reader;
        let ghost numbers = layer_tensor_sizes(*shape, i as int);
        let ghost more = stream::tensors_pieces(numbers, shape.group_size as nat);
        let sizes = tensor_sizes(shape, i);
        proof {
            lemma_layers_lead(*shape, (i + 1) as nat);
            stream::lemma_tensors_concat(numbers, Seq::empty(), shape.group_size as nat);
            assert(pieces_before_layer(*shape, (i + 1) as nat) =~= sofar.done@ + more);
            mask::lemma_full_before_bounds(shape.full_attention_mask, i as int);
            mask::lemma_full_before_bounds(shape.full_attention_mask, i + 1);
        }
        match stream::read_tensor_list(reader, &sizes, shape.group_size, Ghost(numbers)) {
            Ok(tensors) => {
                proof {
                    assert forall|k: int| 0 <= k < tensors@.len() implies #[trigger] tensors@[k] == layer_tensor(
                        *shape,
                        base,
                        i as int,
                        k,
                    ) by {
                        lemma_span_leads(*shape, reader.done@, base, sofar.done@.len() + 2 * k);
                        lemma_span_leads(*shape, reader.done@, base, sofar.done@.len() + 2 * k + 1);
                    }
                    if mask::is_full(shape.full_attention_mask, i as int) {
                        lemma_query_width(*shape, i as int, sofar.done@, reader.done@);
                    }
                }
                layers.push(assemble_layer(shape, norms, delta, &tensors, i, linear_idx, Ghost(base)));
                if !mask::has_full_attention(shape.full_attention_mask, i) {
                    linear_idx += 1;
                }
            },
            Err(label) => {
                proof {
                    lemma_stuck(*shape, sofar.done@ + more, before.limit(), label@);
                }
                return Err(label);
            },
        }
    }
    Ok(layers)
}

/// Reads the embedding.
fn read_embedding(reader: &mut StreamReader<'_>, shape: &Shape) -> (result: Result<QuantizedTensor, String>)
    requires
        old(reader).wf(),
        sound(*shape),
        old(reader).done@ == norm_pieces(*shape) + delta_pieces(*shape, shape.n_linear as nat),
    ensures
        match result {
            Ok(tensor) => {
                &&& final(reader).read_on(*old(reader), embedding_pieces(*shape))
                &&& tensor == embedding_at(*shape, old(reader).base@)
            },
            Err(label) => stream::first_unfit(weight_stream(*shape), old(reader).limit()) == Some(label@),
        },
{
    let ghost before = *reader;
    let ghost n = shape.vocab_size as nat * shape.dim as nat;
    let ghost numbers = Seq::new(1, |k: int| n);
    assert(size::denotes(Some(shape.vocab_size), shape.vocab_size as nat));
    let elements = size::times(Some(shape.vocab_size), shape.dim);
    proof {
        lemma_embedding_leads(*shape);
        lemma_delta_len(*shape, shape.n_linear as nat);
        assert(numbers.drop_last() =~= Seq::<nat>::empty());
        assert(stream::tensors_pieces(numbers, shape.group_size as nat) =~= embedding_pieces(*shape)) by {
            reveal_with_fuel(stream::tensors_pieces, 2);
        }
    }
    match stream::read_quantized_tensors(reader, 1, elements, shape.group_size, Ghost(n)) {
        Ok(tensors) => {
            proof {
                lemma_span_leads(*shape, reader.done@, before.base@, before.done@.len() as int);
                lemma_span_leads(*shape, reader.done@, before.base@, before.done@.len() as int + 1);
            }
            Ok(tensors[0])
        },
        Err(label) => {
            proof {
                lemma_stuck(*shape, before.done@ + embedding_pieces(*shape), before.limit(), label@);
            }
            Err(label)
        },
    }
}

/// Where the weights fit, so does the embedding.
pub proof fn lemma_embedding_fits(shape: Shape, available: nat)
    requires
        stream::first_unfit(weight_stream(shape), available) is None,
    ensures
        shape.vocab_size as nat * shape.dim as nat <= available,
{
    let all = weight_stream(shape);
    let before = norm_pieces(shape) + delta_pieces(shape, shape.n_linear as nat);
    let k = before.len() as int;
    lemma_embedding_leads(shape);
    assert(all.take(k + 2)[k] == embedding_pieces(shape)[0]);
    stream::lemma_piece_fits(all, k);
    stream::lemma_first_unfit_concat(all, Seq::empty(), available);
    assert(all + Seq::<Piece>::empty() =~= all);
}

/// Which linear attention layer each layer is.
fn linear_slots(shape: &Shape) -> (slots: Vec<Option<usize>>)
    requires
        shape.n_layers <= mask::MAX_LAYERS,
    ensures
        slots@ == Seq::new(shape.n_layers as nat, |i: int| linear_slot(*shape, i)),
{
    let mut slots: Vec<Option<usize>> = Vec::new();
    let mut next: usize = 0;
    for i in 0..shape.n_layers
        invariant
            shape.n_layers <= mask::MAX_LAYERS,
            next == mask::linear_before(shape.full_attention_mask, i as int),
            next <= i,
            slots@.len() == i,
            forall|k: int| 0 <= k < i ==> #[trigger] slots@[k] == linear_slot(*shape, k),
    {
        proof {
            mask::lemma_full_before_bounds(shape.full_attention_mask, i as int);
        }
        if mask::has_full_attention(shape.full_attention_mask, i) {
            slots.push(None);
        } else {
            slots.push(Some(next));
            next += 1;
        }
    }
    slots
}

/// Where in a checkpoint the weights of a model lie.
#[derive(Debug)]
pub struct Weights {
    pub input_norms: Vec<StandardRMSNorm>,
    pub post_attention_norms: Vec<StandardRMSNorm>,
    pub final_norm: StandardRMSNorm,
    pub embedding_q: QuantizedTensor,
    pub layers: Vec<LayerWeights>,
    /// For each layer with linear attention, which of these layers it is.
    pub linear_layer_map: Vec<Option<usize>>,
}

impl Weights {
    /// Whether these are the places of the weights of a model with the given dimensions, in a
    /// stream that starts at `base`.
    pub open spec fn placed(self, shape: Shape, base: nat) -> bool {
        let n = shape.n_layers as nat;
        &&& self.input_norms@ == Seq::new(n, |i: int| norm_at(shape, base, 0, shape.dim, i))
        &&& self.post_attention_norms@ == Seq::new(n, |i: int| norm_at(shape, base, 1, shape.dim, i))
        &&& self.final_norm == (StandardRMSNorm { weight: weight_span(shape, base, 2), eps: shape.norm_eps })
        &&& self.embedding_q == embedding_at(shape, base)
        &&& self.layers@ == Seq::new(n, |i: int| layer_at(shape, base, i))
        &&& self.linear_layer_map@ == Seq::new(n, |i: int| linear_slot(shape, i))
    }

    /// Finds the weights of a model with the given dimensions, from where the mapper stands on.
    /// Where the checkpoint ends too early, the result is the label of the first piece that does
    /// not fit.
    pub fn read(shape: &Shape, mapper: MemoryMapper<'_>) -> (result: Result<Weights, String>)
        requires
            sound(*shape),
        ensures
            match result {
                Ok(weights) => {
                    &&& weights.placed(*shape, mapper@.offset)
                    &&& stream::first_unfit(weight_stream(*shape), mapper@.rest().len()) is None
                },
                Err(label) => stream::first_unfit(weight_stream(*shape), mapper@.rest().len()) == Some(label@),
            },
    {
        let mut reader = StreamReader::new(mapper);
        let ghost base = mapper@.offset;
        let norms = match read_norms(&mut reader, shape) {
            Ok(norms) => norms,
            Err(label) => {
                return Err(label);
            },
        };
        assert(reader.done@ =~= norm_pieces(*shape));
        let delta = match read_delta_weights(&mut reader, shape) {
            Ok(delta) => delta,
            Err(label) => {
                return Err(label);
            },
        };
        let embedding_q = match read_embedding(&mut reader, shape) {
            Ok(tensor) => tensor,
            Err(label) => {
                return Err(label);
            },
        };
        assert(reader.done@ =~= pieces_before_layer(*shape, 0));
        let layers = match read_layers(&mut reader, shape, &norms, &delta) {
            Ok(layers) => layers,
            Err(label) => {
                return Err(label);
            },
        };
        assert(norms@[0].len == norm_pieces(*shape)[0].bytes);
        assert(norms@[1].len == norm_pieces(*shape)[1].bytes);
        let input_norms = layer_norms(shape, norms[0]);
        let post_attention_norms = layer_norms(shape, norms[1]);
        let ghost n_layers = shape.n_layers as nat;
        assert(input_norms@ =~= Seq::new(n_layers, |i: int| norm_at(*shape, base, 0, shape.dim, i)));
        assert(post_attention_norms@ =~= Seq::new(n_layers, |i: int| norm_at(*shape, base, 1, shape.dim, i)));
        Ok(
            Weights {
                input_norms,
                post_attention_norms,
                final_norm: StandardRMSNorm::new(norms[2], shape.norm_eps),
                embedding_q,
                layers,
                linear_layer_map: linear_slots(shape),
            },
        )
    }
}

/// The places of a tensor.
pub open spec fn tensor_spans(tensor: QuantizedTensor) -> Seq<Span> {
    seq![tensor.q, tensor.s]
}

/// The places of the norms that only one kind of layer has.
pub open spec fn mixer_norms(layer: LayerWeights) -> Seq<Span> {
    match layer.mixer {
        Mixer::FullAttention(attention) => seq![attention.q_norm.weight, attention.k_norm.weight],
        Mixer::DeltaNet(net) => seq![net.gated_norm.weight],
    }
}

/// The places of the other weights of a layer.
pub open spec fn other_spans(layer: LayerWeights) -> Seq<Span> {
    let mixer = match layer.mixer {
        Mixer::FullAttention(a) => tensor_spans(a.wq.weight) + tensor_spans(a.wk.weight) + tensor_spans(a.wv.weight)
            + tensor_spans(a.wo.weight),
        Mixer::DeltaNet(n) => seq![n.a_log, n.dt_bias, n.conv_weight] + tensor_spans(n.w_qkv.weight) + tensor_spans(
            n.w_z.weight,
        ) + tensor_spans(n.w_b.weight) + tensor_spans(n.w_a.weight) + tensor_spans(n.w_out.weight),
    };
    mixer + tensor_spans(layer.mlp_w1.weight) + tensor_spans(layer.mlp_w2.weight) + tensor_spans(layer.mlp_w3.weight)
}

impl Weights {
    /// Whether the model takes weights from the place.
    pub open spec fn uses(self, span: Span) -> bool {
        ||| exists|i: int| 0 <= i < self.input_norms@.len() && span == (#[trigger] self.input_norms@[i]).weight
        ||| exists|i: int|
            0 <= i < self.post_attention_norms@.len() && span == (#[trigger] self.post_attention_norms@[i]).weight
        ||| span == self.final_norm.weight
        ||| tensor_spans(self.embedding_q).contains(span)
        ||| exists|i: int| 0 <= i < self.layers@.len() && mixer_norms(#[trigger] self.layers@[i]).contains(span)
        ||| exists|i: int| 0 <= i < self.layers@.len() && other_spans(#[trigger] self.layers@[i]).contains(span)
    }
}

/// Whether byte `p` belongs to the place.
pub open spec fn covers(span: Span, p: int) -> bool {
    span.offset <= p < span.offset + span.len
}

/// Whether byte `p` belongs to a placeholder: to the row of a full attention layer among the gated
/// norms, or to that of a linear attention layer among the query norms or the key norms.
pub open spec fn in_placeholder(shape: Shape, base: nat, p: int) -> bool {
    exists|j: int| #[trigger] placeholder_of(shape, base, j, p)
}

/// Whether byte `p` belongs to a placeholder of layer `j`.
pub open spec fn placeholder_of(shape: Shape, base: nat, j: int, p: int) -> bool {
    &&& 0 <= j < shape.n_layers
    &&& if mask::is_full(shape.full_attention_mask, j) {
        covers(row_of(weight_span(shape, base, 5), shape.linear_v_head_dim, j), p)
    } else {
        covers(row_of(weight_span(shape, base, 3), shape.head_dim, j), p) || covers(
            row_of(weight_span(shape, base, 4), shape.head_dim, j),
            p,
        )
    }
}

/// A layer with full attention takes its own rows of the query norms and key norms, and none of the
/// gated norms; a layer with linear attention takes its own row of the gated norms, and none of the
/// others.
pub proof fn law_layers_take_their_own_norms(weights: Weights, shape: Shape, base: nat, i: int)
    requires
        weights.placed(shape, base),
        0 <= i < shape.n_layers,
    ensures
        mixer_norms(weights.layers@[i]) == if mask::is_full(shape.full_attention_mask, i) {
            seq![
                row_of(weight_span(shape, base, 3), shape.head_dim, i),
                row_of(weight_span(shape, base, 4), shape.head_dim, i),
            ]
        } else {
            seq![row_of(weight_span(shape, base, 5), shape.linear_v_head_dim, i)]
        },
{
}

/// The stream fits into what is there.
spec fn stream_fits(shape: Shape, base: nat, available: nat) -> bool {
    &&& sound(shape)
    &&& stream::first_unfit(weight_stream(shape), available) is None
    &&& base + available <= usize::MAX
}

/// Whether the place lies within piece `k`.
spec fn within_piece(shape: Shape, base: nat, span: Span, k: int) -> bool {
    &&& 0 <= k < weight_stream(shape).len()
    &&& weight_span(shape, base, k).offset <= span.offset
    &&& span.offset + span.len <= weight_span(shape, base, k).offset + weight_span(shape, base, k).len
}

proof fn lemma_norm_piece(shape: Shape, base: nat, available: nat, k: int)
    requires
        stream_fits(shape, base, available),
        0 <= k < 6,
    ensures
        weight_stream(shape).len() >= 6,
        weight_span(shape, base, k).len == norm_pieces(shape)[k].bytes,
        weight_span(shape, base, k).offset + weight_span(shape, base, k).len <= usize::MAX,
{
    lemma_embedding_leads(shape);
    assert(weight_stream(shape).take(6)[k] == norm_pieces(shape)[k]);
    stream::law_pieces_lie_in_order(weight_stream(shape), base, available, k);
}

/// Rows of a block lie within it, and those of different layers lie apart.
proof fn lemma_rows(block: Span, rows: nat, width: usize, i: int, j: int)
    requires
        0 <= i < rows,
        0 <= j < rows,
        block.len == rows * width as nat * 4,
        block.offset + block.len <= usize::MAX,
    ensures
        block.offset <= row_of(block, width, i).offset,
        row_of(block, width, i).offset + row_of(block, width, i).len <= block.offset + block.len,
        i < j ==> row_of(block, width, i).offset + row_of(block, width, i).len <= row_of(block, width, j).offset,
        i > j ==> row_of(block, width, j).offset + row_of(block, width, j).len <= row_of(block, width, i).offset,
{
    lemma_row_fits(block, rows, width as nat, i as nat);
    lemma_row_fits(block, rows, width as nat, j as nat);
    let step = width * 4;
    assert(i * step + step <= rows * width * 4) by (nonlinear_arith)
        requires
            step == width * 4,
            0 <= i < rows,
            0 <= width,
    ;
    assert(0 <= i * step && 0 <= j * step) by (nonlinear_arith)
        requires
            0 <= i,
            0 <= j,
            0 <= step,
    ;
    assert(i < j ==> i * step + step <= j * step) by (nonlinear_arith)
        requires
            0 <= step,
    ;
    assert(j < i ==> j * step + step <= i * step) by (nonlinear_arith)
        requires
            0 <= step,
    ;
}

/// A place within a piece that holds no placeholders has none of their bytes.
proof fn lemma_piece_without_placeholders(shape: Shape, base: nat, available: nat, span: Span, k: int, p: int)
    requires
        stream_fits(shape, base, available),
        within_piece(shape, base, span, k),
        k < 3 || k > 5,
        covers(span, p),
    ensures
        !in_placeholder(shape, base, p),
{
    let all = weight_stream(shape);
    assert forall|j: int| !#[trigger] placeholder_of(shape, base, j, p) by {
        if placeholder_of(shape, base, j, p) {
            let n = shape.n_layers as nat;
            lemma_norm_piece(shape, base, available, 3);
            lemma_norm_piece(shape, base, available, 4);
            lemma_norm_piece(shape, base, available, 5);
            lemma_rows(weight_span(shape, base, 3), n, shape.head_dim, j, j);
            lemma_rows(weight_span(shape, base, 4), n, shape.head_dim, j, j);
            lemma_rows(weight_span(shape, base, 5), n, shape.linear_v_head_dim, j, j);
            if k < 3 {
                stream::law_pieces_lie_apart(all, base, available, k, 3);
                stream::law_pieces_lie_apart(all, base, available, k, 4);
                stream::law_pieces_lie_apart(all, base, available, k, 5);
            } else {
                stream::law_pieces_lie_apart(all, base, available, 3, k);
                stream::law_pieces_lie_apart(all, base, available, 4, k);
                stream::law_pieces_lie_apart(all, base, available, 5, k);
            }
        }
    }
}

/// The row that a layer takes of the norms of its kind has no byte of a placeholder.
proof fn lemma_own_row_is_no_placeholder(shape: Shape, base: nat, available: nat, i: int, k: int, p: int)
    requires
        stream_fits(shape, base, available),
        0 <= i < shape.n_layers,
        if mask::is_full(shape.full_attention_mask, i) {
            k == 3 || k == 4
        } else {
            k == 5
        },
        covers(
            row_of(
                weight_span(shape, base, k),
                if k == 5 {
                    shape.linear_v_head_dim
                } else {
                    shape.head_dim
                },
                i,
            ),
            p,
        ),
    ensures
        !in_placeholder(shape, base, p),
{
    let all = weight_stream(shape);
    let n = shape.n_layers as nat;
    lemma_norm_piece(shape, base, available, 3);
    lemma_norm_piece(shape, base, available, 4);
    lemma_norm_piece(shape, base, available, 5);
    stream::law_pieces_lie_apart(all, base, available, 3, 4);
    stream::law_pieces_lie_apart(all, base, available, 4, 5);
    assert forall|j: int| !#[trigger] placeholder_of(shape, base, j, p) by {
        if placeholder_of(shape, base, j, p) {
            lemma_rows(weight_span(shape, base, 3), n, shape.head_dim, i, j);
            lemma_rows(weight_span(shape, base, 4), n, shape.head_dim, i, j);
            lemma_rows(weight_span(shape, base, 5), n, shape.linear_v_head_dim, i, j);
            lemma_rows(weight_span(shape, base, 3), n, shape.head_dim, j, i);
            lemma_rows(weight_span(shape, base, 4), n, shape.head_dim, j, i);
            lemma_rows(weight_span(shape, base, 5), n, shape.linear_v_head_dim, j, i);
        }
    }
}

proof fn lemma_whole_piece(shape: Shape, base: nat, k: int)
    requires
        0 <= k < weight_stream(shape).len(),
    ensures
        within_piece(shape, base, weight_span(shape, base, k), k),
{
}

/// Where the tensors of a layer come in the stream.
proof fn lemma_layer_pieces_index(shape: Shape, i: int)
    requires
        sound(shape),
        0 <= i < shape.n_layers,
    ensures
        ({
            let first = pieces_before_layer(shape, i as nat).len();
            let count = layer_tensor_sizes(shape, i).len();
            &&& first >= 8 + 3 * shape.n_linear
            &&& first + 2 * count <= weight_stream(shape).len()
        }),
{
    lemma_delta_len(shape, shape.n_linear as nat);
    lemma_layers_lead(shape, (i + 1) as nat);
    stream::lemma_tensors_concat(layer_tensor_sizes(shape, i), Seq::empty(), shape.group_size as nat);
}

/// `count` pieces from piece `first` on.
spec fn run_of_pieces(shape: Shape, base: nat, first: int, count: nat) -> Seq<Span> {
    Seq::new(count, |c: int| weight_span(shape, base, first + c))
}

proof fn lemma_run_grows(shape: Shape, base: nat, first: int, count: nat)
    ensures
        run_of_pieces(shape, base, first, count) + tensor_spans(
            stream::tensor_at(weight_stream(shape), base, first + count),
        ) == run_of_pieces(shape, base, first, count + 2),
{
    assert(run_of_pieces(shape, base, first, count) + tensor_spans(
        stream::tensor_at(weight_stream(shape), base, first + count),
    ) =~= run_of_pieces(shape, base, first, count + 2));
}

/// The other weights of a layer with full attention are a run of pieces.
proof fn lemma_full_spans(shape: Shape, base: nat, i: int)
    requires
        mask::is_full(shape.full_attention_mask, i),
    ensures
        other_spans(layer_at(shape, base, i)) == run_of_pieces(
            shape,
            base,
            pieces_before_layer(shape, i as nat).len() as int,
            14,
        ),
{
    let first = pieces_before_layer(shape, i as nat).len() as int;
    assert(run_of_pieces(shape, base, first, 0) =~= Seq::<Span>::empty());
    lemma_run_grows(shape, base, first, 0);
    lemma_run_grows(shape, base, first, 2);
    lemma_run_grows(shape, base, first, 4);
    lemma_run_grows(shape, base, first, 6);
    lemma_run_grows(shape, base, first, 8);
    lemma_run_grows(shape, base, first, 10);
    lemma_run_grows(shape, base, first, 12);
    let wq = tensor_spans(layer_tensor(shape, base, i, 0));
    assert(Seq::<Span>::empty() + wq =~= wq);
}

/// The other weights of a layer with linear attention are three pieces and a run of pieces.
proof fn lemma_linear_spans(shape: Shape, base: nat, i: int)
    requires
        !mask::is_full(shape.full_attention_mask, i),
    ensures
        other_spans(layer_at(shape, base, i)) == run_of_pieces(
            shape,
            base,
            6 + 3 * mask::linear_before(shape.full_attention_mask, i) as int,
            3,
        ) + run_of_pieces(shape, base, pieces_before_layer(shape, i as nat).len() as int, 16),
{
    let first = pieces_before_layer(shape, i as nat).len() as int;
    let slot = mask::linear_before(shape.full_attention_mask, i) as int;
    let single = run_of_pieces(shape, base, 6 + 3 * slot, 3);
    let net = delta_net_at(shape, base, i);
    let t = |k: int| tensor_spans(layer_tensor(shape, base, i, k));
    assert(single =~= seq![net.a_log, net.dt_bias, net.conv_weight]);
    assert(run_of_pieces(shape, base, first, 0) =~= Seq::<Span>::empty());
    lemma_run_grows(shape, base, first, 0);
    lemma_run_grows(shape, base, first, 2);
    lemma_run_grows(shape, base, first, 4);
    lemma_run_grows(shape, base, first, 6);
    lemma_run_grows(shape, base, first, 8);
    lemma_run_grows(shape, base, first, 10);
    lemma_run_grows(shape, base, first, 12);
    lemma_run_grows(shape, base, first, 14);
    let run = |n: nat| run_of_pieces(shape, base, first, n);
    assert(single =~= single + run(0));
    assert((single + run(0)) + t(0) =~= single + (run(0) + t(0)));
    assert((single + run(2)) + t(1) =~= single + (run(2) + t(1)));
    assert((single + run(4)) + t(2) =~= single + (run(4) + t(2)));
    assert((single + run(6)) + t(3) =~= single + (run(6) + t(3)));
    assert((single + run(8)) + t(4) =~= single + (run(8) + t(4)));
    assert((single + run(10)) + t(5) =~= single + (run(10) + t(5)));
    assert((single + run(12)) + t(6) =~= single + (run(12) + t(6)));
    assert((single + run(14)) + t(7) =~= single + (run(14) + t(7)));
}

/// A place in a run of pieces is one of them.
proof fn lemma_in_run(shape: Shape, base: nat, first: int, count: nat, spans: Seq<Span>, span: Span) -> (k: int)
    requires
        spans == run_of_pieces(shape, base, first, count),
        spans.contains(span),
    ensures
        first <= k < first + count,
        span == weight_span(shape, base, k),
{
    let c = choose|c: int| 0 <= c < spans.len() && spans[c] == span;
    first + c
}

/// The places of the other weights of a layer are whole pieces that hold no placeholders.
proof fn lemma_other_spans(shape: Shape, base: nat, i: int, spans: Seq<Span>, span: Span) -> (k: int)
    requires
        sound(shape),
        0 <= i < shape.n_layers,
        spans == if mask::is_full(shape.full_attention_mask, i) {
            run_of_pieces(shape, base, pieces_before_layer(shape, i as nat).len() as int, 14)
        } else {
            run_of_pieces(shape, base, 6 + 3 * mask::linear_before(shape.full_attention_mask, i) as int, 3)
                + run_of_pieces(shape, base, pieces_before_layer(shape, i as nat).len() as int, 16)
        },
        spans.contains(span),
    ensures
        6 <= k < weight_stream(shape).len(),
        span == weight_span(shape, base, k),
{
    let first = pieces_before_layer(shape, i as nat).len() as int;
    lemma_layer_pieces_index(shape, i);
    if mask::is_full(shape.full_attention_mask, i) {
        lemma_in_run(shape, base, first, 14, spans, span)
    } else {
        mask::lemma_counts_grow(shape.full_attention_mask, i, shape.n_layers as int);
        let slot = mask::linear_before(shape.full_attention_mask, i) as int;
        let single = run_of_pieces(shape, base, 6 + 3 * slot, 3);
        let rest = run_of_pieces(shape, base, first, 16);
        let c = choose|c: int| 0 <= c < spans.len() && spans[c] == span;
        if c < 3 {
            assert(single[c] == span);
            lemma_in_run(shape, base, 6 + 3 * slot, 3, single, span)
        } else {
            assert(rest[c - 3] == span);
            lemma_in_run(shape, base, first, 16, rest, span)
        }
    }
}

/// A loaded model takes no weight from a placeholder.
#[verifier::rlimit(40)]
#[verifier::spinoff_prover]
pub proof fn law_placeholders_are_not_used(
    weights: Weights,
    shape: Shape,
    base: nat,
    available: nat,
    span: Span,
    p: int,
)
    requires
        sound(shape),
        stream::first_unfit(weight_stream(shape), available) is None,
        base + available <= usize::MAX,
        weights.placed(shape, base),
        weights.uses(span),
        covers(span, p),
    ensures
        !in_placeholder(shape, base, p),
        base <= p < base + available,
{
    let all = weight_stream(shape);
    let n = shape.n_layers as nat;
    lemma_norm_piece(shape, base, available, 0);
    lemma_norm_piece(shape, base, available, 1);
    lemma_norm_piece(shape, base, available, 2);
    lemma_norm_piece(shape, base, available, 3);
    lemma_norm_piece(shape, base, available, 4);
    lemma_norm_piece(shape, base, available, 5);
    lemma_delta_len(shape, shape.n_linear as nat);
    lemma_embedding_leads(shape);
    if exists|i: int| 0 <= i < weights.input_norms@.len() && span == (#[trigger] weights.input_norms@[i]).weight {
        let i = choose|i: int|
            0 <= i < weights.input_norms@.len() && span == (#[trigger] weights.input_norms@[i]).weight;
        lemma_rows(weight_span(shape, base, 0), n, shape.dim, i, i);
        lemma_piece_without_placeholders(shape, base, available, span, 0, p);
        lemma_in_stream(shape, base, available, span, 0, p);
    } else if exists|i: int|
        0 <= i < weights.post_attention_norms@.len() && span == (#[trigger] weights.post_attention_norms@[i]).weight {
        let i = choose|i: int|
            0 <= i < weights.post_attention_norms@.len() && span == (
            #[trigger] weights.post_attention_norms@[i]).weight;
        lemma_rows(weight_span(shape, base, 1), n, shape.dim, i, i);
        lemma_piece_without_placeholders(shape, base, available, span, 1, p);
        lemma_in_stream(shape, base, available, span, 1, p);
    } else if span == weights.final_norm.weight {
        lemma_piece_without_placeholders(shape, base, available, span, 2, p);
        lemma_in_stream(shape, base, available, span, 2, p);
    } else if tensor_spans(weights.embedding_q).contains(span) {
        let k = 6 + 3 * shape.n_linear;
        let at = if span == weights.embedding_q.q {
            k
        } else {
            k + 1
        };
        lemma_whole_piece(shape, base, at);
        lemma_piece_without_placeholders(shape, base, available, span, at, p);
        lemma_in_stream(shape, base, available, span, at, p);
    } else if exists|i: int|
        0 <= i < weights.layers@.len() && mixer_norms(#[trigger] weights.layers@[i]).contains(span) {
        let i = choose|i: int|
            0 <= i < weights.layers@.len() && mixer_norms(#[trigger] weights.layers@[i]).contains(span);
        law_layers_take_their_own_norms(weights, shape, base, i);
        if mask::is_full(shape.full_attention_mask, i) {
            let at = if span == row_of(weight_span(shape, base, 3), shape.head_dim, i) {
                3
            } else {
                4
            };
            lemma_rows(weight_span(shape, base, at), n, shape.head_dim, i, i);
            lemma_own_row_is_no_placeholder(shape, base, available, i, at, p);
            lemma_in_stream(shape, base, available, span, at, p);
        } else {
            lemma_rows(weight_span(shape, base, 5), n, shape.linear_v_head_dim, i, i);
            lemma_own_row_is_no_placeholder(shape, base, available, i, 5, p);
            lemma_in_stream(shape, base, available, span, 5, p);
        }
    } else {
        let i = choose|i: int|
            0 <= i < weights.layers@.len() && other_spans(#[trigger] weights.layers@[i]).contains(span);
        if mask::is_full(shape.full_attention_mask, i) {
            lemma_full_spans(shape, base, i);
        } else {
            lemma_linear_spans(shape, base, i);
        }
        let k = lemma_other_spans(shape, base, i, other_spans(weights.layers@[i]), span);
        lemma_whole_piece(shape, base, k);
        lemma_piece_without_placeholders(shape, base, available, span, k, p);
        lemma_in_stream(shape, base, available, span, k, p);
    }
}

proof fn lemma_in_stream(shape: Shape, base: nat, available: nat, span: Span, k: int, p: int)
    requires
        stream_fits(shape, base, available),
        within_piece(shape, base, span, k),
        covers(span, p),
    ensures
        base <= p < base + available,
{
    let all = weight_stream(shape);
    stream::law_pieces_lie_in_order(all, base, available, k);
    stream::law_pieces_lie_in_order(all, base, available, 0);
    if k > 0 {
        stream::law_pieces_lie_apart(all, base, available, 0, k);
    }
}

/// Two checkpoints that differ in nothing but placeholders give a model the same weights: they have
/// the same places, and the same bytes there.
pub proof fn law_placeholders_do_not_matter(
    weights: Weights,
    other: Weights,
    shape: Shape,
    base: nat,
    data: Seq<u8>,
    other_data: Seq<u8>,
    span: Span,
)
    requires
        sound(shape),
        data.len() == other_data.len(),
        base <= data.len() <= usize::MAX,
        stream::first_unfit(weight_stream(shape), (data.len() - base) as nat) is None,
        weights.placed(shape, base),
        other.placed(shape, base),
        forall|p: int| 0 <= p < data.len() && !in_placeholder(shape, base, p) ==> data[p] == other_data[p],
        weights.uses(span),
    ensures
        other.uses(span),
        forall|p: int| #[trigger] covers(span, p) ==> 0 <= p < data.len() && data[p] == other_data[p],
{
    assert(weights.input_norms@ == other.input_norms@);
    assert(weights.post_attention_norms@ == other.post_attention_norms@);
    assert(weights.layers@ == other.layers@);
    let available = (data.len() - base) as nat;
    assert forall|p: int| #[trigger] covers(span, p) implies 0 <= p < data.len() && data[p] == other_data[p] by {
        law_placeholders_are_not_used(weights, shape, base, available, span, p);
    }
}

/// The layers with linear attention are numbered one after the other, each with a number of its own
/// below their count; the layers with full attention have no such number.
pub proof fn law_linear_layers_are_numbered_in_order(weights: Weights, shape: Shape, base: nat, i: int, j: int)
    requires
        sound(shape),
        weights.placed(shape, base),
        0 <= i < j < shape.n_layers,
    ensures
        weights.linear_layer_map@.len() == shape.n_layers,
        weights.linear_layer_map@[i] is None <==> weights.layers@[i].mixer is FullAttention,
        weights.linear_layer_map@[j] is None <==> weights.layers@[j].mixer is FullAttention,
        weights.layers@[i].mixer is FullAttention <==> mask::is_full(shape.full_attention_mask, i),
        weights.linear_layer_map@[i] is Some && weights.linear_layer_map@[j] is Some
            ==> weights.linear_layer_map@[i]->Some_0 < weights.linear_layer_map@[j]->Some_0 < shape.n_linear,
{
    mask::law_layers_of_a_kind_have_their_own_numbers(shape.full_attention_mask, i, j, shape.n_layers as int);
    mask::law_counts_are_of_layers(shape.full_attention_mask, i);
    mask::law_counts_are_of_layers(shape.full_attention_mask, j);
}

/// The quantized linear maps of a layer, in the order in which they lie in the checkpoint.
pub open spec fn maps(layer: LayerWeights) -> Seq<QLinear> {
    match layer.mixer {
        Mixer::FullAttention(a) => seq![a.wq, a.wk, a.wv, a.wo, layer.mlp_w1, layer.mlp_w2, layer.mlp_w3],
        Mixer::DeltaNet(n) => seq![
            n.w_qkv,
            n.w_z,
            n.w_b,
            n.w_a,
            n.w_out,
            layer.mlp_w1,
            layer.mlp_w2,
            layer.mlp_w3,
        ],
    }
}

/// The maps of layer `i`, where there is such a layer.
#[verifier::opaque]
pub open spec fn maps_of(weights: Weights, i: int) -> Seq<QLinear> {
    if 0 <= i < weights.layers@.len() {
        maps(weights.layers@[i])
    } else {
        Seq::empty()
    }
}

/// The pieces of tensor `t` of layer `i` are in the stream where the tensor is.
proof fn lemma_tensor_pieces_at(shape: Shape, i: int, t: int)
    requires
        sound(shape),
        0 <= i < shape.n_layers,
        0 <= t < layer_tensor_sizes(shape, i).len(),
    ensures
        ({
            let k = pieces_before_layer(shape, i as nat).len() + 2 * t;
            let pieces = stream::tensor_pieces(layer_tensor_sizes(shape, i)[t], shape.group_size as nat);
            &&& k + 1 < weight_stream(shape).len()
            &&& weight_stream(shape)[k] == pieces[0]
            &&& weight_stream(shape)[k + 1] == pieces[1]
        }),
{
    let all = weight_stream(shape);
    let sizes = layer_tensor_sizes(shape, i);
    let before = pieces_before_layer(shape, i as nat);
    let more = stream::tensors_pieces(sizes, shape.group_size as nat);
    let upto = pieces_before_layer(shape, (i + 1) as nat);
    lemma_layers_lead(shape, (i + 1) as nat);
    assert(upto =~= before + more);
    stream::lemma_tensors_index(sizes, shape.group_size as nat, t);
    let k = before.len() + 2 * t;
    assert(all.take(upto.len() as int)[k] == upto[k]);
    assert(all.take(upto.len() as int)[k + 1] == upto[k + 1]);
}

/// How many pieces come before a layer.
proof fn lemma_pieces_before_next_layer(shape: Shape, i: int)
    requires
        sound(shape),
        0 <= i < shape.n_layers,
    ensures
        pieces_before_layer(shape, (i + 1) as nat).len() == pieces_before_layer(shape, i as nat).len() + 2
            * layer_tensor_sizes(shape, i).len(),
        pieces_before_layer(shape, 0).len() == 8 + 3 * shape.n_linear,
{
    let more = stream::tensors_pieces(layer_tensor_sizes(shape, i), shape.group_size as nat);
    stream::lemma_tensors_concat(layer_tensor_sizes(shape, i), Seq::empty(), shape.group_size as nat);
    assert(pieces_before_layer(shape, (i + 1) as nat) =~= pieces_before_layer(shape, i as nat) + more);
    lemma_delta_len(shape, shape.n_linear as nat);
}

/// The linear maps of a layer are the tensors of the layer.
proof fn lemma_maps_are_tensors(weights: Weights, shape: Shape, base: nat, i: int, t: int)
    requires
        sound(shape),
        weights.placed(shape, base),
        0 <= i < shape.n_layers,
        0 <= t < layer_tensor_sizes(shape, i).len(),
    ensures
        maps_of(weights, i).len() == layer_tensor_sizes(shape, i).len(),
        maps_of(weights, i)[t].weight == layer_tensor(shape, base, i, t),
        maps_of(weights, i)[t].group_size == shape.group_size,
{
    reveal(maps_of);
    assert(weights.layers@[i] == layer_at(shape, base, i));
}

/// There are maps of as many layers as the model has.
proof fn lemma_map_counts(weights: Weights, shape: Shape, base: nat, i: int)
    requires
        weights.placed(shape, base),
    ensures
        0 <= i < shape.n_layers ==> maps_of(weights, i).len() == layer_tensor_sizes(shape, i).len(),
        !(0 <= i < shape.n_layers) ==> maps_of(weights, i).len() == 0,
{
    reveal(maps_of);
    if 0 <= i < shape.n_layers {
        assert(weights.layers@[i] == layer_at(shape, base, i));
    }
}

/// The width of queries and gates fits where the stream does.
proof fn lemma_twice_the_heads_fit(shape: Shape, base: nat, available: nat, i: int)
    requires
        stream_fits(shape, base, available),
        0 <= i < shape.n_layers,
        mask::is_full(shape.full_attention_mask, i),
    ensures
        2 * shape.all_heads_dim <= usize::MAX,
{
    let all = weight_stream(shape);
    let before = pieces_before_layer(shape, i as nat);
    let upto = pieces_before_layer(shape, (i + 1) as nat);
    lemma_layers_lead(shape, (i + 1) as nat);
    assert(upto =~= before + stream::tensors_pieces(layer_tensor_sizes(shape, i), shape.group_size as nat));
    assert(all =~= upto + all.skip(upto.len() as int));
    stream::lemma_first_unfit_concat(upto, all.skip(upto.len() as int), available);
    lemma_query_width(shape, i, before, upto);
}

/// A linear map has the elements of its tensor.
proof fn lemma_map_size(weights: Weights, shape: Shape, base: nat, available: nat, i: int, t: int)
    requires
        stream_fits(shape, base, available),
        weights.placed(shape, base),
        0 <= i < shape.n_layers,
        0 <= t < maps_of(weights, i).len(),
    ensures
        t < layer_tensor_sizes(shape, i).len(),
        ({
            let map = maps_of(weights, i)[t];
            layer_tensor_sizes(shape, i)[t] == map.in_features * map.out_features
        }),
{
    reveal(maps_of);
    assert(weights.layers@[i] == layer_at(shape, base, i));
    if mask::is_full(shape.full_attention_mask, i) {
        lemma_twice_the_heads_fit(shape, base, available, i);
        let dim = shape.dim as int;
        let heads = shape.all_heads_dim as int;
        assert(dim * 2 * heads == dim * (2 * heads)) by (nonlinear_arith);
    }
}

/// A tensor has the length of its elements, its scales come right behind, and what follows them comes
/// right behind these.
proof fn lemma_tensor_lies_in_order(shape: Shape, base: nat, available: nat, i: int, t: int)
    requires
        stream_fits(shape, base, available),
        0 <= i < shape.n_layers,
        0 <= t < layer_tensor_sizes(shape, i).len(),
    ensures
        ({
            let k = pieces_before_layer(shape, i as nat).len() + 2 * t;
            let elements = layer_tensor_sizes(shape, i)[t];
            let tensor = layer_tensor(shape, base, i, t);
            let end = tensor.s.offset + tensor.s.len;
            &&& 0 <= k
            &&& k + 1 < weight_stream(shape).len()
            &&& tensor.q.len == elements
            &&& tensor.s.offset == tensor.q.offset + tensor.q.len
            &&& tensor.s.len == elements / shape.group_size as nat * 4
            &&& k + 2 < weight_stream(shape).len() ==> weight_span(shape, base, k + 2).offset == end
            &&& end <= base + available
        }),
{
    let all = weight_stream(shape);
    let k = pieces_before_layer(shape, i as nat).len() + 2 * t;
    lemma_tensor_pieces_at(shape, i, t);
    stream::law_pieces_lie_in_order(all, base, available, k);
    stream::law_pieces_lie_in_order(all, base, available, k + 1);
}

/// The tensor behind a tensor starts where that ends, also from layer to layer, and the first one where
/// the embedding ends.
proof fn lemma_next_tensor(shape: Shape, base: nat, available: nat, i: int, t: int)
    requires
        stream_fits(shape, base, available),
        0 <= i < shape.n_layers,
        0 <= t < layer_tensor_sizes(shape, i).len(),
    ensures
        ({
            let tensor = layer_tensor(shape, base, i, t);
            let end = tensor.s.offset + tensor.s.len;
            let embedding = embedding_at(shape, base);
            &&& t + 1 < layer_tensor_sizes(shape, i).len() ==> layer_tensor(shape, base, i, t + 1).q.offset == end
            &&& t + 1 == layer_tensor_sizes(shape, i).len() && i + 1 < shape.n_layers ==> layer_tensor(
                shape,
                base,
                i + 1,
                0,
            ).q.offset == end
            &&& t == 0 && i == 0 ==> tensor.q.offset == embedding.s.offset + embedding.s.len
        }),
{
    let k = pieces_before_layer(shape, i as nat).len() + 2 * t;
    lemma_tensor_lies_in_order(shape, base, available, i, t);
    if t + 1 < layer_tensor_sizes(shape, i).len() {
        lemma_tensor_lies_in_order(shape, base, available, i, t + 1);
        assert(layer_tensor(shape, base, i, t + 1).q == weight_span(shape, base, k + 2));
    } else if i + 1 < shape.n_layers {
        lemma_pieces_before_next_layer(shape, i);
        lemma_tensor_lies_in_order(shape, base, available, i + 1, 0);
        assert(layer_tensor(shape, base, i + 1, 0).q == weight_span(shape, base, k + 2));
    }
    if t == 0 && i == 0 {
        lemma_pieces_before_next_layer(shape, 0);
        stream::law_pieces_lie_in_order(weight_stream(shape), base, available, k - 1);
    }
}

/// Whether map `t` of a layer has as many bytes as inputs times outputs, and right behind them four
/// bytes for the scale of each group; and the map behind it, in this layer or the next, starts where
/// it ends.
pub open spec fn lies_in_order(own: Seq<QLinear>, next: Seq<QLinear>, group_size: usize, t: int) -> bool {
    let map = own[t];
    let end = map.weight.s.offset + map.weight.s.len;
    &&& map.group_size == group_size
    &&& map.weight.q.len == map.in_features * map.out_features
    &&& map.weight.s.offset == map.weight.q.offset + map.weight.q.len
    &&& map.weight.s.len == map.weight.q.len as int / group_size as int * 4
    &&& t + 1 < own.len() ==> own[t + 1].weight.q.offset == end
    &&& t + 1 == own.len() && next.len() > 0 ==> next[0].weight.q.offset == end
}

proof fn lemma_lies_in_order(
    shape: Shape,
    base: nat,
    available: nat,
    i: int,
    t: int,
    own: Seq<QLinear>,
    next: Seq<QLinear>,
)
    requires
        stream_fits(shape, base, available),
        0 <= i < shape.n_layers,
        0 <= t < own.len(),
        own.len() == layer_tensor_sizes(shape, i).len(),
        own[t].weight == layer_tensor(shape, base, i, t),
        own[t].group_size == shape.group_size,
        layer_tensor_sizes(shape, i)[t] == own[t].in_features * own[t].out_features,
        t + 1 < own.len() ==> own[t + 1].weight == layer_tensor(shape, base, i, t + 1),
        next.len() > 0 ==> i + 1 < shape.n_layers && next[0].weight == layer_tensor(shape, base, i + 1, 0),
    ensures
        lies_in_order(own, next, shape.group_size, t),
{
    lemma_tensor_lies_in_order(shape, base, available, i, t);
    lemma_next_tensor(shape, base, available, i, t);
}

/// Every linear map of every layer has as many bytes as it has inputs times outputs, and right behind
/// them four bytes for the scale of each group. The maps lie one behind the other without gaps: those
/// of a layer in their order, the layers in theirs, and the first behind the embedding.
pub proof fn law_linear_maps_lie_in_order(
    weights: Weights,
    shape: Shape,
    base: nat,
    available: nat,
    i: int,
    t: int,
)
    requires
        sound(shape),
        stream::first_unfit(weight_stream(shape), available) is None,
        base + available <= usize::MAX,
        weights.placed(shape, base),
        0 <= i < shape.n_layers,
        0 <= t < maps_of(weights, i).len(),
    ensures
        lies_in_order(maps_of(weights, i), maps_of(weights, i + 1), shape.group_size, t),
        maps_of(weights, 0)[0].weight.q.offset == weights.embedding_q.s.offset + weights.embedding_q.s.len,
{
    let own = maps_of(weights, i);
    let next = maps_of(weights, i + 1);
    lemma_map_counts(weights, shape, base, i);
    lemma_map_counts(weights, shape, base, i + 1);
    lemma_map_counts(weights, shape, base, 0);
    lemma_map_size(weights, shape, base, available, i, t);
    lemma_maps_are_tensors(weights, shape, base, i, t);
    lemma_maps_are_tensors(weights, shape, base, 0, 0);
    lemma_next_tensor(shape, base, available, 0, 0);
    if t + 1 < own.len() {
        lemma_maps_are_tensors(weights, shape, base, i, t + 1);
    }
    if i + 1 < shape.n_layers {
        lemma_maps_are_tensors(weights, shape, base, i + 1, 0);
    }
    lemma_lies_in_order(shape, base, available, i, t, own, next);
}

/// Each linear map of a layer has the inputs and outputs that its use asks for, and each mixer the
/// numbers of the model.
pub proof fn law_linear_maps_have_their_widths(
    weights: Weights,
    shape: Shape,
    base: nat,
    available: nat,
    i: int,
)
    requires
        shape::consistent(shape),
        stream::first_unfit(weight_stream(shape), available) is None,
        base + available <= usize::MAX,
        weights.placed(shape, base),
        0 <= i < shape.n_layers,
    ensures
        ({
            let layer = weights.layers@[i];
            let from_to = |map: QLinear, inputs: int, outputs: int|
                map.in_features == inputs && map.out_features == outputs;
            &&& from_to(layer.mlp_w1, shape.dim as int, shape.hidden_dim as int)
            &&& from_to(layer.mlp_w3, shape.dim as int, shape.hidden_dim as int)
            &&& from_to(layer.mlp_w2, shape.hidden_dim as int, shape.dim as int)
            &&& match layer.mixer {
                Mixer::FullAttention(a) => {
                    &&& from_to(a.wq, shape.dim as int, 2 * (shape.n_heads * shape.head_dim))
                    &&& from_to(a.wk, shape.dim as int, shape.n_kv_heads * shape.head_dim)
                    &&& from_to(a.wv, shape.dim as int, shape.n_kv_heads * shape.head_dim)
                    &&& from_to(a.wo, shape.n_heads * shape.head_dim, shape.dim as int)
                    &&& a.n_heads == shape.n_heads
                    &&& a.n_kv_heads == shape.n_kv_heads
                    &&& a.head_dim == shape.head_dim
                    &&& a.kv_mul * a.n_kv_heads == a.n_heads
                    &&& a.rotary_dim == shape.rotary_dim
                    &&& a.rope_theta == shape.rope_theta
                    &&& a.group_size == shape.group_size
                    &&& a.q_norm.eps == shape.norm_eps
                    &&& a.k_norm.eps == shape.norm_eps
                },
                Mixer::DeltaNet(n) => {
                    &&& from_to(
                        n.w_qkv,
                        shape.dim as int,
                        2 * (shape.n_linear_k_heads * shape.linear_k_head_dim) + shape.n_linear_v_heads
                            * shape.linear_v_head_dim,
                    )
                    &&& from_to(n.w_z, shape.dim as int, shape.dim as int)
                    &&& from_to(n.w_a, shape.dim as int, shape.n_linear_v_heads as int)
                    &&& from_to(n.w_b, shape.dim as int, shape.n_linear_v_heads as int)
                    &&& from_to(n.w_out, shape.dim as int, shape.dim as int)
                    &&& n.n_k_heads == shape.n_linear_k_heads
                    &&& n.k_head_dim == shape.linear_k_head_dim
                    &&& n.v_head_dim == shape.linear_v_head_dim
                    &&& n.q_head_dim == shape.linear_k_head_dim
                    &&& n.qkv_dim == shape.linear_qkv_dim
                    &&& n.conv_kernel == shape.conv_kernel_size
                    &&& n.group_size == shape.group_size
                    &&& n.dim == shape.dim
                    &&& n.norm_eps == shape.norm_eps
                    &&& n.gated_norm.eps == shape.norm_eps
                    &&& n.gated_norm.n_v_heads == shape.n_linear_v_heads
                    &&& n.gated_norm.v_head_dim == shape.linear_v_head_dim
                },
            }
        }),
{
    assert(weights.layers@[i] == layer_at(shape, base, i));
    if mask::is_full(shape.full_attention_mask, i) {
        lemma_twice_the_heads_fit(shape, base, available, i);
        vstd::arithmetic::div_mod::lemma_fundamental_div_mod(shape.n_heads as int, shape.n_kv_heads as int);
        let mul = shape.n_heads as int / shape.n_kv_heads as int;
        assert(mul * shape.n_kv_heads == shape.n_kv_heads * mul) by (nonlinear_arith);
        assert(mul <= shape.n_heads) by (nonlinear_arith)
            requires
                shape.n_kv_heads * mul == shape.n_heads,
                shape.n_kv_heads >= 1,
                mul >= 0,
        ;
        assert(mul >= 0) by (nonlinear_arith)
            requires
                mul == shape.n_heads as int / shape.n_kv_heads as int,
                shape.n_heads >= 0,
                shape.n_kv_heads > 0,
        ;
    }
}

/// The norms lie in front, in single precision: for every layer its first norm, then for every layer
/// its second, the last norm, and then for every layer a query norm, a key norm and a gated norm, of
/// which each layer takes those of its kind.
pub proof fn law_norms_lie_in_front(weights: Weights, shape: Shape, base: nat, available: nat, i: int)
    requires
        sound(shape),
        stream::first_unfit(weight_stream(shape), available) is None,
        base + available <= usize::MAX,
        weights.placed(shape, base),
        0 <= i < shape.n_layers,
    ensures
        ({
            let n = shape.n_layers;
            let wide = 4 * shape.dim;
            let head = 4 * shape.head_dim;
            let value = 4 * shape.linear_v_head_dim;
            let second = base + n * wide;
            let last = second + n * wide;
            let query = last + wide;
            let key = query + n * head;
            let gated = key + n * head;
            let lies = |span: Span, offset: int, len: int| span.offset == offset && span.len == len;
            &&& lies(weights.input_norms@[i].weight, base + i * wide, wide)
            &&& lies(weights.post_attention_norms@[i].weight, second + i * wide, wide)
            &&& lies(weights.final_norm.weight, last, wide)
            &&& weights.input_norms@[i].eps == shape.norm_eps
            &&& weights.post_attention_norms@[i].eps == shape.norm_eps
            &&& weights.final_norm.eps == shape.norm_eps
            &&& match weights.layers@[i].mixer {
                Mixer::FullAttention(a) => {
                    &&& lies(a.q_norm.weight, query + i * head, head)
                    &&& lies(a.k_norm.weight, key + i * head, head)
                },
                Mixer::DeltaNet(net) => lies(net.gated_norm.weight, gated + i * value, value),
            }
        }),
{
    let all = weight_stream(shape);
    let n = shape.n_layers as nat;
    assert(weights.layers@[i] == layer_at(shape, base, i));
    lemma_norm_piece(shape, base, available, 0);
    lemma_norm_piece(shape, base, available, 1);
    lemma_norm_piece(shape, base, available, 2);
    lemma_norm_piece(shape, base, available, 3);
    lemma_norm_piece(shape, base, available, 4);
    lemma_norm_piece(shape, base, available, 5);
    stream::law_pieces_lie_in_order(all, base, available, 0);
    stream::law_pieces_lie_in_order(all, base, available, 1);
    stream::law_pieces_lie_in_order(all, base, available, 2);
    stream::law_pieces_lie_in_order(all, base, available, 3);
    stream::law_pieces_lie_in_order(all, base, available, 4);
    lemma_row_fits(weight_span(shape, base, 0), n, shape.dim as nat, i as nat);
    lemma_row_fits(weight_span(shape, base, 1), n, shape.dim as nat, i as nat);
    lemma_row_fits(weight_span(shape, base, 3), n, shape.head_dim as nat, i as nat);
    lemma_row_fits(weight_span(shape, base, 4), n, shape.head_dim as nat, i as nat);
    lemma_row_fits(weight_span(shape, base, 5), n, shape.linear_v_head_dim as nat, i as nat);
    lemma_four_times(n as int, shape.dim as int);
    lemma_four_times(n as int, shape.head_dim as int);
    lemma_four_times(n as int, shape.linear_v_head_dim as int);
    lemma_four_times(i, shape.dim as int);
    lemma_four_times(i, shape.head_dim as int);
    lemma_four_times(i, shape.linear_v_head_dim as int);
}

proof fn lemma_four_times(n: int, width: int)
    by (nonlinear_arith)
    ensures
        n * (4 * width) == n * width * 4,
        n * (width * 4) == n * width * 4,
        width * 4 == 4 * width,
{
}

/// Where the single-precision weights of linear attention layer `slot` come in the stream.
proof fn lemma_delta_pieces_at(shape: Shape, slot: nat, c: int)
    requires
        slot < shape.n_linear,
        0 <= c < 3,
    ensures
        ({
            let k = 6 + 3 * slot as int + c;
            &&& k < weight_stream(shape).len()
            &&& weight_stream(shape)[k] == delta_layer_pieces(shape, slot)[c]
        }),
{
    let all = weight_stream(shape);
    let upto = norm_pieces(shape) + delta_pieces(shape, slot + 1);
    lemma_delta_leads(shape, slot + 1);
    lemma_delta_len(shape, slot);
    lemma_delta_len(shape, slot + 1);
    let k = 6 + 3 * slot as int + c;
    assert(all.take(upto.len() as int)[k] == upto[k]);
}

/// Behind the norms come the single-precision weights of the layers with linear attention, in the
/// order of these layers: for each a decay and a bias for every value head, and the convolution with
/// all taps of every channel. Behind them comes the embedding.
pub proof fn law_delta_weights_lie_behind_the_norms(
    weights: Weights,
    shape: Shape,
    base: nat,
    available: nat,
    i: int,
)
    requires
        sound(shape),
        stream::first_unfit(weight_stream(shape), available) is None,
        base + available <= usize::MAX,
        weights.placed(shape, base),
        0 <= i < shape.n_layers,
    ensures
        ({
            let n = shape.n_layers;
            let start = base + 8 * (n * shape.dim) + 4 * shape.dim + 8 * (n * shape.head_dim) + 4 * (n
                * shape.linear_v_head_dim);
            let heads = 4 * shape.n_linear_v_heads;
            let conv = 4 * (shape.linear_qkv_dim * shape.conv_kernel_size);
            let each = heads + heads + conv;
            let embedding = weights.embedding_q;
            let elements = shape.vocab_size * shape.dim;
            let lies = |span: Span, offset: int, len: int| span.offset == offset && span.len == len;
            &&& weights.layers@[i].mixer matches Mixer::DeltaNet(net) ==> {
                &&& weights.linear_layer_map@[i] matches Some(slot)
                &&& lies(net.a_log, start + slot * each, heads)
                &&& lies(net.dt_bias, start + slot * each + heads, heads)
                &&& lies(net.conv_weight, start + slot * each + heads + heads, conv)
            }
            &&& lies(embedding.q, start + shape.n_linear * each, elements)
            &&& lies(
                embedding.s,
                start + shape.n_linear * each + elements,
                elements / shape.group_size as int * 4,
            )
        }),
{
    let all = weight_stream(shape);
    let n = shape.n_layers as int;
    assert(weights.layers@[i] == layer_at(shape, base, i));
    law_norms_lie_in_front(weights, shape, base, available, i);
    lemma_norm_piece(shape, base, available, 5);
    lemma_delta_starts(shape, base, available, shape.n_linear as nat);
    if !mask::is_full(shape.full_attention_mask, i) {
        mask::lemma_counts_grow(shape.full_attention_mask, i, n);
        mask::law_counts_are_of_layers(shape.full_attention_mask, n);
        let slot = mask::linear_before(shape.full_attention_mask, i);
        lemma_delta_starts(shape, base, available, slot);
        lemma_delta_pieces_at(shape, slot, 0);
        lemma_delta_pieces_at(shape, slot, 1);
        lemma_delta_pieces_at(shape, slot, 2);
        let k = 6 + 3 * slot as int;
        stream::law_pieces_lie_in_order(all, base, available, k);
        stream::law_pieces_lie_in_order(all, base, available, k + 1);
        stream::law_pieces_lie_in_order(all, base, available, k + 2);
    }
    let k = 6 + 3 * shape.n_linear as int;
    lemma_embedding_pieces_at(shape);
    stream::law_pieces_lie_in_order(all, base, available, k);
    stream::law_pieces_lie_in_order(all, base, available, k + 1);
}

proof fn lemma_embedding_pieces_at(shape: Shape)
    ensures
        ({
            let k = 6 + 3 * shape.n_linear as int;
            &&& k + 1 < weight_stream(shape).len()
            &&& weight_stream(shape)[k] == embedding_pieces(shape)[0]
            &&& weight_stream(shape)[k + 1] == embedding_pieces(shape)[1]
        }),
{
    let all = weight_stream(shape);
    let upto = norm_pieces(shape) + delta_pieces(shape, shape.n_linear as nat) + embedding_pieces(shape);
    lemma_embedding_leads(shape);
    lemma_delta_len(shape, shape.n_linear as nat);
    let k = 6 + 3 * shape.n_linear as int;
    assert(all.take(upto.len() as int)[k] == upto[k]);
    assert(all.take(upto.len() as int)[k + 1] == upto[k + 1]);
}

/// Where the weights of linear attention layer `slot` start.
proof fn lemma_delta_starts(shape: Shape, base: nat, available: nat, slot: nat)
    requires
        stream_fits(shape, base, available),
        slot <= shape.n_linear,
    ensures
        ({
            let n = shape.n_layers;
            let start = base + 8 * (n * shape.dim) + 4 * shape.dim + 8 * (n * shape.head_dim) + 4 * (n
                * shape.linear_v_head_dim);
            let each = 8 * shape.n_linear_v_heads + 4 * (shape.linear_qkv_dim * shape.conv_kernel_size);
            weight_span(shape, base, 6 + 3 * slot as int).offset == start + slot * each
        }),
    decreases slot,
{
    let all = weight_stream(shape);
    let n = shape.n_layers;
    let each = 8 * shape.n_linear_v_heads + 4 * (shape.linear_qkv_dim * shape.conv_kernel_size);
    lemma_embedding_pieces_at(shape);
    if slot == 0 {
        lemma_norm_piece(shape, base, available, 0);
        lemma_norm_piece(shape, base, available, 1);
        lemma_norm_piece(shape, base, available, 2);
        lemma_norm_piece(shape, base, available, 3);
        lemma_norm_piece(shape, base, available, 4);
        lemma_norm_piece(shape, base, available, 5);
        stream::law_pieces_lie_in_order(all, base, available, 0);
        stream::law_pieces_lie_in_order(all, base, available, 1);
        stream::law_pieces_lie_in_order(all, base, available, 2);
        stream::law_pieces_lie_in_order(all, base, available, 3);
        stream::law_pieces_lie_in_order(all, base, available, 4);
        stream::law_pieces_lie_in_order(all, base, available, 5);
        assert(0 * each == 0);
    } else {
        let before = (slot - 1) as nat;
        lemma_delta_starts(shape, base, available, before);
        lemma_delta_pieces_at(shape, before, 0);
        lemma_delta_pieces_at(shape, before, 1);
        lemma_delta_pieces_at(shape, before, 2);
        let k = 6 + 3 * before as int;
        stream::law_pieces_lie_in_order(all, base, available, k);
        stream::law_pieces_lie_in_order(all, base, available, k + 1);
        stream::law_pieces_lie_in_order(all, base, available, k + 2);
        assert(slot * each == before * each + each) by (nonlinear_arith)
            requires
                slot == before + 1,
        ;
    }
}

} // verus!
