//! The dimensions of a Qwen3.5 model, and what has to hold of them.

use super::configuration::{ModelConfig, ModelConfigV2};
use super::size;
use crate::mask;
use crate::text;
use vstd::prelude::*;
use vstd::string::*;

verus! {

/// Why a model cannot be loaded; `S` is the type of text.
#[derive(Debug)]
pub enum LoadFault<S> {
    NoExtension,
    NoContext,
    GroupSize { dim: usize, group_size: usize },
    NoLayers,
    TooManyLayers(usize),
    MaskTooWide,
    NotHybrid,
    HiddenSize { all_heads_dim: usize, dim: usize },
    KvHeads { n_heads: usize, n_kv_heads: usize },
    LinearHeads { v: usize, k: usize },
    LinearHeadDims { v: usize, k: usize },
    NoLinearHeadDim,
    NoKernel,
    Rotary { rotary_dim: usize, head_dim: usize },
    /// A size has too many bits for the machine.
    Overflow,
    /// The checkpoint ends before the named part of it does.
    Read(S),
}

/// Why a model cannot be loaded.
pub type LoadError = LoadFault<String>;

impl View for LoadFault<String> {
    type V = LoadFault<Seq<char>>;

    open spec fn view(&self) -> LoadFault<Seq<char>> {
        match *self {
            LoadFault::NoExtension => LoadFault::NoExtension,
            LoadFault::NoContext => LoadFault::NoContext,
            LoadFault::GroupSize { dim, group_size } => LoadFault::GroupSize { dim, group_size },
            LoadFault::NoLayers => LoadFault::NoLayers,
            LoadFault::TooManyLayers(n) => LoadFault::TooManyLayers(n),
            LoadFault::MaskTooWide => LoadFault::MaskTooWide,
            LoadFault::NotHybrid => LoadFault::NotHybrid,
            LoadFault::HiddenSize { all_heads_dim, dim } => LoadFault::HiddenSize { all_heads_dim, dim },
            LoadFault::KvHeads { n_heads, n_kv_heads } => LoadFault::KvHeads { n_heads, n_kv_heads },
            LoadFault::LinearHeads { v, k } => LoadFault::LinearHeads { v, k },
            LoadFault::LinearHeadDims { v, k } => LoadFault::LinearHeadDims { v, k },
            LoadFault::NoLinearHeadDim => LoadFault::NoLinearHeadDim,
            LoadFault::NoKernel => LoadFault::NoKernel,
            LoadFault::Rotary { rotary_dim, head_dim } => LoadFault::Rotary { rotary_dim, head_dim },
            LoadFault::Overflow => LoadFault::Overflow,
            LoadFault::Read(label) => LoadFault::Read(label@),
        }
    }
}

/// A text with two numbers in it.
pub open spec fn with_numbers(a: Seq<char>, x: usize, b: Seq<char>, y: usize, c: Seq<char>) -> Seq<char> {
    a + text::decimal(x as nat) + b + text::decimal(y as nat) + c
}

impl LoadFault<Seq<char>> {
    /// The fault in words.
    pub open spec fn message(self) -> Seq<char> {
        match self {
            LoadFault::NoExtension => "Qwen3.5 requires v2 header"@,
            LoadFault::NoContext => "seq_len must be non-zero"@,
            LoadFault::GroupSize { dim, group_size } => with_numbers(
                "dim ("@,
                dim,
                ") must be divisible by group_size ("@,
                group_size,
                ")"@,
            ),
            LoadFault::NoLayers => "n_layers must be positive"@,
            LoadFault::TooManyLayers(n) => "Qwen3.5 v2 supports at most 64 layers, got "@ + text::decimal(n as nat),
            LoadFault::MaskTooWide => "full_attention_mask has bits set above n_layers"@,
            LoadFault::NotHybrid => "Qwen3.5 requires both full and linear attention layers"@,
            LoadFault::HiddenSize { all_heads_dim, dim } => with_numbers(
                "Qwen3.5-2B requires n_heads * head_dim ("@,
                all_heads_dim,
                ") == hidden size ("@,
                dim,
                ")"@,
            ),
            LoadFault::KvHeads { n_heads, n_kv_heads } => with_numbers(
                "n_heads ("@,
                n_heads,
                ") must be divisible by n_kv_heads ("@,
                n_kv_heads,
                ")"@,
            ),
            LoadFault::LinearHeads { v, k } => with_numbers(
                "n_linear_v_heads ("@,
                v,
                ") must equal n_linear_k_heads ("@,
                k,
                ") for recurrence"@,
            ),
            LoadFault::LinearHeadDims { v, k } => with_numbers(
                "linear_v_head_dim ("@,
                v,
                ") must equal linear_k_head_dim ("@,
                k,
                ") for recurrence"@,
            ),
            LoadFault::NoLinearHeadDim => "linear head dims must be positive"@,
            LoadFault::NoKernel => "conv_kernel_size must be positive"@,
            LoadFault::Rotary { rotary_dim, head_dim } => with_numbers(
                "rotary_dim ("@,
                rotary_dim,
                ") must be between 1 and head_dim ("@,
                head_dim,
                ")"@,
            ),
            LoadFault::Overflow => "Model dimensions are too large"@,
            LoadFault::Read(label) => "Failed to read "@ + label,
        }
    }
}

/// A text with two numbers in it.
pub fn join_numbers(a: &str, x: usize, b: &str, y: usize, c: &str) -> (out: String)
    ensures
        out@ == with_numbers(a@, x, b@, y, c@),
{
    let mut out = a.to_owned();
    text::push_decimal(&mut out, x as u64);
    out.append(b);
    text::push_decimal(&mut out, y as u64);
    out.append(c);
    out
}

impl LoadFault<String> {
    /// The fault in words.
    pub fn message(&self) -> (text: String)
        ensures
            text@ == self@.message(),
    {
        match self {
            LoadFault::NoExtension => "Qwen3.5 requires v2 header".to_owned(),
            LoadFault::NoContext => "seq_len must be non-zero".to_owned(),
            LoadFault::GroupSize { dim, group_size } => join_numbers(
                "dim (",
                *dim,
                ") must be divisible by group_size (",
                *group_size,
                ")",
            ),
            LoadFault::NoLayers => "n_layers must be positive".to_owned(),
            LoadFault::TooManyLayers(n) => {
                let mut out = "Qwen3.5 v2 supports at most 64 layers, got ".to_owned();
                text::push_decimal(&mut out, *n as u64);
                out
            },
            LoadFault::MaskTooWide => "full_attention_mask has bits set above n_layers".to_owned(),
            LoadFault::NotHybrid => "Qwen3.5 requires both full and linear attention layers".to_owned(),
            LoadFault::HiddenSize { all_heads_dim, dim } => join_numbers(
                "Qwen3.5-2B requires n_heads * head_dim (",
                *all_heads_dim,
                ") == hidden size (",
                *dim,
                ")",
            ),
            LoadFault::KvHeads { n_heads, n_kv_heads } => join_numbers(
                "n_heads (",
                *n_heads,
                ") must be divisible by n_kv_heads (",
                *n_kv_heads,
                ")",
            ),
            LoadFault::LinearHeads { v, k } => join_numbers(
                "n_linear_v_heads (",
                *v,
                ") must equal n_linear_k_heads (",
                *k,
                ") for recurrence",
            ),
            LoadFault::LinearHeadDims { v, k } => join_numbers(
                "linear_v_head_dim (",
                *v,
                ") must equal linear_k_head_dim (",
                *k,
                ") for recurrence",
            ),
            LoadFault::NoLinearHeadDim => "linear head dims must be positive".to_owned(),
            LoadFault::NoKernel => "conv_kernel_size must be positive".to_owned(),
            LoadFault::Rotary { rotary_dim, head_dim } => join_numbers(
                "rotary_dim (",
                *rotary_dim,
                ") must be between 1 and head_dim (",
                *head_dim,
                ")",
            ),
            LoadFault::Overflow => "Model dimensions are too large".to_owned(),
            LoadFault::Read(label) => {
                let mut out = "Failed to read ".to_owned();
                out.append(label.as_str());
                out
            },
        }
    }
}

/// The dimensions of a model.
#[derive(Debug, Clone, Copy, PartialEq, Eq, Structural)]
pub struct Shape {
    pub dim: usize,
    pub hidden_dim: usize,
    pub n_layers: usize,
    pub n_heads: usize,
    pub n_kv_heads: usize,
    pub head_dim: usize,
    pub seq_len: usize,
    pub vocab_size: usize,
    pub group_size: usize,
    /// Width of the keys, and of the values, of one position.
    pub kv_dim: usize,
    /// Width of the queries of one position.
    pub all_heads_dim: usize,
    pub n_linear_k_heads: usize,
    pub n_linear_v_heads: usize,
    pub linear_k_head_dim: usize,
    pub linear_v_head_dim: usize,
    /// Width of queries, keys and values of a linear attention layer together.
    pub linear_qkv_dim: usize,
    pub conv_kernel_size: usize,
    pub rotary_dim: usize,
    pub full_attention_mask: u64,
    /// How many layers have full attention.
    pub n_full: usize,
    /// How many layers have linear attention.
    pub n_linear: usize,
    /// Bit pattern of a single-precision number.
    pub norm_eps: u32,
    /// Bit pattern of a single-precision number.
    pub rope_theta: u32,
}

/// Whether `a` can be divided by `b` without remainder.
pub open spec fn divisible(a: usize, b: usize) -> bool {
    b != 0 && a % b == 0
}

/// The width of queries, keys and values of a linear attention layer together.
pub open spec fn qkv_width(v2: ModelConfigV2) -> nat {
    v2.n_linear_k_heads as nat * v2.linear_k_head_dim as nat + v2.n_linear_k_heads as nat * v2.linear_k_head_dim as nat
        + v2.n_linear_v_heads as nat * v2.linear_v_head_dim as nat
}

/// The dimensions that a configuration gives, were they all to fit.
pub open spec fn dimensions(config: ModelConfig, v2: ModelConfigV2) -> Shape {
    let n_full = mask::full_before(v2.full_attention_mask, config.n_layers as int);
    Shape {
        dim: config.dim,
        hidden_dim: config.hidden_dim,
        n_layers: config.n_layers,
        n_heads: config.n_heads,
        n_kv_heads: config.n_kv_heads,
        head_dim: config.head_dim,
        seq_len: config.seq_len,
        vocab_size: config.vocab_size,
        group_size: config.group_size,
        kv_dim: (config.n_kv_heads as nat * config.head_dim as nat) as usize,
        all_heads_dim: (config.n_heads as nat * config.head_dim as nat) as usize,
        n_linear_k_heads: v2.n_linear_k_heads,
        n_linear_v_heads: v2.n_linear_v_heads,
        linear_k_head_dim: v2.linear_k_head_dim,
        linear_v_head_dim: v2.linear_v_head_dim,
        linear_qkv_dim: qkv_width(v2) as usize,
        conv_kernel_size: v2.conv_kernel_size,
        rotary_dim: v2.rotary_dim,
        full_attention_mask: v2.full_attention_mask,
        n_full: n_full as usize,
        n_linear: (config.n_layers - n_full) as usize,
        norm_eps: v2.norm_eps,
        rope_theta: v2.rope_theta,
    }
}

/// The dimensions of the model with the given configuration, or the first thing that is wrong
/// with them.
pub open spec fn shape_of(config: ModelConfig) -> Result<Shape, LoadFault<Seq<char>>> {
    match config.v2 {
        None => Err(LoadFault::NoExtension),
        Some(v2) => {
            let shape = dimensions(config, v2);
            let attention = v2.full_attention_mask;
            if config.seq_len == 0 {
                Err(LoadFault::NoContext)
            } else if !divisible(config.dim, config.group_size) {
                Err(LoadFault::GroupSize { dim: config.dim, group_size: config.group_size })
            } else if config.n_layers == 0 {
                Err(LoadFault::NoLayers)
            } else if config.n_layers > mask::MAX_LAYERS {
                Err(LoadFault::TooManyLayers(config.n_layers))
            } else if !mask::within(attention, config.n_layers as int) {
                Err(LoadFault::MaskTooWide)
            } else if shape.n_full == 0 || shape.n_full == config.n_layers {
                Err(LoadFault::NotHybrid)
            } else if config.n_kv_heads as nat * config.head_dim as nat > usize::MAX || config.n_heads as nat
                * config.head_dim as nat > usize::MAX {
                Err(LoadFault::Overflow)
            } else if shape.all_heads_dim != config.dim {
                Err(LoadFault::HiddenSize { all_heads_dim: shape.all_heads_dim, dim: config.dim })
            } else if qkv_width(v2) > usize::MAX {
                Err(LoadFault::Overflow)
            } else if !divisible(config.n_heads, config.n_kv_heads) {
                Err(LoadFault::KvHeads { n_heads: config.n_heads, n_kv_heads: config.n_kv_heads })
            } else if v2.n_linear_v_heads != v2.n_linear_k_heads {
                Err(LoadFault::LinearHeads { v: v2.n_linear_v_heads, k: v2.n_linear_k_heads })
            } else if v2.linear_v_head_dim != v2.linear_k_head_dim {
                Err(LoadFault::LinearHeadDims { v: v2.linear_v_head_dim, k: v2.linear_k_head_dim })
            } else if v2.linear_k_head_dim == 0 {
                Err(LoadFault::NoLinearHeadDim)
            } else if v2.conv_kernel_size == 0 {
                Err(LoadFault::NoKernel)
            } else if v2.rotary_dim == 0 || v2.rotary_dim > config.head_dim {
                Err(LoadFault::Rotary { rotary_dim: v2.rotary_dim, head_dim: config.head_dim })
            } else {
                Ok(shape)
            }
        },
    }
}

fn is_divisible(a: usize, b: usize) -> (yes: bool)
    ensures
        yes == divisible(a, b),
{
    b != 0 && a % b == 0
}

impl Shape {
    /// The dimensions of the model with the given configuration.
    pub fn new(config: &ModelConfig) -> (result: Result<Shape, LoadError>)
        ensures
            match result {
                Ok(shape) => shape_of(*config) == Ok::<Shape, LoadFault<Seq<char>>>(shape),
                Err(fault) => shape_of(*config) == Err::<Shape, LoadFault<Seq<char>>>(fault@),
            },
    {
        let v2: ModelConfigV2 = match config.v2 {
            Some(v2) => v2,
            None => {
                return Err(LoadFault::NoExtension);
            },
        };
        if config.seq_len == 0 {
            return Err(LoadFault::NoContext);
        }
        if !is_divisible(config.dim, config.group_size) {
            return Err(LoadFault::GroupSize { dim: config.dim, group_size: config.group_size });
        }
        if config.n_layers == 0 {
            return Err(LoadFault::NoLayers);
        }
        if config.n_layers > mask::MAX_LAYERS {
            return Err(LoadFault::TooManyLayers(config.n_layers));
        }
        if config.n_layers != mask::MAX_LAYERS && v2.full_attention_mask >> (config.n_layers as u64) != 0 {
            return Err(LoadFault::MaskTooWide);
        }
        let n_full: usize = mask::count_full(v2.full_attention_mask, config.n_layers);
        if n_full == 0 || n_full == config.n_layers {
            return Err(LoadFault::NotHybrid);
        }
        assert(size::denotes(Some(config.n_kv_heads), config.n_kv_heads as nat));
        assert(size::denotes(Some(config.n_heads), config.n_heads as nat));
        let kv = size::times(Some(config.n_kv_heads), config.head_dim);
        let all_heads = size::times(Some(config.n_heads), config.head_dim);
        let (kv_dim, all_heads_dim): (usize, usize) = match (kv, all_heads) {
            (Some(kv_dim), Some(all_heads_dim)) => (kv_dim, all_heads_dim),
            _ => {
                return Err(LoadFault::Overflow);
            },
        };
        if all_heads_dim != config.dim {
            return Err(LoadFault::HiddenSize { all_heads_dim, dim: config.dim });
        }
        assert(size::denotes(Some(v2.n_linear_k_heads), v2.n_linear_k_heads as nat));
        assert(size::denotes(Some(v2.n_linear_v_heads), v2.n_linear_v_heads as nat));
        let keys = size::times(Some(v2.n_linear_k_heads), v2.linear_k_head_dim);
        let values = size::times(Some(v2.n_linear_v_heads), v2.linear_v_head_dim);
        let ghost key_width = v2.n_linear_k_heads as nat * v2.linear_k_head_dim as nat;
        assert(size::denotes(keys, key_width));
        let queries_keys = size::plus(keys, keys);
        assert(size::denotes(queries_keys, key_width + key_width));
        let linear_qkv_dim: usize = match size::plus(queries_keys, values) {
            Some(width) => width,
            None => {
                return Err(LoadFault::Overflow);
            },
        };
        if !is_divisible(config.n_heads, config.n_kv_heads) {
            return Err(LoadFault::KvHeads { n_heads: config.n_heads, n_kv_heads: config.n_kv_heads });
        }
        if v2.n_linear_v_heads != v2.n_linear_k_heads {
            return Err(LoadFault::LinearHeads { v: v2.n_linear_v_heads, k: v2.n_linear_k_heads });
        }
        if v2.linear_v_head_dim != v2.linear_k_head_dim {
            return Err(LoadFault::LinearHeadDims { v: v2.linear_v_head_dim, k: v2.linear_k_head_dim });
        }
        if v2.linear_k_head_dim == 0 {
            return Err(LoadFault::NoLinearHeadDim);
        }
        if v2.conv_kernel_size == 0 {
            return Err(LoadFault::NoKernel);
        }
        if v2.rotary_dim == 0 || v2.rotary_dim > config.head_dim {
            return Err(LoadFault::Rotary { rotary_dim: v2.rotary_dim, head_dim: config.head_dim });
        }
        Ok(
            Shape {
                dim: config.dim,
                hidden_dim: config.hidden_dim,
                n_layers: config.n_layers,
                n_heads: config.n_heads,
                n_kv_heads: config.n_kv_heads,
                head_dim: config.head_dim,
                seq_len: config.seq_len,
                vocab_size: config.vocab_size,
                group_size: config.group_size,
                kv_dim,
                all_heads_dim,
                n_linear_k_heads: v2.n_linear_k_heads,
                n_linear_v_heads: v2.n_linear_v_heads,
                linear_k_head_dim: v2.linear_k_head_dim,
                linear_v_head_dim: v2.linear_v_head_dim,
                linear_qkv_dim,
                conv_kernel_size: v2.conv_kernel_size,
                rotary_dim: v2.rotary_dim,
                full_attention_mask: v2.full_attention_mask,
                n_full,
                n_linear: config.n_layers - n_full,
                norm_eps: v2.norm_eps,
                rope_theta: v2.rope_theta,
            },
        )
    }
}

/// What holds of the dimensions of every model that can be loaded.
pub open spec fn consistent(shape: Shape) -> bool {
    &&& shape.seq_len > 0
    &&& shape.group_size > 0
    &&& shape.dim % shape.group_size == 0
    &&& 0 < shape.n_layers <= mask::MAX_LAYERS
    &&& shape.n_full == mask::full_before(shape.full_attention_mask, shape.n_layers as int)
    &&& shape.n_linear == mask::linear_before(shape.full_attention_mask, shape.n_layers as int)
    &&& shape.n_full > 0
    &&& shape.n_linear > 0
    &&& shape.n_kv_heads > 0
    &&& shape.n_heads % shape.n_kv_heads == 0
    &&& shape.kv_dim == shape.n_kv_heads as nat * shape.head_dim as nat
    &&& shape.all_heads_dim == shape.n_heads as nat * shape.head_dim as nat
    &&& shape.all_heads_dim == shape.dim
    &&& shape.n_linear_v_heads == shape.n_linear_k_heads
    &&& shape.linear_v_head_dim == shape.linear_k_head_dim
    &&& shape.linear_qkv_dim == shape.n_linear_k_heads as nat * shape.linear_k_head_dim as nat
        + shape.n_linear_k_heads as nat * shape.linear_k_head_dim as nat + shape.n_linear_v_heads as nat
        * shape.linear_v_head_dim as nat
    &&& shape.linear_k_head_dim > 0
    &&& shape.conv_kernel_size > 0
    &&& 0 < shape.rotary_dim <= shape.head_dim
}

/// A configuration that is accepted has consistent dimensions.
pub proof fn law_accepted_is_consistent(config: ModelConfig, shape: Shape)
    requires
        shape_of(config) == Ok::<Shape, LoadFault<Seq<char>>>(shape),
    ensures
        consistent(shape),
{
    mask::lemma_full_before_bounds(shape.full_attention_mask, config.n_layers as int);
}

/// A configuration is accepted exactly where it has an extension, a context window, a width that
/// groups divide, between one and 64 layers of which some have full attention and some have not and
/// the mask speaks of no other, heads that make up the width and share keys and values evenly, linear
/// attention with as many value heads as key heads of one positive width, a convolution, and between
/// one and all dimensions of a head rotated; and all widths fit into the machine.
pub proof fn law_what_models_are_accepted(config: ModelConfig)
    ensures
        shape_of(config) is Ok <==> {
            &&& config.v2 matches Some(v2)
            &&& config.seq_len > 0
            &&& config.group_size > 0
            &&& config.dim as int % config.group_size as int == 0
            &&& 1 <= config.n_layers <= 64
            &&& exists|i: int| 0 <= i < config.n_layers && #[trigger] mask::is_full(v2.full_attention_mask, i)
            &&& exists|i: int| 0 <= i < config.n_layers && !#[trigger] mask::is_full(v2.full_attention_mask, i)
            &&& forall|i: int| config.n_layers <= i < 64 ==> !#[trigger] mask::is_full(v2.full_attention_mask, i)
            &&& config.n_heads * config.head_dim == config.dim
            &&& config.n_kv_heads * config.head_dim <= usize::MAX
            &&& config.n_kv_heads > 0
            &&& config.n_heads as int % config.n_kv_heads as int == 0
            &&& v2.n_linear_v_heads == v2.n_linear_k_heads
            &&& v2.linear_v_head_dim == v2.linear_k_head_dim
            &&& v2.linear_k_head_dim > 0
            &&& 2 * (v2.n_linear_k_heads * v2.linear_k_head_dim) + v2.n_linear_v_heads * v2.linear_v_head_dim
                <= usize::MAX
            &&& v2.conv_kernel_size > 0
            &&& 1 <= v2.rotary_dim <= config.head_dim
        },
{
    if let Some(v2) = config.v2 {
        if 1 <= config.n_layers <= 64 {
            lemma_hybrid(v2.full_attention_mask, config.n_layers as int);
            mask::lemma_full_before_bounds(v2.full_attention_mask, config.n_layers as int);
            mask::law_within_means_no_later_bits(v2.full_attention_mask, config.n_layers as int);
        }
        let kd = v2.n_linear_k_heads as nat * v2.linear_k_head_dim as nat;
        assert(kd == v2.n_linear_k_heads * v2.linear_k_head_dim);
        assert(qkv_width(v2) == 2 * kd + v2.n_linear_v_heads * v2.linear_v_head_dim);
    }
}

/// Some of the layers have full attention, and some have not, where the count says so.
proof fn lemma_hybrid(attention: u64, n: int)
    requires
        0 <= n,
    ensures
        mask::full_before(attention, n) > 0 <==> exists|i: int| 0 <= i < n && #[trigger] mask::is_full(attention, i),
        mask::full_before(attention, n) < n <==> exists|i: int| 0 <= i < n && !#[trigger] mask::is_full(attention, i),
    decreases n,
{
    mask::lemma_full_before_bounds(attention, n);
    if n > 0 {
        lemma_hybrid(attention, n - 1);
        mask::lemma_full_before_bounds(attention, n - 1);
        if mask::is_full(attention, n - 1) {
            assert(0 <= n - 1 < n && mask::is_full(attention, n - 1));
            if mask::full_before(attention, n) < n {
                let i = choose|i: int| 0 <= i < n - 1 && !#[trigger] mask::is_full(attention, i);
                assert(0 <= i < n && !mask::is_full(attention, i));
            }
        } else {
            assert(0 <= n - 1 < n && !mask::is_full(attention, n - 1));
            if mask::full_before(attention, n) > 0 {
                let i = choose|i: int| 0 <= i < n - 1 && #[trigger] mask::is_full(attention, i);
                assert(0 <= i < n && mask::is_full(attention, i));
            }
        }
    }
}

/// The dimensions of an accepted model are those of its configuration, each in its own place, and
/// its widths are products of heads and their widths.
pub proof fn law_accepted_model_has_the_configured_dimensions(config: ModelConfig, shape: Shape)
    requires
        shape_of(config) == Ok::<Shape, LoadFault<Seq<char>>>(shape),
    ensures
        config.v2 is Some,
        ({
            let v2 = config.v2->Some_0;
            &&& shape.dim == config.dim
            &&& shape.hidden_dim == config.hidden_dim
            &&& shape.n_layers == config.n_layers
            &&& shape.n_heads == config.n_heads
            &&& shape.n_kv_heads == config.n_kv_heads
            &&& shape.head_dim == config.head_dim
            &&& shape.seq_len == config.seq_len
            &&& shape.vocab_size == config.vocab_size
            &&& shape.group_size == config.group_size
            &&& shape.kv_dim == config.n_kv_heads * config.head_dim
            &&& shape.all_heads_dim == config.n_heads * config.head_dim
            &&& shape.n_linear_k_heads == v2.n_linear_k_heads
            &&& shape.n_linear_v_heads == v2.n_linear_v_heads
            &&& shape.linear_k_head_dim == v2.linear_k_head_dim
            &&& shape.linear_v_head_dim == v2.linear_v_head_dim
            &&& shape.linear_qkv_dim == 2 * (v2.n_linear_k_heads * v2.linear_k_head_dim) + v2.n_linear_v_heads
                * v2.linear_v_head_dim
            &&& shape.conv_kernel_size == v2.conv_kernel_size
            &&& shape.rotary_dim == v2.rotary_dim
            &&& shape.full_attention_mask == v2.full_attention_mask
            &&& shape.n_full == mask::full_layers(v2.full_attention_mask, config.n_layers as int).len()
            &&& shape.n_full + shape.n_linear == config.n_layers
            &&& shape.norm_eps == v2.norm_eps
            &&& shape.rope_theta == v2.rope_theta
        }),
{
    let v2 = config.v2->Some_0;
    mask::law_counts_are_of_layers(v2.full_attention_mask, config.n_layers as int);
    assert(qkv_width(v2) == 2 * (v2.n_linear_k_heads * v2.linear_k_head_dim) + v2.n_linear_v_heads
        * v2.linear_v_head_dim);
}

/// What a fault says of a configuration is so.
pub proof fn law_model_faults_are_so(config: ModelConfig)
    ensures
        config.v2 is None <==> shape_of(config) == Err::<Shape, LoadFault<Seq<char>>>(LoadFault::NoExtension),
        config.v2 matches Some(v2) ==> match shape_of(config) {
            Ok(_) => true,
            Err(LoadFault::NoContext) => config.seq_len == 0,
            Err(LoadFault::GroupSize { dim, group_size }) => {
                &&& dim == config.dim
                &&& group_size == config.group_size
                &&& group_size == 0 || dim as int % group_size as int != 0
            },
            Err(LoadFault::NoLayers) => config.n_layers == 0,
            Err(LoadFault::TooManyLayers(n)) => n == config.n_layers && n > 64,
            Err(LoadFault::MaskTooWide) => exists|i: int|
                config.n_layers <= i < 64 && #[trigger] mask::is_full(v2.full_attention_mask, i),
            Err(LoadFault::NotHybrid) => (forall|i: int|
                0 <= i < config.n_layers ==> #[trigger] mask::is_full(v2.full_attention_mask, i)) || (forall|i: int|
                0 <= i < config.n_layers ==> !#[trigger] mask::is_full(v2.full_attention_mask, i)),
            Err(LoadFault::HiddenSize { all_heads_dim, dim }) => {
                &&& all_heads_dim == config.n_heads * config.head_dim
                &&& dim == config.dim
                &&& all_heads_dim != dim
            },
            Err(LoadFault::KvHeads { n_heads, n_kv_heads }) => {
                &&& n_heads == config.n_heads
                &&& n_kv_heads == config.n_kv_heads
                &&& n_kv_heads == 0 || n_heads as int % n_kv_heads as int != 0
            },
            Err(LoadFault::LinearHeads { v, k }) => v == v2.n_linear_v_heads && k == v2.n_linear_k_heads && v != k,
            Err(LoadFault::LinearHeadDims { v, k }) => v == v2.linear_v_head_dim && k == v2.linear_k_head_dim && v != k,
            Err(LoadFault::NoLinearHeadDim) => v2.linear_k_head_dim == 0,
            Err(LoadFault::NoKernel) => v2.conv_kernel_size == 0,
            Err(LoadFault::Rotary { rotary_dim, head_dim }) => {
                &&& rotary_dim == v2.rotary_dim
                &&& head_dim == config.head_dim
                &&& rotary_dim == 0 || rotary_dim > head_dim
            },
            Err(LoadFault::Overflow) => {
                ||| config.n_kv_heads * config.head_dim > usize::MAX
                ||| config.n_heads * config.head_dim > usize::MAX
                ||| 2 * (v2.n_linear_k_heads * v2.linear_k_head_dim) + v2.n_linear_v_heads * v2.linear_v_head_dim
                    > usize::MAX
            },
            Err(_) => false,
        },
{
    if let Some(v2) = config.v2 {
        if 1 <= config.n_layers <= 64 {
            lemma_hybrid(v2.full_attention_mask, config.n_layers as int);
            mask::lemma_full_before_bounds(v2.full_attention_mask, config.n_layers as int);
            mask::law_within_means_no_later_bits(v2.full_attention_mask, config.n_layers as int);
        }
        assert(qkv_width(v2) == 2 * (v2.n_linear_k_heads * v2.linear_k_head_dim) + v2.n_linear_v_heads
            * v2.linear_v_head_dim);
    }
}

/// A text with two numbers has the first one behind its beginning, and the second one in front of its
/// end, with what is to stand between them.
pub proof fn law_numbers_stand_in_their_places(a: Seq<char>, x: usize, b: Seq<char>, y: usize, c: Seq<char>)
    ensures
        ({
            let whole = with_numbers(a, x, b, y, c);
            let first = text::decimal(x as nat);
            let second = text::decimal(y as nat);
            let i = a.len() as int;
            let j = i + first.len();
            let k = j + b.len();
            let l = k + second.len();
            &&& whole.len() == l + c.len()
            &&& whole.subrange(0, i) == a
            &&& whole.subrange(i, j) == first
            &&& whole.subrange(j, k) == b
            &&& whole.subrange(k, l) == second
            &&& whole.subrange(l, whole.len() as int) == c
        }),
{
    let whole = with_numbers(a, x, b, y, c);
    let first = text::decimal(x as nat);
    let second = text::decimal(y as nat);
    let i = a.len() as int;
    let j = i + first.len();
    let k = j + b.len();
    let l = k + second.len();
    assert(whole.subrange(0, i) =~= a);
    assert(whole.subrange(i, j) =~= first);
    assert(whole.subrange(j, k) =~= b);
    assert(whole.subrange(k, l) =~= second);
    assert(whole.subrange(l, whole.len() as int) =~= c);
}

/// How far a configuration is from being refused with a fault: how many of the things that are looked
/// at one after the other are in order before it.
pub open spec fn checks_before(fault: LoadFault<Seq<char>>) -> int {
    match fault {
        LoadFault::NoContext => 0,
        LoadFault::GroupSize { .. } => 1,
        LoadFault::NoLayers => 2,
        LoadFault::TooManyLayers(_) => 3,
        LoadFault::MaskTooWide => 4,
        LoadFault::NotHybrid => 5,
        LoadFault::HiddenSize { .. } => 6,
        LoadFault::KvHeads { .. } => 7,
        LoadFault::LinearHeads { .. } => 8,
        LoadFault::LinearHeadDims { .. } => 9,
        LoadFault::NoLinearHeadDim => 10,
        LoadFault::NoKernel => 11,
        LoadFault::Rotary { .. } => 12,
        _ => 0,
    }
}

/// Where several things are wrong with a configuration, the fault is the first of them: everything
/// that is looked at before it is in order.
pub proof fn law_first_model_fault_is_told(config: ModelConfig, v2: ModelConfigV2, fault: LoadFault<Seq<char>>)
    requires
        config.v2 == Some(v2),
        shape_of(config) == Err::<Shape, LoadFault<Seq<char>>>(fault),
    ensures
        ({
            let n = checks_before(fault);
            let attention = v2.full_attention_mask;
            &&& n > 0 ==> config.seq_len > 0
            &&& n > 1 ==> config.group_size > 0 && config.dim as int % config.group_size as int == 0
            &&& n > 2 ==> config.n_layers > 0
            &&& n > 3 ==> config.n_layers <= 64
            &&& n > 4 ==> forall|i: int| config.n_layers <= i < 64 ==> !#[trigger] mask::is_full(attention, i)
            &&& n > 5 ==> exists|i: int| 0 <= i < config.n_layers && #[trigger] mask::is_full(attention, i)
            &&& n > 5 ==> exists|i: int| 0 <= i < config.n_layers && !#[trigger] mask::is_full(attention, i)
            &&& n > 6 ==> config.n_heads * config.head_dim == config.dim
            &&& n > 7 ==> config.n_kv_heads > 0 && config.n_heads as int % config.n_kv_heads as int == 0
            &&& n > 8 ==> v2.n_linear_v_heads == v2.n_linear_k_heads
            &&& n > 9 ==> v2.linear_v_head_dim == v2.linear_k_head_dim
            &&& n > 10 ==> v2.linear_k_head_dim > 0
            &&& n > 11 ==> v2.conv_kernel_size > 0
            &&& fault is Overflow ==> {
                &&& config.seq_len > 0
                &&& config.group_size > 0
                &&& config.dim as int % config.group_size as int == 0
                &&& 0 < config.n_layers <= 64
                &&& config.n_kv_heads * config.head_dim > usize::MAX || config.n_heads * config.head_dim > usize::MAX
                    || config.n_heads * config.head_dim == config.dim
            }
        }),
{
    if 1 <= config.n_layers <= 64 {
        lemma_hybrid(v2.full_attention_mask, config.n_layers as int);
        mask::lemma_full_before_bounds(v2.full_attention_mask, config.n_layers as int);
        mask::law_within_means_no_later_bits(v2.full_attention_mask, config.n_layers as int);
    }
}

} // verus!
