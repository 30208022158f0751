//! The Qwen3.5 text model: layers with gated full attention and with gated delta rule, mixed.
//!
//! The model is loaded here, its caches are kept here, and each forward pass is laid out here as a
//! list of steps. The arithmetic of a step is on floating-point numbers and is done by the caller;
//! here these numbers are of a type `T`.

use super::cache;
use super::cache::{CacheState, Caches};
use super::configuration::ModelConfig;
use super::mapper::MemoryMapper;
use super::shape;
use super::shape::{LoadError, LoadFault, Shape};
use super::size;
use super::stream;
use super::weights;
use super::weights::Weights;
use crate::mask;
use crate::text;
use vstd::arithmetic::power2::pow2;
use vstd::prelude::*;
use vstd::slice::*;
use vstd::string::*;

verus! {

/// A quantized list of numbers: one byte each, and one scale per group.
#[derive(Debug)]
pub struct QuantizedBuffer<T> {
    pub q: Vec<i8>,
    pub s: Vec<T>,
}

impl<T> QuantizedBuffer<T> {
    /// Whether the buffer is for `n` numbers, and holds only zeros.
    pub open spec fn blank(self, n: nat, group_size: nat, zero: T) -> bool {
        &&& self.q@ == cache::repeated(0i8, n)
        &&& self.s@ == cache::repeated(zero, n / group_size)
    }
}

impl<T: Copy> QuantizedBuffer<T> {
    /// A buffer for `n` numbers.
    pub fn new(n: usize, group_size: usize, zero: T) -> (buffer: Self)
        requires
            group_size > 0,
        ensures
            buffer.blank(n as nat, group_size as nat, zero),
    {
        QuantizedBuffer { q: cache::repeat(0i8, n), s: cache::repeat(zero, n / group_size) }
    }
}

/// Working space for a forward pass.
#[derive(Debug)]
pub struct TransformerBuffers<T> {
    /// The residual stream.
    pub x: Vec<T>,
    /// The normed input of the mixer.
    pub x_normed: Vec<T>,
    /// The normed input of the feed-forward part.
    pub xb_normed: Vec<T>,
    pub xq: QuantizedBuffer<T>,
    pub hb: Vec<T>,
    pub hb2: Vec<T>,
    pub hq: QuantizedBuffer<T>,
    pub q_buf: Vec<T>,
    pub k_buf: Vec<T>,
    pub v_buf: Vec<T>,
    pub att_buf: Vec<T>,
    pub z_buf: Vec<T>,
    pub qkv_buf: Vec<T>,
    pub a_buf: Vec<T>,
    pub b_buf: Vec<T>,
    pub conv_out: Vec<T>,
    pub ffn_out: Vec<T>,
}

impl<T> TransformerBuffers<T> {
    /// Whether the buffers have the lengths for the given dimensions, and hold only zeros.
    pub open spec fn blank(
        self,
        dim: nat,
        hidden_dim: nat,
        n_heads: nat,
        n_kv_heads: nat,
        head_dim: nat,
        qkv_dim: nat,
        n_linear_v_heads: nat,
        seq_len: nat,
        group_size: nat,
        zero: T,
    ) -> bool {
        &&& self.x@ == cache::repeated(zero, dim)
        &&& self.x_normed@ == cache::repeated(zero, dim)
        &&& self.xb_normed@ == cache::repeated(zero, dim)
        &&& self.xq.blank(dim, group_size, zero)
        &&& self.hb@ == cache::repeated(zero, hidden_dim)
        &&& self.hb2@ == cache::repeated(zero, hidden_dim)
        &&& self.hq.blank(hidden_dim, group_size, zero)
        &&& self.q_buf@ == cache::repeated(zero, 2 * n_heads * head_dim)
        &&& self.k_buf@ == cache::repeated(zero, n_kv_heads * head_dim)
        &&& self.v_buf@ == cache::repeated(zero, n_kv_heads * head_dim)
        &&& self.att_buf@ == cache::repeated(zero, n_heads * seq_len)
        &&& self.z_buf@ == cache::repeated(zero, dim)
        &&& self.qkv_buf@ == cache::repeated(zero, qkv_dim)
        &&& self.a_buf@ == cache::repeated(zero, n_linear_v_heads)
        &&& self.b_buf@ == cache::repeated(zero, n_linear_v_heads)
        &&& self.conv_out@ == cache::repeated(zero, qkv_dim)
        &&& self.ffn_out@ == cache::repeated(zero, dim)
    }
}

/// Whether the lengths of all buffers fit into a `usize`.
pub open spec fn buffers_fit(n_heads: nat, n_kv_heads: nat, head_dim: nat, seq_len: nat) -> bool {
    &&& 2 * n_heads * head_dim <= usize::MAX
    &&& n_kv_heads * head_dim <= usize::MAX
    &&& n_heads * seq_len <= usize::MAX
}

impl<T: Copy> TransformerBuffers<T> {
    /// Working space for a model of the given dimensions.
    pub fn new(
        dim: usize,
        hidden_dim: usize,
        n_heads: usize,
        n_kv_heads: usize,
        head_dim: usize,
        qkv_dim: usize,
        n_linear_v_heads: usize,
        seq_len: usize,
        group_size: usize,
        zero: T,
    ) -> (result: Result<Self, LoadError>)
        requires
            group_size > 0,
        ensures
            match result {
                Ok(buffers) => {
                    &&& seq_len > 0
                    &&& buffers_fit(n_heads as nat, n_kv_heads as nat, head_dim as nat, seq_len as nat)
                    &&& buffers.blank(
                        dim as nat,
                        hidden_dim as nat,
                        n_heads as nat,
                        n_kv_heads as nat,
                        head_dim as nat,
                        qkv_dim as nat,
                        n_linear_v_heads as nat,
                        seq_len as nat,
                        group_size as nat,
                        zero,
                    )
                },
                Err(fault) => {
                    if seq_len == 0 {
                        fault@ == LoadFault::<Seq<char>>::NoContext
                    } else {
                        &&& fault@ == LoadFault::<Seq<char>>::Overflow
                        &&& !buffers_fit(n_heads as nat, n_kv_heads as nat, head_dim as nat, seq_len as nat)
                    }
                },
            },
    {
        if seq_len == 0 {
            return Err(LoadFault::NoContext);
        }
        proof {
            assert(1 * n_kv_heads as nat == n_kv_heads as nat);
            assert(1 * n_heads as nat == n_heads as nat);
        }
        let lengths = (
            size::product(2, n_heads, head_dim),
            size::product(1, n_kv_heads, head_dim),
            size::product(1, n_heads, seq_len),
        );
        match lengths {
            (Some(q_len), Some(kv_dim), Some(att_len)) => Ok(
                TransformerBuffers {
                    x: cache::repeat(zero, dim),
                    x_normed: cache::repeat(zero, dim),
                    xb_normed: cache::repeat(zero, dim),
                    xq: QuantizedBuffer::new(dim, group_size, zero),
                    hb: cache::repeat(zero, hidden_dim),
                    hb2: cache::repeat(zero, hidden_dim),
                    hq: QuantizedBuffer::new(hidden_dim, group_size, zero),
                    q_buf: cache::repeat(zero, q_len),
                    k_buf: cache::repeat(zero, kv_dim),
                    v_buf: cache::repeat(zero, kv_dim),
                    att_buf: cache::repeat(zero, att_len),
                    z_buf: cache::repeat(zero, dim),
                    qkv_buf: cache::repeat(zero, qkv_dim),
                    a_buf: cache::repeat(zero, n_linear_v_heads),
                    b_buf: cache::repeat(zero, n_linear_v_heads),
                    conv_out: cache::repeat(zero, qkv_dim),
                    ffn_out: cache::repeat(zero, dim),
                },
            ),
            _ => Err(LoadFault::Overflow),
        }
    }
}

/// One step of a forward pass.
#[derive(Debug, Clone, Copy, PartialEq, Eq, Structural)]
pub enum Step {
    /// The residual stream becomes row `row` of the embedding.
    SelectRow { row: usize },
    /// The residual stream is normed and quantized for the mixer of the layer.
    InputNorm { layer: usize },
    /// Full attention at position `pos`. The layer is number `slot` of the layers with full
    /// attention, and its keys and values of this position belong at `kv_offset` in the caches.
    FullAttention { layer: usize, slot: usize, pos: usize, kv_offset: usize },
    /// Linear attention at position `pos`. The layer is number `slot` of the layers with linear
    /// attention.
    DeltaNet { layer: usize, slot: usize, pos: usize },
    /// The output of the mixer is added to the residual stream.
    AddAttention,
    /// The residual stream is normed and quantized for the feed-forward part of the layer.
    PostAttentionNorm { layer: usize },
    /// The feed-forward part of the layer.
    FeedForward { layer: usize },
    /// The output of the feed-forward part is added to the residual stream.
    AddFeedForward,
    /// The residual stream is normed in place.
    FinalNorm,
    /// The residual stream is quantized and compared with all rows of the embedding.
    Logits,
}

/// The mixer of layer `i` at position `pos`.
pub open spec fn mixer_step(shape: Shape, i: int, pos: nat) -> Step {
    let attention = shape.full_attention_mask;
    if mask::is_full(attention, i) {
        let slot = mask::full_before(attention, i);
        Step::FullAttention {
            layer: i as usize,
            slot: slot as usize,
            pos: pos as usize,
            kv_offset: cache::kv_place(shape.seq_len as nat, shape.kv_dim as nat, slot, pos) as usize,
        }
    } else {
        Step::DeltaNet { layer: i as usize, slot: mask::linear_before(attention, i) as usize, pos: pos as usize }
    }
}

/// The steps of layer `i` at position `pos`.
pub open spec fn layer_steps(shape: Shape, i: int, pos: nat) -> Seq<Step> {
    seq![
        Step::InputNorm { layer: i as usize },
        mixer_step(shape, i, pos),
        Step::AddAttention,
        Step::PostAttentionNorm { layer: i as usize },
        Step::FeedForward { layer: i as usize },
        Step::AddFeedForward,
    ]
}

/// The steps up to layer `n` at position `pos`.
pub open spec fn steps_before_layer(shape: Shape, token: nat, pos: nat, n: nat) -> Seq<Step>
    decreases n,
{
    if n == 0 {
        seq![Step::SelectRow { row: token as usize }]
    } else {
        steps_before_layer(shape, token, pos, (n - 1) as nat) + layer_steps(shape, n - 1, pos)
    }
}

/// The forward pass of a token at a position.
pub open spec fn pass(shape: Shape, token: nat, pos: nat, compute_logits: bool) -> Seq<Step> {
    steps_before_layer(shape, token, pos, shape.n_layers as nat) + if compute_logits {
        seq![Step::FinalNorm, Step::Logits]
    } else {
        seq![Step::FinalNorm]
    }
}

/// The passes of a prompt that is processed from the first position on. Only the last one gives
/// logits.
pub open spec fn prompt_passes(shape: Shape, tokens: Seq<usize>) -> Seq<Seq<Step>> {
    Seq::new(tokens.len(), |k: int| pass(shape, tokens[k] as nat, k as nat, k == tokens.len() - 1))
}

/// A pass compares with the embedding once and last where logits are asked for, else not at all.
pub proof fn law_logits_only_where_asked(shape: Shape, token: nat, pos: nat, compute_logits: bool, k: int)
    requires
        0 <= k < pass(shape, token, pos, compute_logits).len(),
    ensures
        pass(shape, token, pos, compute_logits)[k] == Step::Logits <==> compute_logits && k == pass(
            shape,
            token,
            pos,
            compute_logits,
        ).len() - 1,
{
    let before = steps_before_layer(shape, token, pos, shape.n_layers as nat);
    if k < before.len() {
        lemma_layers_have_no_logits(shape, token, pos, shape.n_layers as nat, k);
    }
}

/// Asking for logits adds them to the pass and changes nothing else, so a prompt that is processed as
/// a whole goes through the same steps as one that is processed token by token.
pub proof fn law_logits_change_nothing_else(shape: Shape, token: nat, pos: nat)
    ensures
        pass(shape, token, pos, true) == pass(shape, token, pos, false).push(Step::Logits),
{
    assert(pass(shape, token, pos, true) =~= pass(shape, token, pos, false).push(Step::Logits));
}

/// Whether a step works on the caches, which outlast a pass.
pub open spec fn leaves_traces(step: Step) -> bool {
    step is FullAttention || step is DeltaNet
}

/// The steps of a pass that work on the caches.
pub open spec fn traces(steps: Seq<Step>) -> Seq<Step> {
    steps.filter(|step: Step| leaves_traces(step))
}

/// Passes with and without logits work on the caches in the same steps.
pub proof fn law_logits_leave_no_traces(shape: Shape, token: nat, pos: nat)
    ensures
        traces(pass(shape, token, pos, true)) == traces(pass(shape, token, pos, false)),
{
    law_logits_change_nothing_else(shape, token, pos);
    let steps = pass(shape, token, pos, false);
    reveal(Seq::filter);
    assert(steps.push(Step::Logits).drop_last() =~= steps);
}

proof fn lemma_layers_have_no_logits(shape: Shape, token: nat, pos: nat, n: nat, k: int)
    requires
        0 <= k < steps_before_layer(shape, token, pos, n).len(),
    ensures
        steps_before_layer(shape, token, pos, n)[k] != Step::Logits,
    decreases n,
{
    if n > 0 {
        if k < steps_before_layer(shape, token, pos, (n - 1) as nat).len() {
            lemma_layers_have_no_logits(shape, token, pos, (n - 1) as nat, k);
        }
    }
}

/// Why a token cannot be processed at a position.
#[derive(Debug, Clone, Copy, PartialEq, Eq, Structural)]
pub enum PositionFault {
    /// The context window ends before the position.
    OutOfContext { pos: usize, seq_len: usize },
    /// The caches hold another number of positions than there are before this one.
    OutOfOrder { pos: usize, expected: usize },
}

impl PositionFault {
    /// The fault in words.
    pub open spec fn text(self) -> Seq<char> {
        match self {
            PositionFault::OutOfContext { pos, seq_len } => shape::with_numbers(
                "Position ("@,
                pos,
                ") exceeds context window ("@,
                seq_len,
                ")"@,
            ),
            PositionFault::OutOfOrder { pos, expected } => shape::with_numbers(
                "Position ("@,
                pos,
                ") does not follow the cached positions ("@,
                expected,
                ")"@,
            ),
        }
    }

    /// The fault in words.
    pub fn message(&self) -> (text: String)
        ensures
            text@ == self.text(),
    {
        match *self {
            PositionFault::OutOfContext { pos, seq_len } => shape::join_numbers(
                "Position (",
                pos,
                ") exceeds context window (",
                seq_len,
                ")",
            ),
            PositionFault::OutOfOrder { pos, expected } => shape::join_numbers(
                "Position (",
                pos,
                ") does not follow the cached positions (",
                expected,
                ")",
            ),
        }
    }
}

/// What is wrong with processing position `pos` when the caches hold `next_pos` positions.
pub open spec fn position_fault(seq_len: usize, next_pos: usize, pos: usize) -> Option<PositionFault> {
    if pos >= seq_len {
        Some(PositionFault::OutOfContext { pos, seq_len })
    } else if pos != next_pos {
        Some(PositionFault::OutOfOrder { pos, expected: next_pos })
    } else {
        None
    }
}

/// Whether working space and caches for a model fit into the machine.
pub open spec fn space_fits(shape: Shape) -> bool {
    &&& buffers_fit(
        shape.n_heads as nat,
        shape.n_kv_heads as nat,
        shape.head_dim as nat,
        shape.seq_len as nat,
    )
    &&& cache::caches_fit(shape)
}

/// Why a model with the given configuration cannot be loaded from a checkpoint with `available`
/// bytes behind the header.
pub open spec fn load_fault(config: ModelConfig, available: nat) -> Option<LoadFault<Seq<char>>> {
    match shape::shape_of(config) {
        Err(fault) => Some(fault),
        Ok(shape) => match stream::first_unfit(weights::weight_stream(shape), available) {
            Some(label) => Some(LoadFault::Read(label)),
            None => if space_fits(shape) {
                None
            } else {
                Some(LoadFault::Overflow)
            },
        },
    }
}

/// A loaded model with its caches.
#[derive(Debug)]
pub struct Qwen3_5Transformer<'a, T> {
    pub config: ModelConfig,
    pub shape: Shape,
    pub weights: Weights,
    pub buffers: TransformerBuffers<T>,
    pub caches: Caches<T>,
    pub logits: Vec<T>,
    /// What an empty cache holds.
    pub zero: T,
    /// How many positions the caches hold.
    pub next_pos: usize,
    /// The checkpoint.
    pub data: &'a [u8],
}

impl<'a, T> Qwen3_5Transformer<'a, T> {
    /// The dimensions are those of the configuration, the weights are placed for them, and the
    /// caches have the lengths for them.
    pub open spec fn wf(self) -> bool {
        &&& shape::shape_of(self.config) == Ok::<Shape, LoadFault<Seq<char>>>(self.shape)
        &&& shape::consistent(self.shape)
        &&& space_fits(self.shape)
        &&& self.shape.vocab_size as nat * self.shape.dim as nat <= usize::MAX
        &&& self.caches@.fits(self.shape)
        &&& self.logits@.len() == self.shape.vocab_size
        &&& self.next_pos <= self.shape.seq_len
    }

    /// The model with the positions up to `pos` laid out. Whether logits were asked for makes no
    /// difference.
    pub open spec fn laid_out(self, pos: usize) -> Self {
        Qwen3_5Transformer { next_pos: (pos + 1) as usize, ..self }
    }

    /// Whether `self` differs from `other` at most in what its caches and buffers hold.
    pub open spec fn same_model(self, other: Self) -> bool {
        &&& self.config == other.config
        &&& self.shape == other.shape
        &&& self.weights == other.weights
        &&& self.zero == other.zero
        &&& self.data == other.data
    }
}

impl<'a, T: Copy> Qwen3_5Transformer<'a, T> {
    /// Loads the model whose weights start where the mapper stands.
    pub fn new(config: ModelConfig, mapper: MemoryMapper<'a>, zero: T) -> (result: Result<Self, LoadError>)
        ensures
            match result {
                Ok(model) => {
                    let shape = model.shape;
                    &&& load_fault(config, mapper@.rest().len()) is None
                    &&& model.wf()
                    &&& model.config == config
                    &&& model.weights.placed(shape, mapper@.offset)
                    &&& model.buffers.blank(
                        shape.dim as nat,
                        shape.hidden_dim as nat,
                        shape.n_heads as nat,
                        shape.n_kv_heads as nat,
                        shape.head_dim as nat,
                        shape.linear_qkv_dim as nat,
                        shape.n_linear_v_heads as nat,
                        shape.seq_len as nat,
                        shape.group_size as nat,
                        zero,
                    )
                    &&& model.caches@ == CacheState::fresh(shape, zero)
                    &&& model.logits@ == cache::repeated(zero, shape.vocab_size as nat)
                    &&& model.zero == zero
                    &&& model.next_pos == 0
                    &&& model.data@ == mapper@.data
                },
                Err(fault) => load_fault(config, mapper@.rest().len()) == Some(fault@),
            },
    {
        let shape = match Shape::new(&config) {
            Ok(shape) => shape,
            Err(fault) => {
                return Err(fault);
            },
        };
        proof {
            shape::law_accepted_is_consistent(config, shape);
        }
        let data: &'a [u8] = mapper.data();
        let weights = match Weights::read(&shape, mapper) {
            Ok(weights) => weights,
            Err(label) => {
                return Err(LoadFault::Read(label));
            },
        };
        proof {
            weights::lemma_embedding_fits(shape, mapper@.rest().len());
        }
        let buffers = match TransformerBuffers::new(
            shape.dim,
            shape.hidden_dim,
            shape.n_heads,
            shape.n_kv_heads,
            shape.head_dim,
            shape.linear_qkv_dim,
            shape.n_linear_v_heads,
            shape.seq_len,
            shape.group_size,
            zero,
        ) {
            Ok(buffers) => buffers,
            Err(fault) => {
                return Err(fault);
            },
        };
        if !cache::check_caches_fit(&shape) {
            return Err(LoadFault::Overflow);
        }
        let caches = Caches::new(&shape, zero);
        proof {
            cache::lemma_fresh_fits(shape, zero);
        }
        let logits = cache::repeat(zero, shape.vocab_size);
        Ok(Qwen3_5Transformer { config, shape, weights, buffers, caches, logits, zero, next_pos: 0, data })
    }

    /// The configuration of the model.
    pub fn get_config(&self) -> (config: &ModelConfig)
        ensures
            *config == self.config,
    {
        &self.config
    }

    /// Forgets all positions.
    pub fn reset_cache_impl(&mut self)
        requires
            old(self).wf(),
        ensures
            final(self).wf(),
            final(self).same_model(*old(self)),
            final(self).buffers == old(self).buffers,
            final(self).logits == old(self).logits,
            final(self).caches@ == CacheState::fresh(old(self).shape, old(self).zero),
            final(self).next_pos == 0,
    {
        proof {
            cache::law_cleared_is_fresh(self.caches@, self.shape, self.zero);
            cache::lemma_fresh_fits(self.shape, self.zero);
        }
        self.caches.reset(self.zero);
        self.next_pos = 0;
    }

    /// The steps that process a token at a position. Logits are computed only where asked for.
    pub fn forward_internal(&mut self, token: usize, pos: usize, compute_logits: bool) -> (result: Result<
        Vec<Step>,
        PositionFault,
    >)
        requires
            old(self).wf(),
            token < old(self).shape.vocab_size,
        ensures
            final(self).wf(),
            match result {
                Ok(steps) => {
                    &&& position_fault(old(self).shape.seq_len, old(self).next_pos, pos) is None
                    &&& steps@ == pass(old(self).shape, token as nat, pos as nat, compute_logits)
                    &&& *final(self) == old(self).laid_out(pos)
                },
                Err(fault) => {
                    &&& position_fault(old(self).shape.seq_len, old(self).next_pos, pos) == Some(fault)
                    &&& *final(self) == *old(self)
                },
            },
    {
        let shape: Shape = self.shape;
        if pos >= shape.seq_len {
            return Err(PositionFault::OutOfContext { pos, seq_len: shape.seq_len });
        }
        if pos != self.next_pos {
            return Err(PositionFault::OutOfOrder { pos, expected: self.next_pos });
        }
        let steps = lay_out(&shape, token, pos, compute_logits);
        self.next_pos = pos + 1;
        Ok(steps)
    }

    /// What a pass gives: the logits where they were computed, else nothing.
    pub fn given_logits(&self, computed: bool) -> (given: &[T])
        requires
            self.wf(),
        ensures
            given@ == if computed {
                self.logits@
            } else {
                Seq::<T>::empty()
            },
            given@.len() == if computed {
                self.shape.vocab_size as nat
            } else {
                0
            },
    {
        if computed {
            self.logits.as_slice()
        } else {
            let none: &[T] = slice_subrange(self.logits.as_slice(), 0, 0);
            assert(none@ =~= Seq::<T>::empty());
            none
        }
    }

    /// The steps that process a token at a position and give the logits.
    pub fn forward(&mut self, token: usize, pos: usize) -> (result: Result<Vec<Step>, PositionFault>)
        requires
            old(self).wf(),
            token < old(self).shape.vocab_size,
        ensures
            final(self).wf(),
            match result {
                Ok(steps) => {
                    &&& position_fault(old(self).shape.seq_len, old(self).next_pos, pos) is None
                    &&& steps@ == pass(old(self).shape, token as nat, pos as nat, true)
                    &&& *final(self) == old(self).laid_out(pos)
                },
                Err(fault) => {
                    &&& position_fault(old(self).shape.seq_len, old(self).next_pos, pos) == Some(fault)
                    &&& *final(self) == *old(self)
                },
            },
    {
        self.forward_internal(token, pos, true)
    }

    /// The steps that process a whole prompt from the first position on, pass by pass. Only the
    /// last pass gives logits. Without tokens nothing happens.
    pub fn prefill_impl(&mut self, tokens: &[usize]) -> (result: Result<Vec<Vec<Step>>, PositionFault>)
        requires
            old(self).wf(),
            forall|k: int| 0 <= k < tokens@.len() ==> #[trigger] tokens@[k] < old(self).shape.vocab_size,
        ensures
            final(self).wf(),
            final(self).same_model(*old(self)),
            final(self).buffers == old(self).buffers,
            final(self).logits == old(self).logits,
            match result {
                Ok(passes) => {
                    &&& tokens@.len() <= old(self).shape.seq_len
                    &&& passes@.len() == tokens@.len()
                    &&& forall|k: int|
                        0 <= k < tokens@.len() ==> (#[trigger] passes@[k])@ == prompt_passes(
                            old(self).shape,
                            tokens@,
                        )[k]
                    &&& if tokens@.len() == 0 {
                        *final(self) == *old(self)
                    } else {
                        &&& final(self).caches@ == CacheState::fresh(old(self).shape, old(self).zero)
                        &&& final(self).next_pos == tokens@.len()
                    }
                },
                Err(fault) => {
                    let seq_len = old(self).shape.seq_len;
                    &&& tokens@.len() > seq_len
                    &&& fault == (PositionFault::OutOfContext { pos: seq_len, seq_len })
                    &&& *final(self) == *old(self)
                },
            },
    {
        let mut passes: Vec<Vec<Step>> = Vec::new();
        let seq_len: usize = self.shape.seq_len;
        if tokens.len() == 0 {
            return Ok(passes);
        }
        if tokens.len() > seq_len {
            return Err(PositionFault::OutOfContext { pos: seq_len, seq_len });
        }
        self.reset_cache_impl();
        let last: usize = tokens.len() - 1;
        for k in 0..tokens.len()
            invariant
                last == tokens@.len() - 1,
                tokens@.len() <= self.shape.seq_len,
                self.wf(),
                self.same_model(*old(self)),
                self.buffers == old(self).buffers,
                self.logits == old(self).logits,
                self.caches@ == CacheState::fresh(old(self).shape, old(self).zero),
                self.next_pos == k,
                forall|i: int| 0 <= i < tokens@.len() ==> #[trigger] tokens@[i] < old(self).shape.vocab_size,
                passes@.len() == k,
                forall|i: int|
                    0 <= i < k ==> (#[trigger] passes@[i])@ == pass(
                        old(self).shape,
                        tokens@[i] as nat,
                        i as nat,
                        i == tokens@.len() - 1,
                    ),
        {
            match self.forward_internal(tokens[k], k, k == last) {
                Ok(steps) => passes.push(steps),
                Err(fault) => {
                    return Err(fault);
                },
            }
        }
        Ok(passes)
    }
}

/// The steps of a forward pass.
fn lay_out(shape: &Shape, token: usize, pos: usize, compute_logits: bool) -> (steps: Vec<Step>)
    requires
        shape::consistent(*shape),
        space_fits(*shape),
        pos < shape.seq_len,
    ensures
        steps@ == pass(*shape, token as nat, pos as nat, compute_logits),
{
    let mut steps: Vec<Step> = vec![Step::SelectRow { row: token }];
    let mut full: usize = 0;
    assert(steps@ =~= steps_before_layer(*shape, token as nat, pos as nat, 0));
    for i in 0..shape.n_layers
        invariant
            shape::consistent(*shape),
            space_fits(*shape),
            pos < shape.seq_len,
            full == mask::full_before(shape.full_attention_mask, i as int),
            full <= i,
            steps@ == steps_before_layer(*shape, token as nat, pos as nat, i as nat),
    {
        let ghost before = steps@;
        let attention: u64 = shape.full_attention_mask;
        proof {
            mask::lemma_counts_grow(attention, i as int, shape.n_layers as int);
        }
        steps.push(Step::InputNorm { layer: i });
        if mask::has_full_attention(attention, i) {
            let kv_offset: usize = kv_offset(shape, full, pos);
            steps.push(Step::FullAttention { layer: i, slot: full, pos, kv_offset });
            full += 1;
        } else {
            steps.push(Step::DeltaNet { layer: i, slot: i - full, pos });
        }
        steps.push(Step::AddAttention);
        steps.push(Step::PostAttentionNorm { layer: i });
        steps.push(Step::FeedForward { layer: i });
        steps.push(Step::AddFeedForward);
        assert(steps@ =~= before + layer_steps(*shape, i as int, pos as nat));
    }
    steps.push(Step::FinalNorm);
    if compute_logits {
        steps.push(Step::Logits);
    }
    assert(steps@ =~= pass(*shape, token as nat, pos as nat, compute_logits));
    steps
}

/// Where the keys and values of a position belong in the caches.
fn kv_offset(shape: &Shape, slot: usize, pos: usize) -> (offset: usize)
    requires
        shape::consistent(*shape),
        cache::caches_fit(*shape),
        slot < shape.n_full,
        pos < shape.seq_len,
    ensures
        offset == cache::kv_place(shape.seq_len as nat, shape.kv_dim as nat, slot as nat, pos as nat),
{
    proof {
        cache::lemma_kv_parts(
            shape.n_full as nat,
            shape.seq_len as nat,
            shape.kv_dim as nat,
            slot as nat,
            pos as nat,
        );
        assert(shape.kv_dim > 0) by (nonlinear_arith)
            requires
                shape.kv_dim == shape.n_kv_heads as nat * shape.head_dim as nat,
                shape.n_kv_heads > 0,
                shape.head_dim > 0,
        ;
    }
    slot * shape.seq_len * shape.kv_dim + pos * shape.kv_dim
}

proof fn lemma_steps_of_layer(shape: Shape, token: nat, pos: nat, n: nat, i: int)
    requires
        0 <= i < n,
    ensures
        steps_before_layer(shape, token, pos, n).len() == 1 + 6 * n,
        steps_before_layer(shape, token, pos, n)[0] == (Step::SelectRow { row: token as usize }),
        forall|c: int|
            0 <= c < 6 ==> steps_before_layer(shape, token, pos, n)[1 + 6 * i + c] == #[trigger] layer_steps(
                shape,
                i,
                pos,
            )[c],
    decreases n,
{
    let before = steps_before_layer(shape, token, pos, (n - 1) as nat);
    if n > 1 {
        lemma_steps_of_layer(
            shape,
            token,
            pos,
            (n - 1) as nat,
            if i < n - 1 {
                i
            } else {
                0
            },
        );
    }
    assert forall|c: int| 0 <= c < 6 implies steps_before_layer(shape, token, pos, n)[1 + 6 * i + c]
        == #[trigger] layer_steps(shape, i, pos)[c] by {
        if i < n - 1 {
            assert(before[1 + 6 * i + c] == layer_steps(shape, i, pos)[c]);
        }
    }
}

/// A pass begins with the row of its token, goes through all layers in their order, and ends with
/// the last norm, and with the logits where they are asked for. In each layer its own norm comes
/// before the mixer, its own second norm before its feed-forward part, and each part is added.
pub proof fn law_pass_goes_through_the_layers(shape: Shape, token: usize, pos: usize, compute_logits: bool, i: int)
    requires
        0 <= i < shape.n_layers <= mask::MAX_LAYERS,
    ensures
        ({
            let steps = pass(shape, token as nat, pos as nat, compute_logits);
            let n = shape.n_layers;
            &&& steps.len() == 6 * n + if compute_logits {
                3int
            } else {
                2int
            }
            &&& steps[0] == (Step::SelectRow { row: token })
            &&& steps[6 * i + 1] == (Step::InputNorm { layer: i as usize })
            &&& match steps[6 * i + 2] {
                Step::FullAttention { layer, pos: at, .. } => {
                    layer == i && at == pos && (shape.full_attention_mask as nat / pow2(i as nat)) % 2 == 1
                },
                Step::DeltaNet { layer, pos: at, .. } => {
                    layer == i && at == pos && (shape.full_attention_mask as nat / pow2(i as nat)) % 2 == 0
                },
                _ => false,
            }
            &&& steps[6 * i + 3] == Step::AddAttention
            &&& steps[6 * i + 4] == (Step::PostAttentionNorm { layer: i as usize })
            &&& steps[6 * i + 5] == (Step::FeedForward { layer: i as usize })
            &&& steps[6 * i + 6] == Step::AddFeedForward
            &&& steps[6 * n + 1] == Step::FinalNorm
            &&& compute_logits ==> steps[6 * n + 2] == Step::Logits
        }),
{
    let n = shape.n_layers as nat;
    lemma_steps_of_layer(shape, token as nat, pos as nat, n, i);
    mask::law_bits_are_binary_digits(shape.full_attention_mask, i);
    let before = steps_before_layer(shape, token as nat, pos as nat, n);
    let layer = layer_steps(shape, i, pos as nat);
    assert(before[1 + 6 * i] == layer[0]);
    assert(before[1 + 6 * i + 1] == layer[1]);
    assert(before[1 + 6 * i + 2] == layer[2]);
    assert(before[1 + 6 * i + 3] == layer[3]);
    assert(before[1 + 6 * i + 4] == layer[4]);
    assert(before[1 + 6 * i + 5] == layer[5]);
}

/// The mixers of a pass are those of the layers, in order.
proof fn lemma_mixers(shape: Shape, token: usize, pos: usize, compute_logits: bool, k: int) -> (i: int)
    requires
        shape.n_layers <= mask::MAX_LAYERS,
        0 <= k < pass(shape, token as nat, pos as nat, compute_logits).len(),
        leaves_traces(pass(shape, token as nat, pos as nat, compute_logits)[k]),
    ensures
        0 <= i < shape.n_layers,
        k == 6 * i + 2,
        pass(shape, token as nat, pos as nat, compute_logits)[k] == mixer_step(shape, i, pos as nat),
{
    let n = shape.n_layers as nat;
    let steps = pass(shape, token as nat, pos as nat, compute_logits);
    if n == 0 {
        assert(steps[0] == steps_before_layer(shape, token as nat, pos as nat, 0)[0]);
        0
    } else {
        law_pass_goes_through_the_layers(shape, token, pos, compute_logits, 0);
        let i = (k - 1) / 6;
        let c = (k - 1) % 6;
        if 0 < k < 6 * n + 1 {
            law_pass_goes_through_the_layers(shape, token, pos, compute_logits, i);
            lemma_steps_of_layer(shape, token as nat, pos as nat, n, i);
            let before = steps_before_layer(shape, token as nat, pos as nat, n);
            assert(before[1 + 6 * i + c] == layer_steps(shape, i, pos as nat)[c]);
            assert(layer_steps(shape, i, pos as nat)[1] == mixer_step(shape, i, pos as nat));
        }
        i
    }
}

/// Every mixer step of a pass works on what belongs to its layer: the layer of the loaded model is of
/// its kind, its slot is one of the slots of this kind, for linear attention the very one that the
/// model has for the layer, its position is that of the pass, and its keys and values have their
/// place within the caches.
pub proof fn law_mixers_work_on_their_own_layer(
    weights: Weights,
    shape: Shape,
    base: nat,
    token: usize,
    pos: usize,
    compute_logits: bool,
    k: int,
)
    requires
        shape::consistent(shape),
        space_fits(shape),
        weights.placed(shape, base),
        pos < shape.seq_len,
        0 <= k < pass(shape, token as nat, pos as nat, compute_logits).len(),
    ensures
        match pass(shape, token as nat, pos as nat, compute_logits)[k] {
            Step::DeltaNet { layer, slot, pos: at } => {
                &&& layer < shape.n_layers
                &&& weights.layers@[layer as int].mixer is DeltaNet
                &&& weights.linear_layer_map@[layer as int] == Some(slot)
                &&& slot < shape.n_linear
                &&& at == pos
            },
            Step::FullAttention { layer, slot, pos: at, kv_offset } => {
                &&& layer < shape.n_layers
                &&& weights.layers@[layer as int].mixer is FullAttention
                &&& weights.linear_layer_map@[layer as int] is None
                &&& slot < shape.n_full
                &&& at == pos
                &&& kv_offset == (slot * shape.seq_len + pos) * shape.kv_dim
                &&& kv_offset + shape.kv_dim <= shape.n_full as nat * shape.seq_len as nat * shape.kv_dim as nat
            },
            _ => true,
        },
{
    let step = pass(shape, token as nat, pos as nat, compute_logits)[k];
    if leaves_traces(step) {
        let i = lemma_mixers(shape, token, pos, compute_logits, k);
        let attention = shape.full_attention_mask;
        mask::lemma_counts_grow(attention, i, shape.n_layers as int);
        mask::law_counts_are_of_layers(attention, i);
        mask::law_counts_are_of_layers(attention, shape.n_layers as int);
        if mask::is_full(attention, i) {
            let slot = mask::full_before(attention, i);
            cache::lemma_kv_parts(
                shape.n_full as nat,
                shape.seq_len as nat,
                shape.kv_dim as nat,
                slot,
                pos as nat,
            );
            assert((slot * shape.seq_len + pos) * shape.kv_dim == slot * shape.seq_len * shape.kv_dim + pos
                * shape.kv_dim) by (nonlinear_arith);
        }
    }
}

/// In any two passes, of one position or of two, mixer steps of different layers of one kind have
/// different slots, in the order of the layers, and steps of one layer have one slot. Keys and values
/// of different layers or positions have places that do not overlap, and those of one layer lie in
/// the order of their positions.
pub proof fn law_layers_do_not_share_slots(
    shape: Shape,
    token: usize,
    pos: usize,
    compute_logits: bool,
    k: int,
    other_token: usize,
    other_pos: usize,
    other_logits: bool,
    l: int,
)
    requires
        shape::consistent(shape),
        space_fits(shape),
        pos < shape.seq_len,
        other_pos < shape.seq_len,
        0 <= k < pass(shape, token as nat, pos as nat, compute_logits).len(),
        0 <= l < pass(shape, other_token as nat, other_pos as nat, other_logits).len(),
    ensures
        match (
            pass(shape, token as nat, pos as nat, compute_logits)[k],
            pass(shape, other_token as nat, other_pos as nat, other_logits)[l],
        ) {
            (Step::DeltaNet { layer: a, slot: s, .. }, Step::DeltaNet { layer: b, slot: t, .. }) => {
                &&& a < b <==> s < t
                &&& a == b <==> s == t
                &&& s < shape.n_linear
                &&& t < shape.n_linear
                &&& k < l <==> a < b
            },
            (
                Step::FullAttention { layer: a, slot: s, kv_offset: x, .. },
                Step::FullAttention { layer: b, slot: t, kv_offset: y, .. },
            ) => {
                &&& a < b <==> s < t
                &&& a == b <==> s == t
                &&& k < l <==> a < b
                &&& a < b || (a == b && pos < other_pos) ==> x + shape.kv_dim <= y
                &&& a == b ==> y - x == (other_pos - pos) * shape.kv_dim
            },
            _ => true,
        },
{
    let first = pass(shape, token as nat, pos as nat, compute_logits)[k];
    let second = pass(shape, other_token as nat, other_pos as nat, other_logits)[l];
    if leaves_traces(first) && leaves_traces(second) {
        let i = lemma_mixers(shape, token, pos, compute_logits, k);
        let j = lemma_mixers(shape, other_token, other_pos, other_logits, l);
        let attention = shape.full_attention_mask;
        let n = shape.n_layers as int;
        mask::lemma_counts_grow(attention, i, n);
        mask::lemma_counts_grow(attention, j, n);
        mask::law_counts_are_of_layers(attention, i);
        mask::law_counts_are_of_layers(attention, j);
        mask::law_counts_are_of_layers(attention, n);
        if i < j {
            mask::law_layers_of_a_kind_have_their_own_numbers(attention, i, j, n);
        } else if j < i {
            mask::law_layers_of_a_kind_have_their_own_numbers(attention, j, i, n);
        }
        if mask::is_full(attention, i) && mask::is_full(attention, j) {
            let s = mask::full_before(attention, i);
            let t = mask::full_before(attention, j);
            let seq_len = shape.seq_len as nat;
            let kv_dim = shape.kv_dim as nat;
            cache::law_kv_places_apart(shape.n_full as nat, seq_len, kv_dim, s, pos as nat, t, other_pos as nat);
            cache::law_kv_places_apart(shape.n_full as nat, seq_len, kv_dim, t, other_pos as nat, s, pos as nat);
            cache::lemma_kv_order(seq_len, kv_dim, s, pos as nat, t, other_pos as nat);
            assert((other_pos - pos) * kv_dim == other_pos * kv_dim - pos * kv_dim) by (nonlinear_arith);
        }
    }
}

/// A prompt is processed token by token in its order: pass `k` takes token `k` to position `k`, in
/// all of its mixers, and only the pass of the last token gives logits. But for these, the passes are
/// those that the tokens take one by one, so the caches come to hold the same.
pub proof fn law_prompt_is_processed_in_order(shape: Shape, tokens: Seq<usize>, k: int, i: int)
    requires
        0 <= k < tokens.len() <= usize::MAX,
        0 <= i < shape.n_layers <= mask::MAX_LAYERS,
    ensures
        ({
            let passes = prompt_passes(shape, tokens);
            let steps = passes[k];
            &&& passes.len() == tokens.len()
            &&& steps[0] == (Step::SelectRow { row: tokens[k] })
            &&& match steps[6 * i + 2] {
                Step::FullAttention { layer, pos, .. } => layer == i && pos == k,
                Step::DeltaNet { layer, pos, .. } => layer == i && pos == k,
                _ => false,
            }
            &&& steps.last() == Step::Logits <==> k == tokens.len() - 1
            &&& traces(steps) == traces(pass(shape, tokens[k] as nat, k as nat, true))
        }),
{
    let last = k == tokens.len() - 1;
    law_pass_goes_through_the_layers(shape, tokens[k], k as usize, last, i);
    law_logits_leave_no_traces(shape, tokens[k] as nat, k as nat);
}

/// A position can be processed exactly where it is the next one and lies within the context window;
/// else the fault says which of the two it is not, with the numbers.
pub proof fn law_positions_come_in_order(seq_len: usize, next_pos: usize, pos: usize)
    ensures
        position_fault(seq_len, next_pos, pos) is None <==> pos == next_pos && next_pos < seq_len,
        position_fault(seq_len, next_pos, pos) matches Some(PositionFault::OutOfContext { pos: p, seq_len: n }) ==> p
            == pos && n == seq_len && pos >= seq_len,
        position_fault(seq_len, next_pos, pos) matches Some(PositionFault::OutOfOrder { pos: p, expected }) ==> p
            == pos && expected == next_pos && pos != next_pos && pos < seq_len,
{
}

/// A model can be loaded exactly where its configuration is accepted, its weights are no longer than
/// what is there, and working space and caches fit into the machine.
pub proof fn law_what_models_can_be_loaded(config: ModelConfig, available: nat)
    ensures
        load_fault(config, available) is None <==> {
            &&& shape::shape_of(config) matches Ok(shape)
            &&& stream::total_bytes(weights::weight_stream(shape)) <= available
            &&& 2 * shape.n_heads * shape.head_dim <= usize::MAX
            &&& shape.n_heads * shape.seq_len <= usize::MAX
            &&& shape.n_full * shape.seq_len * shape.kv_dim <= usize::MAX
            &&& shape.linear_qkv_dim * shape.conv_kernel_size <= usize::MAX
            &&& shape.n_linear_v_heads * shape.linear_k_head_dim * shape.linear_v_head_dim <= usize::MAX
        },
        shape::shape_of(config) matches Err(fault) ==> load_fault(config, available) == Some(fault),
        load_fault(config, available) matches Some(LoadFault::Read(label)) ==> {
            &&& shape::shape_of(config) matches Ok(shape)
            &&& exists|k: int|
                {
                    &&& 0 <= k < weights::weight_stream(shape).len()
                    &&& label == (#[trigger] weights::weight_stream(shape)[k]).label
                    &&& stream::total_bytes(weights::weight_stream(shape).take(k)) <= available
                    &&& available < stream::total_bytes(weights::weight_stream(shape).take(k + 1))
                }
        },
        shape::shape_of(config) matches Ok(shape) ==> (stream::total_bytes(weights::weight_stream(shape)) > available
            <==> load_fault(config, available) matches Some(LoadFault::Read(_))),
{
    shape::law_model_faults_are_so(config);
    if let Ok(shape) = shape::shape_of(config) {
        let all = weights::weight_stream(shape);
        let k = stream::law_streams_fit_by_their_length(all, available);
        shape::law_accepted_is_consistent(config, shape);
        assert(shape.n_kv_heads as nat * shape.head_dim as nat <= usize::MAX);
        if stream::first_unfit(all, available) is Some {
            assert(0 <= k < all.len() && all[k].label == stream::first_unfit(all, available)->Some_0);
        }
    }
}

/// Working space has room for what a pass puts there: the residual stream, the inner width of the
/// feed-forward part, queries and gates of all heads, keys and values of all heads that have them,
/// scores of all heads for all positions, and what linear attention projects onto. It holds nothing
/// but zeros.
pub proof fn law_working_space_has_room<T>(
    buffers: TransformerBuffers<T>,
    dim: nat,
    hidden_dim: nat,
    n_heads: nat,
    n_kv_heads: nat,
    head_dim: nat,
    qkv_dim: nat,
    n_linear_v_heads: nat,
    seq_len: nat,
    group_size: nat,
    zero: T,
)
    requires
        group_size > 0,
        buffers.blank(
            dim,
            hidden_dim,
            n_heads,
            n_kv_heads,
            head_dim,
            qkv_dim,
            n_linear_v_heads,
            seq_len,
            group_size,
            zero,
        ),
    ensures
        buffers.x@.len() == dim,
        buffers.x_normed@.len() == dim,
        buffers.xb_normed@.len() == dim,
        buffers.xq.q@.len() == dim,
        buffers.xq.s@.len() == dim / group_size,
        buffers.hb@.len() == hidden_dim,
        buffers.hb2@.len() == hidden_dim,
        buffers.hq.q@.len() == hidden_dim,
        buffers.hq.s@.len() == hidden_dim / group_size,
        buffers.q_buf@.len() == 2 * n_heads * head_dim,
        buffers.k_buf@.len() == n_kv_heads * head_dim,
        buffers.v_buf@.len() == n_kv_heads * head_dim,
        buffers.att_buf@.len() == n_heads * seq_len,
        buffers.z_buf@.len() == dim,
        buffers.qkv_buf@.len() == qkv_dim,
        buffers.a_buf@.len() == n_linear_v_heads,
        buffers.b_buf@.len() == n_linear_v_heads,
        buffers.conv_out@.len() == qkv_dim,
        buffers.ffn_out@.len() == dim,
        forall|k: int| 0 <= k < dim ==> #[trigger] buffers.x@[k] == zero,
        forall|k: int| 0 <= k < n_heads * seq_len ==> #[trigger] buffers.att_buf@[k] == zero,
{
}

/// A pass takes the model one position further and leaves everything else of it alone, so the
/// position behind it is the only one that can be processed next.
pub proof fn law_pass_takes_one_position<T>(model: Qwen3_5Transformer<T>, pos: usize, next: usize)
    requires
        pos < model.shape.seq_len,
    ensures
        position_fault(model.shape.seq_len, model.laid_out(pos).next_pos, next) is None <==> next == pos + 1 && pos + 1
            < model.shape.seq_len,
        model.laid_out(pos).same_model(model),
        model.laid_out(pos).caches == model.caches,
        model.laid_out(pos).buffers == model.buffers,
        model.laid_out(pos).logits == model.logits,
{
}

} // verus!
