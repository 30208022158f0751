//! What a checkpoint of a Qwen3.5 model is made of.

use super::architecture::{Architecture, ArchitectureId, HeaderInfo, HeaderInfoV2, NormWeightLayer, WeightLayer};
use super::config_loader::{ModelConfig, Qwen35Config};
use crate::mask;
use crate::text;
use vstd::prelude::*;
use vstd::string::*;

verus! {

/// The parts of the attention of a layer with full attention.
pub open spec fn full_attention_parts() -> Seq<&'static str> {
    seq!["self_attn.q_proj", "self_attn.k_proj", "self_attn.v_proj", "self_attn.o_proj"]
}

/// The parts of the attention of a layer with linear attention that stay in single precision.
pub open spec fn delta_parts() -> Seq<&'static str> {
    seq!["linear_attn.A_log", "linear_attn.dt_bias", "linear_attn.conv1d"]
}

/// The quantized parts of the attention of a layer with linear attention.
pub open spec fn linear_attention_parts() -> Seq<&'static str> {
    seq![
        "linear_attn.in_proj_qkv",
        "linear_attn.in_proj_z",
        "linear_attn.in_proj_b",
        "linear_attn.in_proj_a",
        "linear_attn.out_proj",
    ]
}

/// The parts of the feed-forward network of a layer.
pub open spec fn mlp_parts() -> Seq<&'static str> {
    seq!["mlp.gate_proj", "mlp.down_proj", "mlp.up_proj"]
}

/// What a list of weights says of one part of a layer.
pub struct Part {
    pub tensor_name: Seq<char>,
    pub component: Seq<char>,
    pub layer_idx: u32,
    pub is_fp32: bool,
}

impl<'a> View for WeightLayer<'a> {
    type V = Part;

    open spec fn view(&self) -> Part {
        Part {
            tensor_name: self.tensor_name@,
            component: self.component@,
            layer_idx: self.layer_idx,
            is_fp32: self.is_fp32,
        }
    }
}

/// What a list of weights says.
pub open spec fn parts<'a>(layers: Seq<WeightLayer<'a>>) -> Seq<Part> {
    Seq::new(layers.len(), |k: int| layers[k]@)
}

/// The name of a tensor of layer `i`. Two of the parts in single precision have no suffix.
pub open spec fn tensor_name(i: u32, component: Seq<char>) -> Seq<char> {
    let suffix = if component == "linear_attn.A_log"@ || component == "linear_attn.dt_bias"@ {
        ""@
    } else {
        ".weight"@
    };
    "model.language_model.layers."@ + text::decimal(i as nat) + "."@ + component + suffix
}

/// The given parts of layer `i`.
pub open spec fn named_parts(i: u32, components: Seq<&'static str>, is_fp32: bool) -> Seq<Part> {
    Seq::new(
        components.len(),
        |k: int|
            Part {
                tensor_name: tensor_name(i, components[k]@),
                component: components[k]@,
                layer_idx: i,
                is_fp32,
            },
    )
}

/// The weights of layer `i`.
pub open spec fn layer_parts(full_attention_mask: u64, i: u32) -> Seq<Part> {
    let attention = if mask::is_full(full_attention_mask, i as int) {
        named_parts(i, full_attention_parts(), false)
    } else {
        named_parts(i, delta_parts(), true) + named_parts(i, linear_attention_parts(), false)
    };
    attention + named_parts(i, mlp_parts(), false)
}

/// The weights of the first `n` layers.
pub open spec fn parts_before_layer(full_attention_mask: u64, n: nat) -> Seq<Part>
    decreases n,
{
    if n == 0 {
        seq![]
    } else {
        parts_before_layer(full_attention_mask, (n - 1) as nat) + layer_parts(full_attention_mask, (n - 1) as u32)
    }
}

/// The norm weights.
pub open spec fn norm_list(head_dim: u32, linear_v_head_dim: u32) -> Seq<NormWeightLayer<'static>> {
    let norm = |name: &'static str, layered: bool, is_required: bool, default_dim: u32|
        NormWeightLayer { name, layered, is_required, default_dim };
    seq![
        norm("model.language_model.layers.{}.input_layernorm.weight", true, true, 0),
        norm("model.language_model.layers.{}.post_attention_layernorm.weight", true, true, 0),
        norm("model.language_model.norm.weight", false, true, 0),
        norm("model.language_model.layers.{}.self_attn.q_norm.weight", true, false, head_dim),
        norm("model.language_model.layers.{}.self_attn.k_norm.weight", true, false, head_dim),
        norm("model.language_model.layers.{}.linear_attn.norm.weight", true, false, linear_v_head_dim),
    ]
}

/// The extension of the header.
pub open spec fn extension(config: ModelConfig, extended: Qwen35Config) -> HeaderInfoV2 {
    HeaderInfoV2 {
        norm_eps: config.norm_eps,
        n_linear_k_heads: extended.n_linear_k_heads,
        n_linear_v_heads: extended.n_linear_v_heads,
        linear_k_head_dim: extended.linear_k_head_dim,
        linear_v_head_dim: extended.linear_v_head_dim,
        conv_kernel_size: extended.conv_kernel_size,
        rope_theta: extended.rope_theta,
        rotary_dim: extended.rotary_dim,
        full_attention_mask: extended.full_attention_mask,
        model_eos: config.eos_token_id,
        chat_eos: extended.chat_eos,
    }
}

/// What a checkpoint of a Qwen3.5 model is made of.
#[derive(Debug)]
pub struct Qwen3_5 {
    pub weight_layers: Vec<WeightLayer<'static>>,
    pub header_v2: HeaderInfoV2,
    pub norm_layers: Vec<NormWeightLayer<'static>>,
}

impl Qwen3_5 {
    /// Whether this is what the checkpoint of a model with the given configuration is made of.
    pub open spec fn describes(self, config: ModelConfig) -> bool {
        let extended = config.qwen35->0;
        &&& parts(self.weight_layers@) == parts_before_layer(extended.full_attention_mask, config.n_layers as nat)
        &&& self.norm_layers@ == norm_list(config.head_dim, extended.linear_v_head_dim)
        &&& self.header_v2 == extension(config, extended)
    }
}

fn full_name(i: u32, component: &str, suffix: &str) -> (name: String)
    ensures
        name@ == "model.language_model.layers."@ + text::decimal(i as nat) + "."@ + component@ + suffix@,
{
    let mut name = "model.language_model.layers.".to_owned();
    text::push_decimal(&mut name, i as u64);
    name.append(".");
    name.append(component);
    name.append(suffix);
    name
}

fn push_parts(layers: &mut Vec<WeightLayer<'static>>, i: u32, components: &Vec<&'static str>, is_fp32: bool)
    ensures
        parts(final(layers)@) == parts(old(layers)@) + named_parts(i, components@, is_fp32),
{
    for k in 0..components.len()
        invariant
            parts(layers@) == parts(old(layers)@) + named_parts(i, components@.take(k as int), is_fp32),
    {
        let component: &'static str = components[k];
        let bare = text::same_text(component, "linear_attn.A_log") || text::same_text(component, "linear_attn.dt_bias");
        let name = full_name(i, component, if bare { "" } else { ".weight" });
        let ghost before = layers@;
        if is_fp32 {
            layers.push(WeightLayer::new_fp32(name, component, i));
        } else {
            layers.push(WeightLayer::new(name, component, i));
        }
        proof {
            let upto = components@.take(k + 1);
            assert(parts(layers@) =~= parts(before).push(layers@.last()@));
            assert(named_parts(i, upto, is_fp32) =~= named_parts(i, components@.take(k as int), is_fp32).push(
                layers@.last()@,
            ));
            assert(parts(layers@) =~= parts(old(layers)@) + named_parts(i, upto, is_fp32));
        }
    }
    assert(components@.take(components@.len() as int) =~= components@);
}

impl Qwen3_5 {
    /// What the checkpoint of a model with the given configuration is made of.
    pub fn new(config: ModelConfig) -> (architecture: Self)
        requires
            config.qwen35 is Some,
            config.n_layers <= mask::MAX_LAYERS,
        ensures
            architecture.describes(config),
    {
        let extended: Qwen35Config = config.qwen35.unwrap();
        let full_parts: Vec<&'static str> = vec![
            "self_attn.q_proj",
            "self_attn.k_proj",
            "self_attn.v_proj",
            "self_attn.o_proj",
        ];
        let single_parts: Vec<&'static str> = vec!["linear_attn.A_log", "linear_attn.dt_bias", "linear_attn.conv1d"];
        let linear_parts: Vec<&'static str> = vec![
            "linear_attn.in_proj_qkv",
            "linear_attn.in_proj_z",
            "linear_attn.in_proj_b",
            "linear_attn.in_proj_a",
            "linear_attn.out_proj",
        ];
        let feed_forward: Vec<&'static str> = vec!["mlp.gate_proj", "mlp.down_proj", "mlp.up_proj"];
        let full_attention_mask: u64 = extended.full_attention_mask;
        let mut weight_layers: Vec<WeightLayer<'static>> = Vec::new();
        for i in 0..config.n_layers
            invariant
                config.n_layers <= mask::MAX_LAYERS,
                full_parts@ == full_attention_parts(),
                single_parts@ == delta_parts(),
                linear_parts@ == linear_attention_parts(),
                feed_forward@ == mlp_parts(),
                parts(weight_layers@) == parts_before_layer(full_attention_mask, i as nat),
        {
            let ghost before = parts(weight_layers@);
            if mask::has_full_attention(full_attention_mask, i as usize) {
                push_parts(&mut weight_layers, i, &full_parts, false);
            } else {
                push_parts(&mut weight_layers, i, &single_parts, true);
                push_parts(&mut weight_layers, i, &linear_parts, false);
            }
            push_parts(&mut weight_layers, i, &feed_forward, false);
            assert(parts(weight_layers@) =~= before + layer_parts(full_attention_mask, i));
        }
        let norm_layers: Vec<NormWeightLayer<'static>> = vec![
            NormWeightLayer::new("model.language_model.layers.{}.input_layernorm.weight", true, true),
            NormWeightLayer::new("model.language_model.layers.{}.post_attention_layernorm.weight", true, true),
            NormWeightLayer::new("model.language_model.norm.weight", false, true),
            NormWeightLayer::new_with_dim(
                "model.language_model.layers.{}.self_attn.q_norm.weight",
                true,
                false,
                config.head_dim,
            ),
            NormWeightLayer::new_with_dim(
                "model.language_model.layers.{}.self_attn.k_norm.weight",
                true,
                false,
                config.head_dim,
            ),
            NormWeightLayer::new_with_dim(
                "model.language_model.layers.{}.linear_attn.norm.weight",
                true,
                false,
                extended.linear_v_head_dim,
            ),
        ];
        assert(norm_layers@ =~= norm_list(config.head_dim, extended.linear_v_head_dim));
        let header_v2 = HeaderInfoV2 {
            norm_eps: config.norm_eps,
            n_linear_k_heads: extended.n_linear_k_heads,
            n_linear_v_heads: extended.n_linear_v_heads,
            linear_k_head_dim: extended.linear_k_head_dim,
            linear_v_head_dim: extended.linear_v_head_dim,
            conv_kernel_size: extended.conv_kernel_size,
            rope_theta: extended.rope_theta,
            rotary_dim: extended.rotary_dim,
            full_attention_mask: extended.full_attention_mask,
            model_eos: config.eos_token_id,
            chat_eos: extended.chat_eos,
        };
        Qwen3_5 { weight_layers, header_v2, norm_layers }
    }
}

impl Architecture for Qwen3_5 {
    fn id(&self) -> (id: ArchitectureId)
        ensures
            id == ArchitectureId::Qwen3_5ForConditionalGeneration,
    {
        ArchitectureId::Qwen3_5ForConditionalGeneration
    }

    fn name(&self) -> (name: &'static str)
        ensures
            name@ == "Qwen3_5ForConditionalGeneration"@,
    {
        "Qwen3_5ForConditionalGeneration"
    }

    fn header(&self) -> (header: Result<HeaderInfo, String>)
        ensures
            header == Ok::<HeaderInfo, String>(
                HeaderInfo { architecture_id: 3, shared_classifier: true, v2: Some(self.header_v2) },
            ),
    {
        Ok(HeaderInfo { architecture_id: self.id().code(), shared_classifier: true, v2: Some(self.header_v2) })
    }

    fn norm_weight_layers(&self) -> (layers: &[NormWeightLayer<'_>])
        ensures
            layers@ == self.norm_layers@,
    {
        self.norm_layers.as_slice()
    }

    fn embed_tokens_layer(&self) -> (name: &'static str)
        ensures
            name@ == "model.language_model.embed_tokens.weight"@,
    {
        "model.language_model.embed_tokens.weight"
    }

    fn lm_head_layer(&self) -> (name: &'static str)
        ensures
            name@ == "lm_head.weight"@,
    {
        "lm_head.weight"
    }

    fn weight_layers(&self) -> (layers: &[WeightLayer<'_>])
        ensures
            layers@ == self.weight_layers@,
    {
        self.weight_layers.as_slice()
    }
}

/// Where the weights of layer `i` begin in the list: seven for each layer with full attention before
/// it, and eleven for each with linear attention.
pub open spec fn first_part(full_attention_mask: u64, i: int) -> int {
    7 * mask::full_before(full_attention_mask, i) as int + 11 * mask::linear_before(full_attention_mask, i) as int
}

/// The components of a layer in the order of a checkpoint.
pub open spec fn components(full: bool) -> Seq<Seq<char>> {
    if full {
        seq![
            "self_attn.q_proj"@,
            "self_attn.k_proj"@,
            "self_attn.v_proj"@,
            "self_attn.o_proj"@,
            "mlp.gate_proj"@,
            "mlp.down_proj"@,
            "mlp.up_proj"@,
        ]
    } else {
        seq![
            "linear_attn.A_log"@,
            "linear_attn.dt_bias"@,
            "linear_attn.conv1d"@,
            "linear_attn.in_proj_qkv"@,
            "linear_attn.in_proj_z"@,
            "linear_attn.in_proj_b"@,
            "linear_attn.in_proj_a"@,
            "linear_attn.out_proj"@,
            "mlp.gate_proj"@,
            "mlp.down_proj"@,
            "mlp.up_proj"@,
        ]
    }
}

proof fn lemma_parts_of_layer(full_attention_mask: u64, n: nat, i: int, c: int)
    requires
        n <= mask::MAX_LAYERS,
        0 <= i < n,
        0 <= c < layer_parts(full_attention_mask, i as u32).len(),
    ensures
        parts_before_layer(full_attention_mask, n).len() == first_part(full_attention_mask, n as int),
        0 <= first_part(full_attention_mask, i),
        first_part(full_attention_mask, i) + layer_parts(full_attention_mask, i as u32).len()
            <= first_part(full_attention_mask, n as int),
        parts_before_layer(full_attention_mask, n)[first_part(full_attention_mask, i) + c] == layer_parts(
            full_attention_mask,
            i as u32,
        )[c],
    decreases n,
{
    mask::lemma_full_before_bounds(full_attention_mask, n as int);
    mask::lemma_full_before_bounds(full_attention_mask, n - 1);
    if i < n - 1 {
        lemma_parts_of_layer(full_attention_mask, (n - 1) as nat, i, c);
    } else if n > 1 {
        lemma_parts_of_layer(full_attention_mask, (n - 1) as nat, 0, 0);
    } else {
        assert(parts_before_layer(full_attention_mask, 0).len() == 0);
        assert(mask::full_before(full_attention_mask, 0) == 0);
    }
}

/// The list has the weights of all layers in the order of the layers, and of each layer all of its
/// components, in their order, with its number. Exactly `A_log`, `dt_bias` and the convolution stay
/// in single precision, and exactly the first two of these have names without a suffix.
pub proof fn law_exporter_lists_all_parts(exporter: Qwen3_5, config: ModelConfig, i: int, c: int)
    requires
        exporter.describes(config),
        config.qwen35 is Some,
        config.n_layers <= mask::MAX_LAYERS,
        0 <= i < config.n_layers,
        0 <= c < components(mask::is_full(config.qwen35->0.full_attention_mask, i)).len(),
    ensures
        ({
            let marks = config.qwen35->0.full_attention_mask;
            let full = mask::is_full(marks, i);
            let listed = exporter.weight_layers@;
            let part = listed[first_part(marks, i) + c];
            &&& listed.len() == first_part(marks, config.n_layers as int)
            &&& first_part(marks, 0) == 0
            &&& first_part(marks, i + 1) == first_part(marks, i) + components(full).len()
            &&& 0 <= first_part(marks, i) + c < listed.len()
            &&& part.layer_idx == i
            &&& part.component@ == components(full)[c]
            &&& part.is_fp32 <==> !full && c < 3
            &&& part.tensor_name@ == "model.language_model.layers."@ + text::decimal(i as nat) + "."@ + components(
                full,
            )[c] + if !full && c < 2 {
                ""@
            } else {
                ".weight"@
            }
        }),
{
    let marks = config.qwen35->0.full_attention_mask;
    let own = layer_parts(marks, i as u32);
    let full = mask::is_full(marks, i);
    mask::lemma_full_before_bounds(marks, i);
    mask::lemma_full_before_bounds(marks, i + 1);
    assert(own.len() == components(full).len());
    lemma_parts_of_layer(marks, config.n_layers as nat, i, c);
    let k = first_part(marks, i) + c;
    assert(parts(exporter.weight_layers@)[k] == exporter.weight_layers@[k]@);
    assert(own[c].component == components(full)[c]);
    lemma_suffixes(c, full);
}

proof fn lemma_suffixes(c: int, full: bool)
    requires
        0 <= c < components(full).len(),
    ensures
        !full && c < 2 <==> components(full)[c] == "linear_attn.A_log"@ || components(full)[c]
            == "linear_attn.dt_bias"@,
{
    reveal_strlit("linear_attn.A_log");
    reveal_strlit("linear_attn.dt_bias");
    reveal_strlit("self_attn.q_proj");
    reveal_strlit("self_attn.k_proj");
    reveal_strlit("self_attn.v_proj");
    reveal_strlit("self_attn.o_proj");
    reveal_strlit("linear_attn.conv1d");
    reveal_strlit("linear_attn.in_proj_qkv");
    reveal_strlit("linear_attn.in_proj_z");
    reveal_strlit("linear_attn.in_proj_b");
    reveal_strlit("linear_attn.in_proj_a");
    reveal_strlit("linear_attn.out_proj");
    reveal_strlit("mlp.gate_proj");
    reveal_strlit("mlp.down_proj");
    reveal_strlit("mlp.up_proj");
    assert("linear_attn.A_log"@.len() == 17);
    assert("linear_attn.dt_bias"@.len() == 19);
}

/// The header has the numbers of the configuration, each in its own field, and the end token of the
/// model beside that of the chat. The norms that need not be there are as wide as what they norm: a
/// head of full attention, or a value head of linear attention.
pub proof fn law_exporter_carries_the_configuration(exporter: Qwen3_5, config: ModelConfig)
    requires
        exporter.describes(config),
        config.qwen35 is Some,
    ensures
        ({
            let header = exporter.header_v2;
            let extended = config.qwen35->0;
            let norms = exporter.norm_layers@;
            &&& header.norm_eps == config.norm_eps
            &&& header.n_linear_k_heads == extended.n_linear_k_heads
            &&& header.n_linear_v_heads == extended.n_linear_v_heads
            &&& header.linear_k_head_dim == extended.linear_k_head_dim
            &&& header.linear_v_head_dim == extended.linear_v_head_dim
            &&& header.conv_kernel_size == extended.conv_kernel_size
            &&& header.rope_theta == extended.rope_theta
            &&& header.rotary_dim == extended.rotary_dim
            &&& header.full_attention_mask == extended.full_attention_mask
            &&& header.model_eos == config.eos_token_id
            &&& header.chat_eos == extended.chat_eos
            &&& norms.len() == 6
            &&& forall|k: int| 0 <= k < 6 ==> ((#[trigger] norms[k]).layered <==> k != 2)
            &&& forall|k: int| 0 <= k < 6 ==> ((#[trigger] norms[k]).is_required <==> k < 3)
            &&& norms[3].default_dim == config.head_dim
            &&& norms[4].default_dim == config.head_dim
            &&& norms[5].default_dim == extended.linear_v_head_dim
            &&& norms[0].name@ == "model.language_model.layers.{}.input_layernorm.weight"@
            &&& norms[1].name@ == "model.language_model.layers.{}.post_attention_layernorm.weight"@
            &&& norms[2].name@ == "model.language_model.norm.weight"@
            &&& norms[3].name@ == "model.language_model.layers.{}.self_attn.q_norm.weight"@
            &&& norms[4].name@ == "model.language_model.layers.{}.self_attn.k_norm.weight"@
            &&& norms[5].name@ == "model.language_model.layers.{}.linear_attn.norm.weight"@
        }),
{
}

} // verus!
