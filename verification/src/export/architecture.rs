//! Architectures, and what a checkpoint of each is made of.

use super::config_loader::ModelInfo;
use super::qwen3_5::Qwen3_5;
use crate::mask;
use crate::text;
use vstd::prelude::*;
use vstd::string::*;

verus! {

/// Architecture of a model, with its number in checkpoints.
#[derive(Debug, Clone, Copy, PartialEq, Eq, Structural)]
pub enum ArchitectureId {
    Qwen3ForCausalLM,
    LlamaForCausalLM,
    Qwen3_5ForConditionalGeneration,
}

/// The architecture with the given name.
pub open spec fn named(name: Seq<char>) -> Option<ArchitectureId> {
    if name == "Qwen3ForCausalLM"@ {
        Some(ArchitectureId::Qwen3ForCausalLM)
    } else if name == "LlamaForCausalLM"@ {
        Some(ArchitectureId::LlamaForCausalLM)
    } else if name == "Qwen3_5ForConditionalGeneration"@ {
        Some(ArchitectureId::Qwen3_5ForConditionalGeneration)
    } else {
        None
    }
}

/// The architecture with the given number.
pub open spec fn numbered(code: u32) -> Option<ArchitectureId> {
    if code == 1 {
        Some(ArchitectureId::Qwen3ForCausalLM)
    } else if code == 2 {
        Some(ArchitectureId::LlamaForCausalLM)
    } else if code == 3 {
        Some(ArchitectureId::Qwen3_5ForConditionalGeneration)
    } else {
        None
    }
}

impl ArchitectureId {
    /// The number of the architecture.
    pub open spec fn number(self) -> u32 {
        match self {
            ArchitectureId::Qwen3ForCausalLM => 1,
            ArchitectureId::LlamaForCausalLM => 2,
            ArchitectureId::Qwen3_5ForConditionalGeneration => 3,
        }
    }

    /// The number of the architecture.
    pub fn code(self) -> (code: u32)
        ensures
            code == self.number(),
    {
        match self {
            ArchitectureId::Qwen3ForCausalLM => 1,
            ArchitectureId::LlamaForCausalLM => 2,
            ArchitectureId::Qwen3_5ForConditionalGeneration => 3,
        }
    }
}

/// An architecture and its number determine each other.
pub proof fn law_numbers_identify_architectures(id: ArchitectureId, code: u32)
    ensures
        numbered(code) == Some(id) <==> id.number() == code,
{
}

/// A name that is no architecture's.
#[derive(Debug, Clone, Copy)]
pub struct UnknownName<'a>(pub &'a str);

impl<'a> UnknownName<'a> {
    /// The fault in words.
    pub fn message(&self) -> (text: String)
        ensures
            text@ == "Unknown ArchitectureId: "@ + self.0@,
    {
        let mut out = "Unknown ArchitectureId: ".to_owned();
        out.append(self.0);
        out
    }
}

/// A number that is no architecture's.
#[derive(Debug, Clone, Copy, PartialEq, Eq, Structural)]
pub struct UnknownNumber(pub u32);

impl UnknownNumber {
    /// The fault in words.
    pub fn message(&self) -> (text: String)
        ensures
            text@ == "Unknown ArchitectureId: "@ + text::decimal(self.0 as nat),
    {
        let mut out = "Unknown ArchitectureId: ".to_owned();
        text::push_decimal(&mut out, self.0 as u64);
        out
    }
}

impl<'a> TryFrom<&'a str> for ArchitectureId {
    type Error = UnknownName<'a>;

    fn try_from(value: &'a str) -> (result: Result<Self, UnknownName<'a>>) {
        if text::same_text(value, "Qwen3ForCausalLM") {
            Ok(ArchitectureId::Qwen3ForCausalLM)
        } else if text::same_text(value, "LlamaForCausalLM") {
            Ok(ArchitectureId::LlamaForCausalLM)
        } else if text::same_text(value, "Qwen3_5ForConditionalGeneration") {
            Ok(ArchitectureId::Qwen3_5ForConditionalGeneration)
        } else {
            Err(UnknownName(value))
        }
    }
}

impl<'a> vstd::std_specs::convert::TryFromSpecImpl<&'a str> for ArchitectureId {
    open spec fn obeys_try_from_spec() -> bool {
        true
    }

    open spec fn try_from_spec(value: &'a str) -> Result<Self, UnknownName<'a>> {
        match named(value@) {
            Some(id) => Ok(id),
            None => Err(UnknownName(value)),
        }
    }
}

impl TryFrom<u32> for ArchitectureId {
    type Error = UnknownNumber;

    fn try_from(value: u32) -> (result: Result<Self, UnknownNumber>) {
        match value {
            1 => Ok(ArchitectureId::Qwen3ForCausalLM),
            2 => Ok(ArchitectureId::LlamaForCausalLM),
            3 => Ok(ArchitectureId::Qwen3_5ForConditionalGeneration),
            _ => Err(UnknownNumber(value)),
        }
    }
}

impl vstd::std_specs::convert::TryFromSpecImpl<u32> for ArchitectureId {
    open spec fn obeys_try_from_spec() -> bool {
        true
    }

    open spec fn try_from_spec(value: u32) -> Result<Self, UnknownNumber> {
        match numbered(value) {
            Some(id) => Ok(id),
            None => Err(UnknownNumber(value)),
        }
    }
}

/// What the header of a checkpoint says beyond the dimensions.
#[derive(Debug, Clone, Copy, PartialEq, Eq, Structural)]
pub struct HeaderInfo {
    pub architecture_id: u32,
    pub shared_classifier: bool,
    /// The extension of the second version.
    pub v2: Option<HeaderInfoV2>,
}

/// The extension of the header in the second version.
#[derive(Debug, Clone, Copy, PartialEq, Eq, Structural)]
pub struct HeaderInfoV2 {
    /// Bit pattern of a single-precision number.
    pub norm_eps: u32,
    pub n_linear_k_heads: u32,
    pub n_linear_v_heads: u32,
    pub linear_k_head_dim: u32,
    pub linear_v_head_dim: u32,
    pub conv_kernel_size: u32,
    /// Bit pattern of a single-precision number.
    pub rope_theta: u32,
    pub rotary_dim: u32,
    pub full_attention_mask: u64,
    pub model_eos: u32,
    pub chat_eos: u32,
}

/// Norm weights.
#[derive(Debug, Clone, Copy)]
pub struct NormWeightLayer<'a> {
    /// The name of the tensor.
    pub name: &'a str,
    /// Whether the name is a pattern, to be completed with the number of a layer.
    pub layered: bool,
    /// Whether the tensor has to be there. Otherwise ones take its place.
    pub is_required: bool,
    /// How many ones take its place; zero stands for the head dimension.
    pub default_dim: u32,
}

impl<'a> NormWeightLayer<'a> {
    /// Norm weights with as many ones in their place as a head has dimensions.
    pub fn new(pattern: &'a str, layered: bool, is_required: bool) -> (layer: Self)
        ensures
            layer == (NormWeightLayer { name: pattern, layered, is_required, default_dim: 0 }),
    {
        NormWeightLayer { name: pattern, layered, is_required, default_dim: 0 }
    }

    /// Norm weights with the given number of ones in their place.
    pub fn new_with_dim(pattern: &'a str, layered: bool, is_required: bool, default_dim: u32) -> (layer: Self)
        ensures
            layer == (NormWeightLayer { name: pattern, layered, is_required, default_dim }),
    {
        NormWeightLayer { name: pattern, layered, is_required, default_dim }
    }
}

/// The weights of a part of a layer.
#[derive(Debug)]
pub struct WeightLayer<'a> {
    pub tensor_name: String,
    pub component: &'a str,
    pub layer_idx: u32,
    /// Whether the weights stay in single precision. Otherwise they are quantized.
    pub is_fp32: bool,
}

impl<'a> WeightLayer<'a> {
    /// Weights that are quantized.
    pub fn new(tensor_name: String, component: &'a str, layer_idx: u32) -> (layer: Self)
        ensures
            layer == (WeightLayer { tensor_name, component, layer_idx, is_fp32: false }),
    {
        WeightLayer { tensor_name, component, layer_idx, is_fp32: false }
    }

    /// Weights that stay in single precision.
    pub fn new_fp32(tensor_name: String, component: &'a str, layer_idx: u32) -> (layer: Self)
        ensures
            layer == (WeightLayer { tensor_name, component, layer_idx, is_fp32: true }),
    {
        WeightLayer { tensor_name, component, layer_idx, is_fp32: true }
    }
}

/// What an exporter asks of an architecture.
pub trait Architecture {
    fn id(&self) -> ArchitectureId;

    fn name(&self) -> &'static str;

    fn header(&self) -> Result<HeaderInfo, String>;

    fn norm_weight_layers(&self) -> &[NormWeightLayer<'_>];

    fn embed_tokens_layer(&self) -> &'static str;

    fn lm_head_layer(&self) -> &'static str;

    fn weight_layers(&self) -> &[WeightLayer<'_>];
}

/// What a checkpoint is made of, by architecture.
#[derive(Debug)]
pub enum AnyArchitecture {
    /// The layout of the first version, which depends on the tensors that are there.
    Qwen3,
    Qwen3_5(Qwen3_5),
}

impl AnyArchitecture {
    /// The architecture that this is of.
    pub open spec fn architecture(self) -> ArchitectureId {
        match self {
            AnyArchitecture::Qwen3 => ArchitectureId::Qwen3ForCausalLM,
            AnyArchitecture::Qwen3_5(_) => ArchitectureId::Qwen3_5ForConditionalGeneration,
        }
    }

    /// The architecture that this is of.
    pub fn id(&self) -> (id: ArchitectureId)
        ensures
            id == self.architecture(),
    {
        match self {
            AnyArchitecture::Qwen3 => ArchitectureId::Qwen3ForCausalLM,
            AnyArchitecture::Qwen3_5(parts) => parts.id(),
        }
    }
}

/// What the checkpoint of a model is made of.
pub fn create_architecture(model_info: &ModelInfo) -> (architecture: AnyArchitecture)
    requires
        model_info.config.architecture != ArchitectureId::LlamaForCausalLM,
        model_info.config.architecture == ArchitectureId::Qwen3_5ForConditionalGeneration ==> {
            &&& model_info.config.qwen35 is Some
            &&& model_info.config.n_layers <= mask::MAX_LAYERS
        },
    ensures
        architecture.architecture() == model_info.config.architecture,
        architecture matches AnyArchitecture::Qwen3_5(parts) ==> parts.describes(model_info.config),
{
    match model_info.config.architecture {
        ArchitectureId::Qwen3_5ForConditionalGeneration => AnyArchitecture::Qwen3_5(Qwen3_5::new(model_info.config)),
        _ => AnyArchitecture::Qwen3,
    }
}

/// The names of the architectures are different texts.
pub proof fn lemma_names_differ()
    ensures
        "Qwen3ForCausalLM"@ != "LlamaForCausalLM"@,
        "Qwen3ForCausalLM"@ != "Qwen3_5ForConditionalGeneration"@,
        "LlamaForCausalLM"@ != "Qwen3_5ForConditionalGeneration"@,
{
    reveal_strlit("Qwen3ForCausalLM");
    reveal_strlit("LlamaForCausalLM");
    reveal_strlit("Qwen3_5ForConditionalGeneration");
    assert("Qwen3ForCausalLM"@[0] == 'Q');
    assert("LlamaForCausalLM"@[0] == 'L');
    assert("Qwen3ForCausalLM"@.len() != "Qwen3_5ForConditionalGeneration"@.len());
    assert("LlamaForCausalLM"@.len() != "Qwen3_5ForConditionalGeneration"@.len());
}

/// An architecture is found under its own name and its own number and under no other, and there are
/// no more than the three.
pub proof fn law_architectures_have_their_names_and_numbers(name: Seq<char>, code: u32)
    ensures
        named(name) == Some(ArchitectureId::Qwen3ForCausalLM) <==> name == "Qwen3ForCausalLM"@,
        named(name) == Some(ArchitectureId::LlamaForCausalLM) <==> name == "LlamaForCausalLM"@,
        named(name) == Some(ArchitectureId::Qwen3_5ForConditionalGeneration) <==> name
            == "Qwen3_5ForConditionalGeneration"@,
        numbered(code) == Some(ArchitectureId::Qwen3ForCausalLM) <==> code == 1,
        numbered(code) == Some(ArchitectureId::LlamaForCausalLM) <==> code == 2,
        numbered(code) == Some(ArchitectureId::Qwen3_5ForConditionalGeneration) <==> code == 3,
{
    lemma_names_differ();
}

} // verus!
