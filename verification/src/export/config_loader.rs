//! Configurations of models as they are published, and what an export takes from them.

use super::architecture;
use super::architecture::{ArchitectureId, UnknownName};
use crate::json;
use crate::json::{Json, JsonTree};
use crate::mask;
use crate::text;
use vstd::arithmetic::power2::pow2;
use vstd::prelude::*;
use vstd::string::*;

verus! {

/// What kind of model a directory holds.
#[derive(Debug, Clone, PartialEq)]
pub enum ModelType {
    Base,
    /// A base model with an adapter.
    LoRA(LoRAConfig),
}

/// A model that is to be exported.
#[derive(Debug, Clone)]
pub struct ModelInfo {
    pub model_type: ModelType,
    pub config: ModelConfig,
}

/// What only Qwen3.5 models have.
#[derive(Debug, Clone, Copy, PartialEq, Eq, Structural)]
pub struct Qwen35Config {
    /// The token that ends a turn in a chat.
    pub chat_eos: u32,
    pub n_linear_k_heads: u32,
    pub n_linear_v_heads: u32,
    pub linear_k_head_dim: u32,
    pub linear_v_head_dim: u32,
    pub conv_kernel_size: u32,
    /// Bit pattern of a single-precision number.
    pub rope_theta: u32,
    pub rotary_dim: u32,
    pub full_attention_mask: u64,
}

/// The configuration of a model.
#[derive(Debug, Clone, Copy, PartialEq, Eq, Structural)]
pub struct ModelConfig {
    pub dim: u32,
    pub hidden_dim: u32,
    pub n_layers: u32,
    pub n_heads: u32,
    pub n_kv_heads: u32,
    pub vocab_size: u32,
    pub max_seq_len: u32,
    pub head_dim: u32,
    /// Bit pattern of a single-precision number.
    pub norm_eps: u32,
    pub bos_token_id: u32,
    pub eos_token_id: u32,
    pub architecture: ArchitectureId,
    pub qwen35: Option<Qwen35Config>,
}

/// The configuration of an adapter.
#[derive(Debug, Clone, PartialEq)]
pub struct LoRAConfig {
    /// Bit pattern of a single-precision number.
    pub lora_alpha: u32,
    pub r: usize,
    pub target_modules: Vec<String>,
    pub base_model_name_or_path: Option<String>,
}

/// How many dimensions of a head are rotated, worked out from the fraction that is.
#[derive(Debug)]
pub enum Rotary {
    Whole(u32),
    /// The fraction of the head dimension is no whole number.
    Broken { computed: String, factor: String },
}

/// How positions are encoded.
#[derive(Debug)]
pub struct RopeParameters {
    /// Bit pattern of a single-precision number.
    pub rope_theta: u32,
    pub rotary: Rotary,
}

/// The fields of a published configuration.
#[derive(Debug)]
pub struct FlatConfig {
    pub hidden_size: u32,
    pub intermediate_size: u32,
    pub num_hidden_layers: u32,
    pub num_attention_heads: u32,
    pub num_key_value_heads: u32,
    pub vocab_size: u32,
    pub max_position_embeddings: u32,
    /// Bit pattern of a single-precision number.
    pub rms_norm_eps: u32,
    pub head_dim: Option<u32>,
    pub bos_token_id: Option<u32>,
    pub eos_token_id: Option<u32>,
    pub hidden_act: Option<String>,
    pub attention_bias: Option<bool>,
    pub tie_word_embeddings: Option<bool>,
    pub layer_types: Option<Vec<String>>,
    pub linear_num_key_heads: Option<u32>,
    pub linear_num_value_heads: Option<u32>,
    pub linear_key_head_dim: Option<u32>,
    pub linear_value_head_dim: Option<u32>,
    pub linear_conv_kernel_dim: Option<u32>,
    pub rope_parameters: Option<RopeParameters>,
}

/// Why a model cannot be exported; `S` is the type of text.
#[derive(Debug)]
pub enum ConfigFault<S> {
    /// The text is no JSON.
    Parse(S),
    ArchitectureNotText,
    UnknownArchitecture(S),
    SeveralArchitectures(S),
    NoArchitectures,
    NoTextConfig,
    MissingField(S),
    HiddenAct(S),
    AttentionBias,
    UntiedEmbeddings,
    TooManyLayers(u32),
    LayerTypesLength { len: usize, layers: u32 },
    LayerType { name: S, index: usize },
    Rotary { computed: S, head_dim: u32, factor: S },
    OnlyAdapter(S),
    NoConfigFiles(S),
    NoBaseConfig(S),
}

/// Why a model cannot be exported.
pub type ConfigError = ConfigFault<String>;

impl View for ConfigFault<String> {
    type V = ConfigFault<Seq<char>>;

    open spec fn view(&self) -> ConfigFault<Seq<char>> {
        match *self {
            ConfigFault::Parse(s) => ConfigFault::Parse(s@),
            ConfigFault::ArchitectureNotText => ConfigFault::ArchitectureNotText,
            ConfigFault::UnknownArchitecture(s) => ConfigFault::UnknownArchitecture(s@),
            ConfigFault::SeveralArchitectures(s) => ConfigFault::SeveralArchitectures(s@),
            ConfigFault::NoArchitectures => ConfigFault::NoArchitectures,
            ConfigFault::NoTextConfig => ConfigFault::NoTextConfig,
            ConfigFault::MissingField(s) => ConfigFault::MissingField(s@),
            ConfigFault::HiddenAct(s) => ConfigFault::HiddenAct(s@),
            ConfigFault::AttentionBias => ConfigFault::AttentionBias,
            ConfigFault::UntiedEmbeddings => ConfigFault::UntiedEmbeddings,
            ConfigFault::TooManyLayers(n) => ConfigFault::TooManyLayers(n),
            ConfigFault::LayerTypesLength { len, layers } => ConfigFault::LayerTypesLength { len, layers },
            ConfigFault::LayerType { name, index } => ConfigFault::LayerType { name: name@, index },
            ConfigFault::Rotary { computed, head_dim, factor } => ConfigFault::Rotary {
                computed: computed@,
                head_dim,
                factor: factor@,
            },
            ConfigFault::OnlyAdapter(s) => ConfigFault::OnlyAdapter(s@),
            ConfigFault::NoConfigFiles(s) => ConfigFault::NoConfigFiles(s@),
            ConfigFault::NoBaseConfig(s) => ConfigFault::NoBaseConfig(s@),
        }
    }
}

impl ConfigFault<Seq<char>> {
    /// The fault in words.
    pub open spec fn message(self) -> Seq<char> {
        match self {
            ConfigFault::Parse(s) => "Failed to parse config.json: "@ + s,
            ConfigFault::ArchitectureNotText => "architecture name is not a string"@,
            ConfigFault::UnknownArchitecture(s) => "Unknown ArchitectureId: "@ + s,
            ConfigFault::SeveralArchitectures(s) => "Multiple architectures are not supported: "@ + s,
            ConfigFault::NoArchitectures => "Cannot determine architecture: missing 'architectures' field"@,
            ConfigFault::NoTextConfig => "Missing 'text_config' field for Qwen3.5 architecture"@,
            ConfigFault::MissingField(s) => "Qwen3.5 config missing required field '"@ + s + "'"@,
            ConfigFault::HiddenAct(s) => "Qwen3.5 requires hidden_act='silu', got '"@ + s + "'"@,
            ConfigFault::AttentionBias => "Qwen3.5 requires attention_bias=false, got true"@,
            ConfigFault::UntiedEmbeddings => "Qwen3.5 requires tie_word_embeddings=true, got false"@,
            ConfigFault::TooManyLayers(n) => "Qwen3.5 v2 supports at most 64 layers, got "@ + text::decimal(n as nat),
            ConfigFault::LayerTypesLength { len, layers } => "Qwen3.5 layer_types length "@ + text::decimal(len as nat)
                + " does not match num_hidden_layers "@ + text::decimal(layers as nat),
            ConfigFault::LayerType { name, index } => "Qwen3.5 unknown layer_type '"@ + name + "' at index "@
                + text::decimal(index as nat) + ", expected 'full_attention' or 'linear_attention'"@,
            ConfigFault::Rotary { computed, head_dim, factor } => "Qwen3.5 rotary_dim ("@ + computed
                + ") from head_dim="@ + text::decimal(head_dim as nat) + " * partial_rotary_factor="@ + factor
                + " is not integral"@,
            ConfigFault::OnlyAdapter(s) => "Only LoRA config is found in "@ + s
                + ". Make sure to have base model files in the same directory"@,
            ConfigFault::NoConfigFiles(s) => "No valid configuration files found in "@ + s,
            ConfigFault::NoBaseConfig(s) => "Base model config.json not found in "@ + s
                + ". For LoRA models, ensure the base model config is available."@,
        }
    }
}

fn wrap(before: &str, middle: &str, after: &str) -> (out: String)
    ensures
        out@ == before@ + middle@ + after@,
{
    let mut out = before.to_owned();
    out.append(middle);
    out.append(after);
    out
}

fn prefix(before: &str, rest: &str) -> (out: String)
    ensures
        out@ == before@ + rest@,
{
    let mut out = before.to_owned();
    out.append(rest);
    out
}

impl ConfigFault<String> {
    /// The fault in words.
    pub fn message(&self) -> (text: String)
        ensures
            text@ == self@.message(),
    {
        match self {
            ConfigFault::Parse(s) => prefix("Failed to parse config.json: ", s.as_str()),
            ConfigFault::ArchitectureNotText => "architecture name is not a string".to_owned(),
            ConfigFault::UnknownArchitecture(s) => UnknownName(s.as_str()).message(),
            ConfigFault::SeveralArchitectures(s) => prefix("Multiple architectures are not supported: ", s.as_str()),
            ConfigFault::NoArchitectures => "Cannot determine architecture: missing 'architectures' field".to_owned(),
            ConfigFault::NoTextConfig => "Missing 'text_config' field for Qwen3.5 architecture".to_owned(),
            ConfigFault::MissingField(s) => wrap("Qwen3.5 config missing required field '", s.as_str(), "'"),
            ConfigFault::HiddenAct(s) => wrap("Qwen3.5 requires hidden_act='silu', got '", s.as_str(), "'"),
            ConfigFault::AttentionBias => "Qwen3.5 requires attention_bias=false, got true".to_owned(),
            ConfigFault::UntiedEmbeddings => "Qwen3.5 requires tie_word_embeddings=true, got false".to_owned(),
            ConfigFault::TooManyLayers(n) => {
                let mut out = "Qwen3.5 v2 supports at most 64 layers, got ".to_owned();
                text::push_decimal(&mut out, *n as u64);
                out
            },
            ConfigFault::LayerTypesLength { len, layers } => {
                let mut out = "Qwen3.5 layer_types length ".to_owned();
                text::push_decimal(&mut out, *len as u64);
                out.append(" does not match num_hidden_layers ");
                text::push_decimal(&mut out, *layers as u64);
                out
            },
            ConfigFault::LayerType { name, index } => {
                let mut out = wrap("Qwen3.5 unknown layer_type '", name.as_str(), "' at index ");
                text::push_decimal(&mut out, *index as u64);
                out.append(", expected 'full_attention' or 'linear_attention'");
                out
            },
            ConfigFault::Rotary { computed, head_dim, factor } => {
                let mut out = wrap("Qwen3.5 rotary_dim (", computed.as_str(), ") from head_dim=");
                text::push_decimal(&mut out, *head_dim as u64);
                out.append(" * partial_rotary_factor=");
                out.append(factor.as_str());
                out.append(" is not integral");
                out
            },
            ConfigFault::OnlyAdapter(s) => wrap(
                "Only LoRA config is found in ",
                s.as_str(),
                ". Make sure to have base model files in the same directory",
            ),
            ConfigFault::NoConfigFiles(s) => prefix("No valid configuration files found in ", s.as_str()),
            ConfigFault::NoBaseConfig(s) => wrap(
                "Base model config.json not found in ",
                s.as_str(),
                ". For LoRA models, ensure the base model config is available.",
            ),
        }
    }
}

/// Why an architecture cannot be told; `S` is the type of text.
#[derive(Debug)]
pub enum ArchitectureFault<S> {
    NotText,
    Unknown(S),
    Several,
    Missing,
}

/// The one architecture that a configuration names.
pub open spec fn architecture_of(root: JsonTree) -> Result<ArchitectureId, ArchitectureFault<Seq<char>>> {
    match root.get("architectures"@) {
        Some(JsonTree::Array(items)) => if items.len() != 1 {
            Err(ArchitectureFault::Several)
        } else {
            match items[0] {
                JsonTree::Text(name) => match architecture::named(name) {
                    Some(id) => Ok(id),
                    None => Err(ArchitectureFault::Unknown(name)),
                },
                _ => Err(ArchitectureFault::NotText),
            }
        },
        _ => Err(ArchitectureFault::Missing),
    }
}

/// The one architecture that a configuration names.
pub fn choose_architecture(root: &Json) -> (result: Result<ArchitectureId, ArchitectureFault<String>>)
    ensures
        match result {
            Ok(id) => architecture_of(root@) == Ok::<ArchitectureId, ArchitectureFault<Seq<char>>>(id),
            Err(ArchitectureFault::NotText) => architecture_of(root@) == Err::<
                ArchitectureId,
                ArchitectureFault<Seq<char>>,
            >(ArchitectureFault::NotText),
            Err(ArchitectureFault::Unknown(name)) => architecture_of(root@) == Err::<
                ArchitectureId,
                ArchitectureFault<Seq<char>>,
            >(ArchitectureFault::Unknown(name@)),
            Err(ArchitectureFault::Several) => architecture_of(root@) == Err::<
                ArchitectureId,
                ArchitectureFault<Seq<char>>,
            >(ArchitectureFault::Several),
            Err(ArchitectureFault::Missing) => architecture_of(root@) == Err::<
                ArchitectureId,
                ArchitectureFault<Seq<char>>,
            >(ArchitectureFault::Missing),
        },
{
    let items = match root.get("architectures") {
        Some(value) => match value.as_array() {
            Some(items) => items,
            None => {
                return Err(ArchitectureFault::Missing);
            },
        },
        None => {
            return Err(ArchitectureFault::Missing);
        },
    };
    if items.len() != 1 {
        return Err(ArchitectureFault::Several);
    }
    assert(json::trees(items@)[0] == items@[0]@);
    match items[0].as_str() {
        Some(name) => match ArchitectureId::try_from(name) {
            Ok(id) => Ok(id),
            Err(unknown) => Err(ArchitectureFault::Unknown(unknown.0.to_owned())),
        },
        None => Err(ArchitectureFault::NotText),
    }
}

/// The part of a configuration that describes the language model. Qwen3.5 models keep it in a
/// section of its own.
pub open spec fn section_of(root: JsonTree, architecture: ArchitectureId) -> Option<JsonTree> {
    if architecture == ArchitectureId::Qwen3_5ForConditionalGeneration {
        root.get("text_config"@)
    } else {
        Some(root)
    }
}

/// The part of a configuration that describes the language model.
pub fn choose_section(root: &Json, architecture: ArchitectureId) -> (section: Option<&Json>)
    ensures
        match section {
            Some(section) => section_of(root@, architecture) == Some(section@),
            None => section_of(root@, architecture) is None,
        },
{
    if architecture == ArchitectureId::Qwen3_5ForConditionalGeneration {
        root.get("text_config")
    } else {
        Some(root)
    }
}

/// What is wrong with the text of a configuration, up to the fields of the language model.
pub open spec fn document_fault(contents: Seq<char>) -> Option<ConfigFault<Seq<char>>> {
    match json::parsed_json(contents) {
        Err(message) => Some(ConfigFault::Parse(message)),
        Ok(root) => match architecture_of(root) {
            Err(ArchitectureFault::NotText) => Some(ConfigFault::ArchitectureNotText),
            Err(ArchitectureFault::Unknown(name)) => Some(ConfigFault::UnknownArchitecture(name)),
            Err(ArchitectureFault::Several) => Some(
                ConfigFault::SeveralArchitectures(
                    match root.get("architectures"@) {
                        Some(JsonTree::Array(items)) => json::shown_list(items),
                        _ => seq![],
                    },
                ),
            ),
            Err(ArchitectureFault::Missing) => Some(ConfigFault::NoArchitectures),
            Ok(id) => if section_of(root, id) is None {
                Some(ConfigFault::NoTextConfig)
            } else {
                None
            },
        },
    }
}

/// A parsed configuration of a known architecture.
#[derive(Debug)]
pub struct ConfigDocument {
    root: serde_json::Value,
    architecture: ArchitectureId,
}

impl ConfigDocument {
    #[verifier::type_invariant]
    spec fn complete(self) -> bool {
        section_of(json::json_tree(self.root), self.architecture) is Some
    }

    /// What the document holds.
    pub closed spec fn tree(self) -> JsonTree {
        json::json_tree(self.root)
    }

    /// The architecture that it names.
    pub closed spec fn names(self) -> ArchitectureId {
        self.architecture
    }

    /// Parses the text of a configuration.
    pub fn read(contents: &str) -> (result: Result<Self, ConfigError>)
        ensures
            match result {
                Ok(document) => {
                    &&& document_fault(contents@) is None
                    &&& json::parsed_json(contents@) == Ok::<JsonTree, Seq<char>>(document.tree())
                    &&& architecture_of(document.tree()) == Ok::<ArchitectureId, ArchitectureFault<Seq<char>>>(
                        document.names(),
                    )
                },
                Err(fault) => document_fault(contents@) == Some(fault@),
            },
    {
        let root = match json::parse_value(contents) {
            Ok(root) => root,
            Err(message) => {
                return Err(ConfigFault::Parse(message));
            },
        };
        let tree = json::import(&root);
        let architecture: ArchitectureId = match choose_architecture(&tree) {
            Ok(id) => id,
            Err(ArchitectureFault::NotText) => {
                return Err(ConfigFault::ArchitectureNotText);
            },
            Err(ArchitectureFault::Unknown(name)) => {
                return Err(ConfigFault::UnknownArchitecture(name));
            },
            Err(ArchitectureFault::Several) => {
                return Err(ConfigFault::SeveralArchitectures(show_architectures(&root)));
            },
            Err(ArchitectureFault::Missing) => {
                return Err(ConfigFault::NoArchitectures);
            },
        };
        if choose_section(&tree, architecture).is_none() {
            return Err(ConfigFault::NoTextConfig);
        }
        Ok(ConfigDocument { root, architecture })
    }

    /// The architecture that it names.
    pub fn architecture(&self) -> (id: ArchitectureId)
        ensures
            id == self.names(),
    {
        self.architecture
    }

    /// The part that describes the language model.
    pub fn section(&self) -> (section: &serde_json::Value)
        ensures
            section_of(self.tree(), self.names()) == Some(json::json_tree(*section)),
    {
        proof {
            use_type_invariant(self);
        }
        if self.architecture == ArchitectureId::Qwen3_5ForConditionalGeneration {
            if let Some(section) = json::value_at(&self.root, "text_config") {
                return section;
            }
        }
        &self.root
    }
}

fn show_architectures(root: &serde_json::Value) -> (shown: String)
    requires
        json::json_tree(*root).get("architectures"@) matches Some(value) && value is Array,
    ensures
        json::json_tree(*root).get("architectures"@) matches Some(value) && shown@ == json::shown_list(value->Array_0),
{
    if let Some(value) = json::value_at(root, "architectures") {
        if let Some(items) = json::value_items(value) {
            return json::show_list(items);
        }
    }
    String::new()
}

/// Whether a layer type is known.
pub open spec fn known_type(name: Seq<char>) -> bool {
    name == "full_attention"@ || name == "linear_attention"@
}

/// The index of the first layer type that is not known.
pub open spec fn first_unknown(types: Seq<String>) -> Option<int>
    decreases types.len(),
{
    if types.len() == 0 {
        None
    } else {
        match first_unknown(types.drop_last()) {
            Some(i) => Some(i),
            None => if known_type(types.last()@) {
                None
            } else {
                Some(types.len() - 1)
            },
        }
    }
}

/// The mask of the layers with full attention.
pub open spec fn mask_of(types: Seq<String>) -> u64
    decreases types.len(),
{
    if types.len() == 0 {
        0
    } else if types.last()@ == "full_attention"@ {
        mask::with_layer(mask_of(types.drop_last()), types.len() - 1)
    } else {
        mask_of(types.drop_last())
    }
}

/// Bit `i` of the mask is set exactly where layer `i` is there and has full attention.
pub proof fn law_mask_marks_full_attention(types: Seq<String>, i: int)
    requires
        types.len() <= mask::MAX_LAYERS,
        0 <= i < mask::MAX_LAYERS,
    ensures
        mask::is_full(mask_of(types), i) <==> i < types.len() && types[i]@ == "full_attention"@,
        mask::within(mask_of(types), types.len() as int),
    decreases types.len(),
{
    if types.len() == 0 {
        let b = i as u64;
        assert((0u64 >> b) & 1 == 0) by (bit_vector)
            requires
                b < 64,
        ;
        assert(0u64 >> 0u64 == 0) by (bit_vector);
    } else {
        let n = types.len() - 1;
        law_mask_marks_full_attention(types.drop_last(), i);
        mask::lemma_with_layer(mask_of(types.drop_last()), n, i);
        mask::lemma_within_grows(mask_of(types.drop_last()), n);
    }
}

/// The head dimension, given or worked out.
pub open spec fn head_dim_of(hf: FlatConfig) -> u32 {
    match hf.head_dim {
        Some(head_dim) => head_dim,
        None => hf.hidden_size / hf.num_attention_heads,
    }
}

/// The head dimension, given or worked out.
pub fn head_dim(hf: &FlatConfig) -> (head_dim: u32)
    requires
        hf.num_attention_heads != 0,
    ensures
        head_dim == head_dim_of(*hf),
{
    match hf.head_dim {
        Some(head_dim) => head_dim,
        None => hf.hidden_size / hf.num_attention_heads,
    }
}

/// The fields that a Qwen3.5 configuration needs behind the layer types, in the order in which they
/// are looked for: the first one that is missing.
pub open spec fn first_missing(hf: FlatConfig) -> Option<Seq<char>> {
    if hf.linear_num_key_heads is None {
        Some("linear_num_key_heads"@)
    } else if hf.linear_num_value_heads is None {
        Some("linear_num_value_heads"@)
    } else if hf.linear_key_head_dim is None {
        Some("linear_key_head_dim"@)
    } else if hf.linear_value_head_dim is None {
        Some("linear_value_head_dim"@)
    } else if hf.linear_conv_kernel_dim is None {
        Some("linear_conv_kernel_dim"@)
    } else if hf.rope_parameters is None {
        Some("rope_parameters"@)
    } else {
        None
    }
}

/// The first thing that is wrong with the activation, the biases and the embeddings.
pub open spec fn feature_fault(hf: FlatConfig) -> Option<ConfigFault<Seq<char>>> {
    match (hf.hidden_act, hf.attention_bias, hf.tie_word_embeddings) {
        (None, _, _) => Some(ConfigFault::MissingField("hidden_act"@)),
        (Some(act), bias, tied) => if act@ != "silu"@ {
            Some(ConfigFault::HiddenAct(act@))
        } else if bias is None {
            Some(ConfigFault::MissingField("attention_bias"@))
        } else if bias == Some(true) {
            Some(ConfigFault::AttentionBias)
        } else if tied is None {
            Some(ConfigFault::MissingField("tie_word_embeddings"@))
        } else if tied == Some(false) {
            Some(ConfigFault::UntiedEmbeddings)
        } else {
            None
        },
    }
}

/// The first thing that is wrong with the layer types.
pub open spec fn layers_fault(hf: FlatConfig) -> Option<ConfigFault<Seq<char>>> {
    match hf.layer_types {
        None => Some(ConfigFault::MissingField("layer_types"@)),
        Some(types) => if hf.num_hidden_layers > mask::MAX_LAYERS {
            Some(ConfigFault::TooManyLayers(hf.num_hidden_layers))
        } else if types@.len() != hf.num_hidden_layers {
            Some(ConfigFault::LayerTypesLength { len: types@.len() as usize, layers: hf.num_hidden_layers })
        } else {
            match first_unknown(types@) {
                Some(i) => Some(ConfigFault::LayerType { name: types@[i]@, index: i as usize }),
                None => None,
            }
        },
    }
}

/// What Qwen3.5 models have beyond other models, or the first thing that is wrong with it.
pub open spec fn qwen35_of(hf: FlatConfig, chat_eos: u32) -> Result<Qwen35Config, ConfigFault<Seq<char>>> {
    match feature_fault(hf) {
        Some(fault) => Err(fault),
        None => match layers_fault(hf) {
            Some(fault) => Err(fault),
            None => match first_missing(hf) {
                Some(name) => Err(ConfigFault::MissingField(name)),
                None => match hf.rope_parameters->0.rotary {
                    Rotary::Broken { computed, factor } => Err(
                        ConfigFault::Rotary { computed: computed@, head_dim: head_dim_of(hf), factor: factor@ },
                    ),
                    Rotary::Whole(rotary_dim) => Ok(
                        Qwen35Config {
                            chat_eos,
                            n_linear_k_heads: hf.linear_num_key_heads->0,
                            n_linear_v_heads: hf.linear_num_value_heads->0,
                            linear_k_head_dim: hf.linear_key_head_dim->0,
                            linear_v_head_dim: hf.linear_value_head_dim->0,
                            conv_kernel_size: hf.linear_conv_kernel_dim->0,
                            rope_theta: hf.rope_parameters->0.rope_theta,
                            rotary_dim,
                            full_attention_mask: mask_of(hf.layer_types->0@),
                        },
                    ),
                },
            },
        },
    }
}

/// The number, or zero.
pub open spec fn or_zero(n: Option<u32>) -> u32 {
    match n {
        Some(n) => n,
        None => 0,
    }
}

/// The configuration without what only Qwen3.5 models have.
pub open spec fn common_of(architecture: ArchitectureId, hf: FlatConfig) -> ModelConfig {
    ModelConfig {
        dim: hf.hidden_size,
        hidden_dim: hf.intermediate_size,
        n_layers: hf.num_hidden_layers,
        n_heads: hf.num_attention_heads,
        n_kv_heads: hf.num_key_value_heads,
        vocab_size: hf.vocab_size,
        max_seq_len: hf.max_position_embeddings,
        norm_eps: hf.rms_norm_eps,
        head_dim: head_dim_of(hf),
        bos_token_id: or_zero(hf.bos_token_id),
        eos_token_id: or_zero(hf.eos_token_id),
        architecture,
        qwen35: None,
    }
}

/// The token that ends a turn: that of the tokenizer, else the one that ends a text.
pub open spec fn chat_eos_or(hf: FlatConfig, chat_eos: Option<u32>) -> u32 {
    match chat_eos {
        Some(id) => id,
        None => or_zero(hf.eos_token_id),
    }
}

/// The configuration of a model with the given fields, or the first thing that is wrong with it.
pub open spec fn config_of(architecture: ArchitectureId, hf: FlatConfig, chat_eos: Option<u32>) -> Result<
    ModelConfig,
    ConfigFault<Seq<char>>,
> {
    let common = common_of(architecture, hf);
    if architecture == ArchitectureId::Qwen3_5ForConditionalGeneration {
        match qwen35_of(hf, chat_eos_or(hf, chat_eos)) {
            Ok(extended) => Ok(ModelConfig { qwen35: Some(extended), ..common }),
            Err(fault) => Err(fault),
        }
    } else {
        Ok(common)
    }
}

fn missing(name: &str) -> (fault: ConfigError)
    ensures
        fault@ == ConfigFault::MissingField(name@),
{
    ConfigFault::MissingField(name.to_owned())
}

fn check_features(hf: &FlatConfig) -> (result: Result<(), ConfigError>)
    ensures
        match result {
            Ok(_) => feature_fault(*hf) is None,
            Err(fault) => feature_fault(*hf) == Some(fault@),
        },
{
    match &hf.hidden_act {
        None => {
            return Err(missing("hidden_act"));
        },
        Some(act) => {
            if !text::same_text(act.as_str(), "silu") {
                return Err(ConfigFault::HiddenAct(act.as_str().to_owned()));
            }
        },
    }
    match hf.attention_bias {
        None => {
            return Err(missing("attention_bias"));
        },
        Some(bias) => {
            if bias {
                return Err(ConfigFault::AttentionBias);
            }
        },
    }
    match hf.tie_word_embeddings {
        None => {
            return Err(missing("tie_word_embeddings"));
        },
        Some(tied) => {
            if !tied {
                return Err(ConfigFault::UntiedEmbeddings);
            }
        },
    }
    Ok(())
}

fn read_layer_types(hf: &FlatConfig) -> (result: Result<u64, ConfigError>)
    ensures
        match result {
            Ok(full_attention_mask) => {
                &&& layers_fault(*hf) is None
                &&& full_attention_mask == mask_of(hf.layer_types->0@)
            },
            Err(fault) => layers_fault(*hf) == Some(fault@),
        },
{
    let types = match &hf.layer_types {
        Some(types) => types,
        None => {
            return Err(missing("layer_types"));
        },
    };
    if hf.num_hidden_layers as usize > mask::MAX_LAYERS {
        return Err(ConfigFault::TooManyLayers(hf.num_hidden_layers));
    }
    if types.len() != hf.num_hidden_layers as usize {
        return Err(ConfigFault::LayerTypesLength { len: types.len(), layers: hf.num_hidden_layers });
    }
    let mut full_attention_mask: u64 = 0;
    for i in 0..types.len()
        invariant
            hf.layer_types == Some(*types),
            types@.len() == hf.num_hidden_layers,
            types@.len() <= mask::MAX_LAYERS,
            full_attention_mask == mask_of(types@.take(i as int)),
            first_unknown(types@.take(i as int)) is None,
    {
        let ghost upto = types@.take(i + 1);
        assert(upto.drop_last() =~= types@.take(i as int));
        if text::same_text(types[i].as_str(), "full_attention") {
            full_attention_mask = full_attention_mask | (1u64 << (i as u64));
        } else if !text::same_text(types[i].as_str(), "linear_attention") {
            proof {
                lemma_first_unknown_leads(types@, i + 1);
            }
            return Err(ConfigFault::LayerType { name: types[i].as_str().to_owned(), index: i });
        }
    }
    assert(types@.take(types@.len() as int) =~= types@);
    Ok(full_attention_mask)
}

proof fn lemma_first_unknown_leads(types: Seq<String>, n: int)
    requires
        0 <= n <= types.len(),
        first_unknown(types.take(n)) is Some,
    ensures
        first_unknown(types) == first_unknown(types.take(n)),
    decreases types.len() - n,
{
    if n == types.len() {
        assert(types.take(n) =~= types);
    } else {
        assert(types.take(n + 1).drop_last() =~= types.take(n));
        lemma_first_unknown_leads(types, n + 1);
    }
}

fn read_qwen35(hf: &FlatConfig, chat_eos: u32) -> (result: Result<Qwen35Config, ConfigError>)
    requires
        hf.num_attention_heads != 0,
    ensures
        match result {
            Ok(extended) => qwen35_of(*hf, chat_eos) == Ok::<Qwen35Config, ConfigFault<Seq<char>>>(extended),
            Err(fault) => qwen35_of(*hf, chat_eos) == Err::<Qwen35Config, ConfigFault<Seq<char>>>(fault@),
        },
{
    match check_features(hf) {
        Ok(_) => {},
        Err(fault) => {
            return Err(fault);
        },
    }
    let full_attention_mask: u64 = match read_layer_types(hf) {
        Ok(full_attention_mask) => full_attention_mask,
        Err(fault) => {
            return Err(fault);
        },
    };
    let n_linear_k_heads: u32 = match hf.linear_num_key_heads {
        Some(n) => n,
        None => {
            return Err(missing("linear_num_key_heads"));
        },
    };
    let n_linear_v_heads: u32 = match hf.linear_num_value_heads {
        Some(n) => n,
        None => {
            return Err(missing("linear_num_value_heads"));
        },
    };
    let linear_k_head_dim: u32 = match hf.linear_key_head_dim {
        Some(n) => n,
        None => {
            return Err(missing("linear_key_head_dim"));
        },
    };
    let linear_v_head_dim: u32 = match hf.linear_value_head_dim {
        Some(n) => n,
        None => {
            return Err(missing("linear_value_head_dim"));
        },
    };
    let conv_kernel_size: u32 = match hf.linear_conv_kernel_dim {
        Some(n) => n,
        None => {
            return Err(missing("linear_conv_kernel_dim"));
        },
    };
    let rope = match &hf.rope_parameters {
        Some(rope) => rope,
        None => {
            return Err(missing("rope_parameters"));
        },
    };
    let rotary_dim: u32 = match &rope.rotary {
        Rotary::Whole(rotary_dim) => *rotary_dim,
        Rotary::Broken { computed, factor } => {
            return Err(
                ConfigFault::Rotary {
                    computed: computed.as_str().to_owned(),
                    head_dim: head_dim(hf),
                    factor: factor.as_str().to_owned(),
                },
            );
        },
    };
    Ok(
        Qwen35Config {
            chat_eos,
            n_linear_k_heads,
            n_linear_v_heads,
            linear_k_head_dim,
            linear_v_head_dim,
            conv_kernel_size,
            rope_theta: rope.rope_theta,
            rotary_dim,
            full_attention_mask,
        },
    )
}

/// The configuration of a model with the given fields. `chat_eos` is the token that ends a turn
/// according to the tokenizer, where that says so.
pub fn load_hf_config(architecture: ArchitectureId, hf: &FlatConfig, chat_eos: Option<u32>) -> (result: Result<
    ModelConfig,
    ConfigError,
>)
    requires
        hf.num_attention_heads != 0,
    ensures
        match result {
            Ok(config) => config_of(architecture, *hf, chat_eos) == Ok::<ModelConfig, ConfigFault<Seq<char>>>(config),
            Err(fault) => config_of(architecture, *hf, chat_eos) == Err::<ModelConfig, ConfigFault<Seq<char>>>(fault@),
        },
{
    let eos_token_id: u32 = match hf.eos_token_id {
        Some(id) => id,
        None => 0,
    };
    let mut config = ModelConfig {
        dim: hf.hidden_size,
        hidden_dim: hf.intermediate_size,
        n_layers: hf.num_hidden_layers,
        n_heads: hf.num_attention_heads,
        n_kv_heads: hf.num_key_value_heads,
        vocab_size: hf.vocab_size,
        max_seq_len: hf.max_position_embeddings,
        norm_eps: hf.rms_norm_eps,
        head_dim: head_dim(hf),
        bos_token_id: match hf.bos_token_id {
            Some(id) => id,
            None => 0,
        },
        eos_token_id,
        architecture,
        qwen35: None,
    };
    if architecture == ArchitectureId::Qwen3_5ForConditionalGeneration {
        let chat_eos: u32 = match chat_eos {
            Some(id) => id,
            None => eos_token_id,
        };
        match read_qwen35(hf, chat_eos) {
            Ok(extended) => {
                config.qwen35 = Some(extended);
            },
            Err(fault) => {
                return Err(fault);
            },
        }
    }
    Ok(config)
}

/// A Qwen3.5 configuration that is accepted has everything that an export needs: the extension, no
/// more layers than a mask can describe, and a mask that speaks of these layers alone.
pub proof fn law_accepted_config_can_be_exported(hf: FlatConfig, chat_eos: Option<u32>)
    ensures
        match config_of(ArchitectureId::Qwen3_5ForConditionalGeneration, hf, chat_eos) {
            Ok(config) => {
                &&& config.architecture == ArchitectureId::Qwen3_5ForConditionalGeneration
                &&& config.n_layers <= mask::MAX_LAYERS
                &&& config.qwen35 matches Some(extended)
                &&& mask::within(extended.full_attention_mask, config.n_layers as int)
            },
            Err(_) => true,
        },
{
    if config_of(ArchitectureId::Qwen3_5ForConditionalGeneration, hf, chat_eos) is Ok {
        law_mask_marks_full_attention(hf.layer_types->0@, 0);
    }
}

/// What files a directory has.
#[derive(Debug, Clone, Copy, PartialEq, Eq, Structural)]
pub enum Detected {
    Base,
    BaseWithAdapter,
}

/// What kind of model lies in a directory, by the configuration files that are there.
pub fn detect_model_type(model_path: &str, has_base_config: bool, has_adapter_config: bool) -> (result: Result<
    Detected,
    ConfigError,
>)
    ensures
        match result {
            Ok(detected) => has_base_config && detected == if has_adapter_config {
                Detected::BaseWithAdapter
            } else {
                Detected::Base
            },
            Err(fault) => !has_base_config && fault@ == if has_adapter_config {
                ConfigFault::OnlyAdapter(model_path@)
            } else {
                ConfigFault::NoConfigFiles(model_path@)
            },
        },
{
    match (has_base_config, has_adapter_config) {
        (true, true) => Ok(Detected::BaseWithAdapter),
        (true, false) => Ok(Detected::Base),
        (false, true) => Err(ConfigFault::OnlyAdapter(model_path.to_owned())),
        (false, false) => Err(ConfigFault::NoConfigFiles(model_path.to_owned())),
    }
}

/// Whether the configuration of the base model is there to be loaded.
pub fn load_base_model_config(model_path: &str, exists: bool) -> (result: Result<(), ConfigError>)
    ensures
        match result {
            Ok(_) => exists,
            Err(fault) => !exists && fault@ == ConfigFault::NoBaseConfig(model_path@),
        },
{
    if exists {
        Ok(())
    } else {
        Err(ConfigFault::NoBaseConfig(model_path.to_owned()))
    }
}

/// Why there is no information on a model; `E` is the type of errors in reading files.
#[derive(Debug)]
pub enum InfoFault<E> {
    /// Files are missing.
    Files(ConfigError),
    /// The configuration of the adapter cannot be had.
    Adapter(E),
    /// The configuration of the model cannot be had.
    Config(E),
}

/// What is known of the model in a directory, from the configuration files that are there and from
/// what they hold. `adapter` and `config` are what reading the two files gives; they count only where
/// the files are there. The configuration is that of the base model, with an adapter and without.
pub fn load_model_info<E>(
    model_path: &str,
    has_base_config: bool,
    has_adapter_config: bool,
    adapter: Result<LoRAConfig, E>,
    config: Result<ModelConfig, E>,
) -> (result: Result<ModelInfo, InfoFault<E>>)
    ensures
        match result {
            Ok(info) => {
                &&& has_base_config
                &&& config == Ok::<ModelConfig, E>(info.config)
                &&& match info.model_type {
                    ModelType::Base => !has_adapter_config,
                    ModelType::LoRA(lora) => has_adapter_config && adapter == Ok::<LoRAConfig, E>(lora),
                }
            },
            Err(InfoFault::Files(fault)) => {
                &&& !has_base_config
                &&& fault@ == if has_adapter_config {
                    ConfigFault::OnlyAdapter(model_path@)
                } else {
                    ConfigFault::NoConfigFiles(model_path@)
                }
            },
            Err(InfoFault::Adapter(err)) => {
                &&& has_base_config
                &&& has_adapter_config
                &&& adapter == Err::<LoRAConfig, E>(err)
            },
            Err(InfoFault::Config(err)) => {
                &&& has_base_config
                &&& has_adapter_config ==> adapter is Ok
                &&& config == Err::<ModelConfig, E>(err)
            },
        },
{
    let model_type = match detect_model_type(model_path, has_base_config, has_adapter_config) {
        Ok(Detected::Base) => ModelType::Base,
        Ok(Detected::BaseWithAdapter) => match adapter {
            Ok(lora) => ModelType::LoRA(lora),
            Err(err) => {
                return Err(InfoFault::Adapter(err));
            },
        },
        Err(fault) => {
            return Err(InfoFault::Files(fault));
        },
    };
    match load_base_model_config(model_path, has_base_config) {
        Ok(_) => {},
        Err(fault) => {
            return Err(InfoFault::Files(fault));
        },
    }
    match config {
        Ok(config) => Ok(ModelInfo { model_type, config }),
        Err(err) => Err(InfoFault::Config(err)),
    }
}

/// Every accepted configuration has the published fields, each under its own name. The head
/// dimension is the published one wherever there is one, whether or not the heads make up the hidden
/// size; only where there is none is it the share of a head in the hidden size. Start and end token
/// are zero where they were not published.
pub proof fn law_accepted_config_has_published_fields(
    architecture: ArchitectureId,
    hf: FlatConfig,
    chat_eos: Option<u32>,
    config: ModelConfig,
)
    requires
        hf.num_attention_heads != 0,
        config_of(architecture, hf, chat_eos) == Ok::<ModelConfig, ConfigFault<Seq<char>>>(config),
    ensures
        hf.head_dim matches Some(head_dim) ==> config.head_dim == head_dim,
        hf.head_dim is None ==> config.head_dim * config.n_heads <= config.dim < (config.head_dim + 1) * config.n_heads,
        config.dim == hf.hidden_size,
        config.hidden_dim == hf.intermediate_size,
        config.n_layers == hf.num_hidden_layers,
        config.n_heads == hf.num_attention_heads,
        config.n_kv_heads == hf.num_key_value_heads,
        config.vocab_size == hf.vocab_size,
        config.max_seq_len == hf.max_position_embeddings,
        config.norm_eps == hf.rms_norm_eps,
        hf.bos_token_id matches Some(id) ==> config.bos_token_id == id,
        hf.bos_token_id is None ==> config.bos_token_id == 0,
        hf.eos_token_id matches Some(id) ==> config.eos_token_id == id,
        hf.eos_token_id is None ==> config.eos_token_id == 0,
        config.architecture == architecture,
        config.qwen35 is Some <==> architecture == ArchitectureId::Qwen3_5ForConditionalGeneration,
        config.qwen35 matches Some(extended) ==> {
            &&& chat_eos matches Some(id) ==> extended.chat_eos == id
            &&& chat_eos is None ==> extended.chat_eos == config.eos_token_id
            &&& hf.linear_num_key_heads == Some(extended.n_linear_k_heads)
            &&& hf.linear_num_value_heads == Some(extended.n_linear_v_heads)
            &&& hf.linear_key_head_dim == Some(extended.linear_k_head_dim)
            &&& hf.linear_value_head_dim == Some(extended.linear_v_head_dim)
            &&& hf.linear_conv_kernel_dim == Some(extended.conv_kernel_size)
            &&& hf.rope_parameters matches Some(rope) && rope.rope_theta == extended.rope_theta && rope.rotary
                == Rotary::Whole(extended.rotary_dim)
            &&& hf.layer_types matches Some(types) && types@.len() == config.n_layers && forall|i: int|
                0 <= i < types@.len() ==> (#[trigger] types@[i]@ == "full_attention"@ <==> (
                extended.full_attention_mask as nat / pow2(i as nat)) % 2 == 1)
        },
{
    if hf.head_dim is None {
        vstd::arithmetic::div_mod::lemma_fundamental_div_mod(hf.hidden_size as int, hf.num_attention_heads as int);
        let q = hf.hidden_size as int / hf.num_attention_heads as int;
        let n = hf.num_attention_heads as int;
        assert(q * n <= hf.hidden_size < (q + 1) * n) by (nonlinear_arith)
            requires
                hf.hidden_size == n * q + hf.hidden_size as int % n,
                0 <= hf.hidden_size as int % n < n,
        ;
    }
    if architecture == ArchitectureId::Qwen3_5ForConditionalGeneration {
        let types = hf.layer_types->0@;
        let marks = mask_of(types);
        assert forall|i: int| 0 <= i < types.len() implies (#[trigger] types[i]@ == "full_attention"@ <==> (
        marks as nat / pow2(i as nat)) % 2 == 1) by {
            law_mask_marks_full_attention(types, i);
            mask::law_bits_are_binary_digits(marks, i);
        }
    }
}

/// The first unknown layer type is unknown, and all before it are known; there is none where all
/// layers have full or linear attention.
pub proof fn law_first_unknown_type_is_the_first(types: Seq<String>)
    ensures
        match first_unknown(types) {
            Some(i) => {
                &&& 0 <= i < types.len()
                &&& types[i]@ != "full_attention"@
                &&& types[i]@ != "linear_attention"@
                &&& forall|j: int|
                    0 <= j < i ==> (#[trigger] types[j])@ == "full_attention"@ || types[j]@ == "linear_attention"@
            },
            None => forall|j: int|
                0 <= j < types.len() ==> (#[trigger] types[j])@ == "full_attention"@ || types[j]@
                    == "linear_attention"@,
        },
    decreases types.len(),
{
    if types.len() > 0 {
        let front = types.drop_last();
        law_first_unknown_type_is_the_first(front);
        assert forall|j: int| 0 <= j < types.len() - 1 implies #[trigger] types[j] == front[j] by {}
    }
}

/// A configuration of another architecture is always accepted. One of a Qwen3.5 model is accepted
/// exactly where it has the right activation, no biases, tied embeddings, at most 64 layers with a
/// known type each, all fields of linear attention, and a whole number of rotated dimensions.
pub proof fn law_what_configurations_are_accepted(architecture: ArchitectureId, hf: FlatConfig, chat_eos: Option<u32>)
    ensures
        architecture != ArchitectureId::Qwen3_5ForConditionalGeneration ==> config_of(architecture, hf, chat_eos) is Ok,
        architecture == ArchitectureId::Qwen3_5ForConditionalGeneration ==> (config_of(
            architecture,
            hf,
            chat_eos,
        ) is Ok <==> {
            &&& hf.hidden_act matches Some(act) && act@ == "silu"@
            &&& hf.attention_bias == Some(false)
            &&& hf.tie_word_embeddings == Some(true)
            &&& hf.num_hidden_layers <= 64
            &&& hf.layer_types matches Some(types) && types@.len() == hf.num_hidden_layers && forall|j: int|
                0 <= j < types@.len() ==> (#[trigger] types@[j])@ == "full_attention"@ || types@[j]@
                    == "linear_attention"@
            &&& hf.linear_num_key_heads is Some
            &&& hf.linear_num_value_heads is Some
            &&& hf.linear_key_head_dim is Some
            &&& hf.linear_value_head_dim is Some
            &&& hf.linear_conv_kernel_dim is Some
            &&& hf.rope_parameters matches Some(rope) && rope.rotary is Whole
        }),
{
    if hf.layer_types is Some {
        law_first_unknown_type_is_the_first(hf.layer_types->0@);
    }
    if let (Some(bias), Some(tied)) = (hf.attention_bias, hf.tie_word_embeddings) {
        if bias {
            assert(hf.attention_bias == Some(true));
        } else {
            assert(hf.attention_bias == Some(false));
        }
        if tied {
            assert(hf.tie_word_embeddings == Some(true));
        } else {
            assert(hf.tie_word_embeddings == Some(false));
        }
    }
}

/// What a fault says of a Qwen3.5 configuration is so.
pub proof fn law_configuration_faults_are_so(hf: FlatConfig, chat_eos: Option<u32>)
    ensures
        match config_of(ArchitectureId::Qwen3_5ForConditionalGeneration, hf, chat_eos) {
            Ok(_) => true,
            Err(ConfigFault::HiddenAct(act)) => {
                &&& act != "silu"@
                &&& hf.hidden_act matches Some(given) && given@ == act
            },
            Err(ConfigFault::AttentionBias) => hf.attention_bias == Some(true),
            Err(ConfigFault::UntiedEmbeddings) => hf.tie_word_embeddings == Some(false),
            Err(ConfigFault::TooManyLayers(n)) => n == hf.num_hidden_layers && n > 64,
            Err(ConfigFault::LayerTypesLength { len, layers }) => {
                &&& layers == hf.num_hidden_layers
                &&& hf.layer_types matches Some(types) && types@.len() != layers && (types@.len() <= usize::MAX
                    ==> len == types@.len())
            },
            Err(ConfigFault::LayerType { name, index }) => {
                &&& name != "full_attention"@
                &&& name != "linear_attention"@
                &&& hf.layer_types matches Some(types) && index < types@.len() && types@[index as int]@ == name
            },
            Err(ConfigFault::Rotary { computed, head_dim, factor }) => {
                &&& hf.rope_parameters matches Some(rope) && rope.rotary matches Rotary::Broken {
                    computed: c,
                    factor: f,
                } && c@ == computed && f@ == factor
                &&& hf.head_dim matches Some(given) ==> head_dim == given
            },
            Err(ConfigFault::MissingField(name)) => {
                ||| name == "hidden_act"@ && hf.hidden_act is None
                ||| name == "attention_bias"@ && hf.attention_bias is None
                ||| name == "tie_word_embeddings"@ && hf.tie_word_embeddings is None
                ||| name == "layer_types"@ && hf.layer_types is None
                ||| name == "linear_num_key_heads"@ && hf.linear_num_key_heads is None
                ||| name == "linear_num_value_heads"@ && hf.linear_num_value_heads is None
                ||| name == "linear_key_head_dim"@ && hf.linear_key_head_dim is None
                ||| name == "linear_value_head_dim"@ && hf.linear_value_head_dim is None
                ||| name == "linear_conv_kernel_dim"@ && hf.linear_conv_kernel_dim is None
                ||| name == "rope_parameters"@ && hf.rope_parameters is None
            },
            Err(_) => false,
        },
{
    if hf.layer_types is Some {
        law_first_unknown_type_is_the_first(hf.layer_types->0@);
    }
}

/// A document names an architecture exactly where its list of architectures has one item, a text
/// with one of the three names; the language model is described in the section for text where the
/// architecture is Qwen3.5, else in the document itself.
pub proof fn law_documents_name_one_architecture(root: JsonTree, id: ArchitectureId)
    ensures
        architecture_of(root) == Ok::<ArchitectureId, ArchitectureFault<Seq<char>>>(id) <==> {
            &&& root.get("architectures"@) matches Some(JsonTree::Array(items))
            &&& items.len() == 1
            &&& items[0] == JsonTree::Text(
                match id {
                    ArchitectureId::Qwen3ForCausalLM => "Qwen3ForCausalLM"@,
                    ArchitectureId::LlamaForCausalLM => "LlamaForCausalLM"@,
                    ArchitectureId::Qwen3_5ForConditionalGeneration => "Qwen3_5ForConditionalGeneration"@,
                },
            )
        },
        section_of(root, ArchitectureId::Qwen3_5ForConditionalGeneration) == root.get("text_config"@),
        section_of(root, ArchitectureId::Qwen3ForCausalLM) == Some(root),
        section_of(root, ArchitectureId::LlamaForCausalLM) == Some(root),
{
    architecture::lemma_names_differ();
}

/// A text is accepted as a document exactly where it is JSON, names one known architecture, and has
/// a section for text where this is Qwen3.5. A text that is no JSON is refused with what the parser
/// says.
pub proof fn law_what_documents_are_accepted(contents: Seq<char>)
    ensures
        document_fault(contents) is None <==> {
            &&& json::parsed_json(contents) matches Ok(root)
            &&& architecture_of(root) matches Ok(id)
            &&& id == ArchitectureId::Qwen3_5ForConditionalGeneration ==> root.get("text_config"@) is Some
        },
        json::parsed_json(contents) matches Err(message) ==> document_fault(contents) == Some(
            ConfigFault::Parse(message),
        ),
        document_fault(contents) matches Some(ConfigFault::UnknownArchitecture(name)) ==> {
            &&& json::parsed_json(contents) matches Ok(root)
            &&& root.get("architectures"@) == Some(JsonTree::Array(seq![JsonTree::Text(name)]))
            &&& architecture::named(name) is None
        },
        document_fault(contents) matches Some(ConfigFault::SeveralArchitectures(shown)) ==> {
            &&& json::parsed_json(contents) matches Ok(root)
            &&& root.get("architectures"@) matches Some(JsonTree::Array(items))
            &&& items.len() != 1
            &&& shown == json::shown_list(items)
        },
{
    if let Some(ConfigFault::UnknownArchitecture(name)) = document_fault(contents) {
        let root = json::parsed_json(contents)->Ok_0;
        let items = root.get("architectures"@)->Some_0->Array_0;
        assert(items =~= seq![JsonTree::Text(name)]);
    }
}

/// The fields that are looked for one after the other.
pub open spec fn has_field(hf: FlatConfig, k: int) -> bool {
    if k == 0 {
        hf.hidden_act is Some
    } else if k == 1 {
        hf.attention_bias is Some
    } else if k == 2 {
        hf.tie_word_embeddings is Some
    } else if k == 3 {
        hf.layer_types is Some
    } else if k == 4 {
        hf.linear_num_key_heads is Some
    } else if k == 5 {
        hf.linear_num_value_heads is Some
    } else if k == 6 {
        hf.linear_key_head_dim is Some
    } else if k == 7 {
        hf.linear_value_head_dim is Some
    } else if k == 8 {
        hf.linear_conv_kernel_dim is Some
    } else {
        hf.rope_parameters is Some
    }
}

/// The names of the fields that are looked for one after the other.
pub open spec fn field_names() -> Seq<Seq<char>> {
    seq![
        "hidden_act"@,
        "attention_bias"@,
        "tie_word_embeddings"@,
        "layer_types"@,
        "linear_num_key_heads"@,
        "linear_num_value_heads"@,
        "linear_key_head_dim"@,
        "linear_value_head_dim"@,
        "linear_conv_kernel_dim"@,
        "rope_parameters"@,
    ]
}

/// Where several things are wrong with a Qwen3.5 configuration, the fault is the first of them: the
/// fields are looked at in their order, each first for being there and then for what it says.
pub proof fn law_first_configuration_fault_is_told(hf: FlatConfig, chat_eos: Option<u32>) -> (k: int)
    ensures
        match config_of(ArchitectureId::Qwen3_5ForConditionalGeneration, hf, chat_eos) {
            Ok(_) => true,
            Err(fault) => {
                &&& 0 <= k < 10
                &&& forall|j: int| 0 <= j < k ==> #[trigger] has_field(hf, j)
                &&& k > 0 ==> (hf.hidden_act matches Some(act) && act@ == "silu"@)
                &&& k > 1 ==> (hf.attention_bias matches Some(bias) && !bias)
                &&& k > 2 ==> (hf.tie_word_embeddings matches Some(tied) && tied)
                &&& k > 3 ==> hf.num_hidden_layers <= 64
                &&& k > 3 ==> (hf.layer_types matches Some(types) && types@.len() == hf.num_hidden_layers
                    && first_unknown(types@) is None)
                &&& match fault {
                    ConfigFault::MissingField(name) => name == field_names()[k] && !has_field(hf, k),
                    ConfigFault::HiddenAct(_) => k == 0,
                    ConfigFault::AttentionBias => k == 1,
                    ConfigFault::UntiedEmbeddings => k == 2,
                    ConfigFault::TooManyLayers(_) => k == 3,
                    ConfigFault::LayerTypesLength { .. } => k == 3 && hf.num_hidden_layers <= 64,
                    ConfigFault::LayerType { index, .. } => {
                        &&& k == 3
                        &&& hf.num_hidden_layers <= 64
                        &&& hf.layer_types matches Some(types) && types@.len() == hf.num_hidden_layers && forall|j: int|
                            0 <= j < index ==> (#[trigger] types@[j])@ == "full_attention"@ || types@[j]@
                                == "linear_attention"@
                    },
                    ConfigFault::Rotary { .. } => k == 9,
                    _ => false,
                }
            },
        },
{
    if hf.layer_types is Some {
        law_first_unknown_type_is_the_first(hf.layer_types->0@);
    }
    if feature_fault(hf) is Some {
        if hf.hidden_act is None || hf.hidden_act->0@ != "silu"@ {
            0
        } else if hf.attention_bias is None || hf.attention_bias->0 {
            1
        } else {
            2
        }
    } else if layers_fault(hf) is Some {
        3
    } else if hf.linear_num_key_heads is None {
        4
    } else if hf.linear_num_value_heads is None {
        5
    } else if hf.linear_key_head_dim is None {
        6
    } else if hf.linear_value_head_dim is None {
        7
    } else if hf.linear_conv_kernel_dim is None {
        8
    } else {
        9
    }
}

} // verus!
