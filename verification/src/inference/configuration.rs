//! The header of a checkpoint.
//!
//! A checkpoint starts with a header of 256 bytes: a magic number, the format version, and the
//! fields of the model configuration as little-endian numbers of four bytes each (one field of
//! version 2 takes eight). The bytes behind the fields are padding.

use super::bytes;
use super::mapper::{EndOfData, MemoryMapper};
use crate::text;
use vstd::prelude::*;
use vstd::slice::*;
use vstd::string::*;

verus! {

/// Magic number for validating checkpoint files.
pub const CHECKPOINT_MAGIC: i32 = 0x616a6331;

/// Size of the checkpoint header in bytes.
pub const HEADER_SIZE: usize = 256;

/// Size of the version 1 configuration in bytes, magic number and version included.
pub const CONFIG_V1_SIZE: usize = 52;

/// Size of the version 2 configuration in bytes, magic number and version included.
pub const CONFIG_V2_SIZE: usize = 100;

/// Configuration struct for transformer models.
#[derive(Debug, Clone, Copy, PartialEq, Eq, Structural)]
pub struct ModelConfig {
    pub architecture_id: usize,
    pub dim: usize,
    pub hidden_dim: usize,
    pub n_layers: usize,
    pub n_heads: usize,
    pub n_kv_heads: usize,
    pub head_dim: usize,
    pub seq_len: usize,
    pub vocab_size: usize,
    pub group_size: usize,
    pub shared_classifier: bool,
    /// The fields that only version 2 has.
    pub v2: Option<ModelConfigV2>,
}

/// The fields that only version 2 of the header has.
#[derive(Debug, Clone, Copy, PartialEq, Eq, Structural)]
pub struct ModelConfigV2 {
    /// Bit pattern of a single-precision number.
    pub norm_eps: u32,
    pub n_linear_k_heads: usize,
    pub n_linear_v_heads: usize,
    pub linear_k_head_dim: usize,
    pub linear_v_head_dim: usize,
    pub conv_kernel_size: usize,
    /// Bit pattern of a single-precision number.
    pub rope_theta: u32,
    pub rotary_dim: usize,
    /// Bit `i` is set where layer `i` has full attention.
    pub full_attention_mask: u64,
    pub model_eos: u32,
    pub chat_eos: u32,
}

/// Why a header is refused; `S` is the type of text.
#[derive(Debug)]
pub enum CheckpointFault<S> {
    /// The data ends before the header does.
    EndOfData(EndOfData),
    /// The first number is not the magic number.
    Magic(i32),
    /// The version is neither 1 nor 2.
    Version(i32),
    /// A field that has to be positive is not.
    NotPositive { name: S, value: i32 },
    /// A size is negative.
    Negative { name: S, value: i32 },
}

/// Why a header is refused.
pub type CheckpointError = CheckpointFault<String>;

impl View for CheckpointFault<String> {
    type V = CheckpointFault<Seq<char>>;

    open spec fn view(&self) -> CheckpointFault<Seq<char>> {
        match self {
            CheckpointFault::EndOfData(end) => CheckpointFault::EndOfData(*end),
            CheckpointFault::Magic(found) => CheckpointFault::Magic(*found),
            CheckpointFault::Version(found) => CheckpointFault::Version(*found),
            CheckpointFault::NotPositive { name, value } => CheckpointFault::NotPositive { name: name@, value: *value },
            CheckpointFault::Negative { name, value } => CheckpointFault::Negative { name: name@, value: *value },
        }
    }
}

/// A signed number as the unsigned number with the same bits.
pub open spec fn same_bits(n: i32) -> nat {
    if n < 0 {
        (n + 0x1_0000_0000) as nat
    } else {
        n as nat
    }
}

impl CheckpointFault<Seq<char>> {
    /// The fault in words.
    pub open spec fn message(self) -> Seq<char> {
        match self {
            CheckpointFault::EndOfData(end) => "Checkpoint header ends early: "@ + text::decimal(end.available as nat)
                + " bytes left"@,
            CheckpointFault::Magic(found) => "Invalid checkpoint magic number: expected 0x616a6331, got 0x"@
                + text::hexadecimal(same_bits(found)),
            CheckpointFault::Version(found) => "Unsupported checkpoint version: expected 1 or 2, got "@
                + text::signed_decimal(found as int),
            CheckpointFault::NotPositive { name, value } => "Invalid "@ + name + ": must be positive, got "@
                + text::signed_decimal(value as int),
            CheckpointFault::Negative { name, value } => "Invalid "@ + name + ": must not be negative, got "@
                + text::signed_decimal(value as int),
        }
    }
}

impl CheckpointFault<String> {
    /// The fault in words.
    pub fn message(&self) -> (text: String)
        ensures
            text@ == self@.message(),
    {
        let mut out = String::new();
        match self {
            CheckpointFault::EndOfData(end) => {
                out.append("Checkpoint header ends early: ");
                text::push_decimal(&mut out, end.available as u64);
                out.append(" bytes left");
            },
            CheckpointFault::Magic(found) => {
                out.append("Invalid checkpoint magic number: expected 0x616a6331, got 0x");
                let found: i32 = *found;
                let bits: u32 = #[verifier::truncate] (found as u32);
                assert(found < 0 ==> bits == found + 0x1_0000_0000) by (bit_vector)
                    requires
                        bits == found as u32,
                ;
                text::push_hexadecimal(&mut out, bits);
            },
            CheckpointFault::Version(found) => {
                out.append("Unsupported checkpoint version: expected 1 or 2, got ");
                text::push_signed_decimal(&mut out, *found);
            },
            CheckpointFault::NotPositive { name, value } => {
                out.append("Invalid ");
                out.append(name.as_str());
                out.append(": must be positive, got ");
                text::push_signed_decimal(&mut out, *value);
            },
            CheckpointFault::Negative { name, value } => {
                out.append("Invalid ");
                out.append(name.as_str());
                out.append(": must not be negative, got ");
                text::push_signed_decimal(&mut out, *value);
            },
        }
        assert(out@ =~= self@.message());
        out
    }
}

/// The named numbers of a list.
pub open spec fn named_dims(dims: Seq<(&str, i32)>) -> Seq<(Seq<char>, i32)> {
    Seq::new(dims.len(), |i: int| (dims[i].0@, dims[i].1))
}

/// The first of the named numbers that is below `least`.
pub open spec fn first_below(dims: Seq<(Seq<char>, i32)>, least: i32) -> Option<(Seq<char>, i32)>
    decreases dims.len(),
{
    if dims.len() == 0 {
        None
    } else if dims[0].1 < least {
        Some(dims[0])
    } else {
        first_below(dims.skip(1), least)
    }
}

/// The four-byte number with the given place among the fields.
pub open spec fn field(fields: Seq<u8>, place: int) -> i32 {
    bytes::le_i32(fields.skip(4 * place))
}

/// The fields that have to be positive, in the order in which they are looked at.
pub open spec fn positive_dims(fields: Seq<u8>) -> Seq<(Seq<char>, i32)> {
    seq![
        ("architecture_id"@, field(fields, 0)),
        ("dim"@, field(fields, 1)),
        ("n_layers"@, field(fields, 3)),
        ("n_heads"@, field(fields, 4)),
        ("n_kv_heads"@, field(fields, 5)),
        ("vocab_size"@, field(fields, 6)),
        ("seq_len"@, field(fields, 7)),
        ("head_dim"@, field(fields, 8)),
    ]
}

/// The sizes that may be zero but not negative, in the order of the header. Only version 2 has all
/// of them.
pub open spec fn plain_sizes(fields: Seq<u8>, extended: bool) -> Seq<(Seq<char>, i32)> {
    let common = seq![("hidden_dim"@, field(fields, 2)), ("group_size"@, field(fields, 10))];
    if extended {
        common + seq![
            ("rotary_dim"@, field(fields, 13)),
            ("n_linear_k_heads"@, field(fields, 14)),
            ("n_linear_v_heads"@, field(fields, 15)),
            ("linear_k_head_dim"@, field(fields, 16)),
            ("linear_v_head_dim"@, field(fields, 17)),
            ("conv_kernel_size"@, field(fields, 18)),
        ]
    } else {
        common
    }
}

/// The first thing that is wrong with the numbers of a header.
pub open spec fn size_fault(fields: Seq<u8>, extended: bool) -> Option<CheckpointFault<Seq<char>>> {
    match first_below(positive_dims(fields), 1) {
        Some((name, value)) => Some(CheckpointFault::NotPositive { name, value }),
        None => match first_below(plain_sizes(fields, extended), 0) {
            Some((name, value)) => Some(CheckpointFault::Negative { name, value }),
            None => None,
        },
    }
}

/// The configuration in the fields that both versions share.
pub open spec fn common_config(fields: Seq<u8>, v2: Option<ModelConfigV2>) -> ModelConfig {
    ModelConfig {
        architecture_id: field(fields, 0) as usize,
        dim: field(fields, 1) as usize,
        hidden_dim: field(fields, 2) as usize,
        n_layers: field(fields, 3) as usize,
        n_heads: field(fields, 4) as usize,
        n_kv_heads: field(fields, 5) as usize,
        vocab_size: field(fields, 6) as usize,
        seq_len: field(fields, 7) as usize,
        head_dim: field(fields, 8) as usize,
        shared_classifier: field(fields, 9) != 0,
        group_size: field(fields, 10) as usize,
        v2,
    }
}

/// The configuration in the fields that only version 2 has.
pub open spec fn extended_config(fields: Seq<u8>) -> ModelConfigV2 {
    ModelConfigV2 {
        norm_eps: bytes::le_u32(fields.skip(44)),
        rope_theta: bytes::le_u32(fields.skip(48)),
        rotary_dim: field(fields, 13) as usize,
        n_linear_k_heads: field(fields, 14) as usize,
        n_linear_v_heads: field(fields, 15) as usize,
        linear_k_head_dim: field(fields, 16) as usize,
        linear_v_head_dim: field(fields, 17) as usize,
        conv_kernel_size: field(fields, 18) as usize,
        full_attention_mask: bytes::le_u64(fields.skip(76)),
        model_eos: bytes::le_u32(fields.skip(84)),
        chat_eos: bytes::le_u32(fields.skip(88)),
    }
}

/// The outcome of reading: the configuration or the fault, and how many bytes were read.
pub type Reading = (Result<ModelConfig, CheckpointFault<Seq<char>>>, nat);

/// What the bytes behind magic number and version denote, where `size` is the size of the
/// configuration and `config` what its fields say where nothing is wrong with them.
pub open spec fn fields_reading(rest: Seq<u8>, size: nat, config: ModelConfig) -> Reading {
    let fields = (size - 8) as nat;
    if rest.len() < fields {
        (Err(CheckpointFault::EndOfData(EndOfData { available: rest.len() as usize })), 0)
    } else {
        match size_fault(rest, config.v2 is Some) {
            Some(fault) => (Err(fault), fields),
            None => if rest.len() < HEADER_SIZE - 8 {
                (
                    Err(CheckpointFault::EndOfData(EndOfData { available: (rest.len() - fields) as usize })),
                    fields,
                )
            } else {
                (Ok(config), (HEADER_SIZE - 8) as nat)
            },
        }
    }
}

/// What the bytes behind magic number and version denote in version 1.
pub open spec fn v1_reading(rest: Seq<u8>) -> Reading {
    fields_reading(rest, CONFIG_V1_SIZE as nat, common_config(rest, None))
}

/// What the bytes behind magic number and version denote in version 2.
pub open spec fn v2_reading(rest: Seq<u8>) -> Reading {
    fields_reading(rest, CONFIG_V2_SIZE as nat, common_config(rest, Some(extended_config(rest))))
}

/// What the bytes at the start of a checkpoint denote.
pub open spec fn header_reading(rest: Seq<u8>) -> Reading {
    if rest.len() < 8 {
        (Err(CheckpointFault::EndOfData(EndOfData { available: rest.len() as usize })), 0)
    } else if bytes::le_i32(rest) != CHECKPOINT_MAGIC {
        (Err(CheckpointFault::Magic(bytes::le_i32(rest))), 8)
    } else if field(rest, 1) == 1 {
        let reading = v1_reading(rest.skip(8));
        (reading.0, reading.1 + 8)
    } else if field(rest, 1) == 2 {
        let reading = v2_reading(rest.skip(8));
        (reading.0, reading.1 + 8)
    } else {
        (Err(CheckpointFault::Version(field(rest, 1))), 8)
    }
}

/// Whether an outcome is what the reading says.
pub open spec fn reads_as(result: Result<ModelConfig, CheckpointError>, reading: Reading) -> bool {
    match result {
        Ok(config) => reading.0 == Ok::<ModelConfig, CheckpointFault<Seq<char>>>(config),
        Err(fault) => reading.0 == Err::<ModelConfig, CheckpointFault<Seq<char>>>(fault@),
    }
}

fn i32_at(fields: &[u8], at: usize) -> (value: i32)
    requires
        at + 4 <= fields@.len(),
    ensures
        value == bytes::le_i32(fields@.skip(at as int)),
{
    let tail: &[u8] = slice_subrange(fields, at, fields.len());
    assert(tail@ =~= fields@.skip(at as int));
    bytes::read_i32(tail).unwrap()
}

fn u32_at(fields: &[u8], at: usize) -> (value: u32)
    requires
        at + 4 <= fields@.len(),
    ensures
        value == bytes::le_u32(fields@.skip(at as int)),
{
    let tail: &[u8] = slice_subrange(fields, at, fields.len());
    assert(tail@ =~= fields@.skip(at as int));
    bytes::read_u32(tail).unwrap()
}

fn u64_at(fields: &[u8], at: usize) -> (value: u64)
    requires
        at + 8 <= fields@.len(),
    ensures
        value == bytes::le_u64(fields@.skip(at as int)),
{
    let tail: &[u8] = slice_subrange(fields, at, fields.len());
    assert(tail@ =~= fields@.skip(at as int));
    bytes::read_u64(tail).unwrap()
}

/// The first of the named numbers that is below `least`.
fn find_below<'a>(dims: &[(&'a str, i32)], least: i32) -> (found: Option<(&'a str, i32)>)
    ensures
        match found {
            Some((name, value)) => first_below(named_dims(dims@), least) == Some((name@, value)),
            None => first_below(named_dims(dims@), least) is None,
        },
{
    let ghost named = named_dims(dims@);
    assert(named.skip(0) =~= named);
    for i in 0..dims.len()
        invariant
            named == named_dims(dims@),
            first_below(named, least) == first_below(named.skip(i as int), least),
    {
        let (name, value): (&'a str, i32) = dims[i];
        assert(named.skip(i as int)[0] == (name@, value));
        if value < least {
            return Some((name, value));
        }
        assert(named.skip(i as int).skip(1) =~= named.skip(i + 1));
    }
    None
}

/// Refuses a list of named numbers unless all of them are positive.
pub fn validate_positive_dims(dims: &[(&str, i32)]) -> (result: Result<(), CheckpointError>)
    ensures
        match result {
            Ok(_) => first_below(named_dims(dims@), 1) is None,
            Err(fault) => match first_below(named_dims(dims@), 1) {
                Some((name, value)) => fault@ == (CheckpointFault::NotPositive { name, value }),
                None => false,
            },
        },
{
    match find_below(dims, 1) {
        Some((name, value)) => Err(CheckpointFault::NotPositive { name: name.to_owned(), value }),
        None => Ok(()),
    }
}

/// Refuses a list of named sizes if one of them is negative.
pub fn validate_sizes(sizes: &[(&str, i32)]) -> (result: Result<(), CheckpointError>)
    ensures
        match result {
            Ok(_) => first_below(named_dims(sizes@), 0) is None,
            Err(fault) => match first_below(named_dims(sizes@), 0) {
                Some((name, value)) => fault@ == (CheckpointFault::Negative { name, value }),
                None => false,
            },
        },
{
    match find_below(sizes, 0) {
        Some((name, value)) => Err(CheckpointFault::Negative { name: name.to_owned(), value }),
        None => Ok(()),
    }
}

proof fn lemma_none_below(dims: Seq<(Seq<char>, i32)>, least: i32)
    ensures
        first_below(dims, least) is None <==> forall|i: int| 0 <= i < dims.len() ==> (#[trigger] dims[i]).1 >= least,
    decreases dims.len(),
{
    if dims.len() > 0 {
        lemma_none_below(dims.skip(1), least);
        if first_below(dims, least) is None {
            assert forall|i: int| 0 <= i < dims.len() implies (#[trigger] dims[i]).1 >= least by {
                if i > 0 {
                    assert(dims.skip(1)[i - 1] == dims[i]);
                }
            }
        }
        if forall|i: int| 0 <= i < dims.len() ==> (#[trigger] dims[i]).1 >= least {
            assert forall|i: int| 0 <= i < dims.skip(1).len() implies (#[trigger] dims.skip(1)[i]).1 >= least by {
                assert(dims.skip(1)[i] == dims[i + 1]);
            }
        }
    }
}

proof fn lemma_prefix_numbers(rest: Seq<u8>, count: int, at: int)
    requires
        0 <= at,
        count <= rest.len(),
    ensures
        at + 4 <= count ==> bytes::le_u32(rest.take(count).skip(at)) == bytes::le_u32(rest.skip(at)),
        at + 4 <= count ==> bytes::le_i32(rest.take(count).skip(at)) == bytes::le_i32(rest.skip(at)),
        at + 8 <= count ==> bytes::le_u64(rest.take(count).skip(at)) == bytes::le_u64(rest.skip(at)),
    decreases count - at,
{
    if at + 8 <= count {
        lemma_prefix_numbers(rest, count, at + 4);
        assert(rest.skip(at).skip(4) =~= rest.skip(at + 4));
        assert(rest.take(count).skip(at).skip(4) =~= rest.take(count).skip(at + 4));
    }
}

/// The fields have the numbers of the bytes that they start.
spec fn starts(fields: Seq<u8>, rest: Seq<u8>) -> bool {
    &&& fields.len() <= rest.len()
    &&& fields == rest.take(fields.len() as int)
}

proof fn lemma_fields(fields: Seq<u8>, rest: Seq<u8>)
    requires
        starts(fields, rest),
    ensures
        forall|place: int|
            0 <= place && 4 * place + 4 <= fields.len() ==> #[trigger] field(fields, place) == field(rest, place),
{
    assert forall|place: int| 0 <= place && 4 * place + 4 <= fields.len() implies #[trigger] field(fields, place)
        == field(rest, place) by {
        lemma_prefix_numbers(rest, fields.len() as int, 4 * place);
    }
}

/// The number with the given place among the fields.
fn field_at(fields: &[u8], place: usize) -> (value: i32)
    requires
        4 * place + 4 <= fields@.len(),
        place < 64,
    ensures
        value == field(fields@, place as int),
{
    i32_at(fields, 4 * place)
}

/// Refuses fields with numbers that are no dimensions.
fn check_fields(fields: &[u8], extended: bool, Ghost(rest): Ghost<Seq<u8>>) -> (result: Result<(), CheckpointError>)
    requires
        44 <= fields@.len(),
        extended ==> 92 <= fields@.len(),
        starts(fields@, rest),
    ensures
        match result {
            Ok(_) => size_fault(rest, extended) is None,
            Err(fault) => size_fault(rest, extended) == Some(fault@),
        },
{
    proof {
        lemma_fields(fields@, rest);
    }
    let dims: [(&str, i32); 8] = [
        ("architecture_id", field_at(fields, 0)),
        ("dim", field_at(fields, 1)),
        ("n_layers", field_at(fields, 3)),
        ("n_heads", field_at(fields, 4)),
        ("n_kv_heads", field_at(fields, 5)),
        ("vocab_size", field_at(fields, 6)),
        ("seq_len", field_at(fields, 7)),
        ("head_dim", field_at(fields, 8)),
    ];
    assert(named_dims(dims@) =~= positive_dims(rest));
    match validate_positive_dims(&dims) {
        Ok(_) => {},
        Err(fault) => {
            return Err(fault);
        },
    }
    if !extended {
        let sizes: [(&str, i32); 2] = [("hidden_dim", field_at(fields, 2)), ("group_size", field_at(fields, 10))];
        assert(named_dims(sizes@) =~= plain_sizes(rest, false));
        return validate_sizes(&sizes);
    }
    let sizes: [(&str, i32); 8] = [
        ("hidden_dim", field_at(fields, 2)),
        ("group_size", field_at(fields, 10)),
        ("rotary_dim", field_at(fields, 13)),
        ("n_linear_k_heads", field_at(fields, 14)),
        ("n_linear_v_heads", field_at(fields, 15)),
        ("linear_k_head_dim", field_at(fields, 16)),
        ("linear_v_head_dim", field_at(fields, 17)),
        ("conv_kernel_size", field_at(fields, 18)),
    ];
    assert(named_dims(sizes@) =~= plain_sizes(rest, true));
    validate_sizes(&sizes)
}

/// In a header with which nothing is wrong no size is negative.
pub proof fn law_accepted_sizes_are_their_words(rest: Seq<u8>, extended: bool, place: int)
    requires
        size_fault(rest, extended) is None,
        0 <= place < 11 || (extended && 13 <= place < 19),
        place != 9,
    ensures
        field(rest, place) >= 0,
        (field(rest, place) as usize) == field(rest, place),
{
    lemma_none_below(positive_dims(rest), 1);
    lemma_none_below(plain_sizes(rest, extended), 0);
    let dims = positive_dims(rest);
    let sizes = plain_sizes(rest, extended);
    assert(dims[0].1 >= 1 && dims[1].1 >= 1 && dims[2].1 >= 1 && dims[3].1 >= 1);
    assert(dims[4].1 >= 1 && dims[5].1 >= 1 && dims[6].1 >= 1 && dims[7].1 >= 1);
    assert(sizes[0].1 >= 0 && sizes[1].1 >= 0);
    if extended {
        assert(sizes[2].1 >= 0 && sizes[3].1 >= 0 && sizes[4].1 >= 0);
        assert(sizes[5].1 >= 0 && sizes[6].1 >= 0 && sizes[7].1 >= 0);
    }
}

/// A number among the fields as a size.
fn size_at(fields: &[u8], place: usize, extended: bool, Ghost(rest): Ghost<Seq<u8>>) -> (size: usize)
    requires
        4 * place + 4 <= fields@.len(),
        starts(fields@, rest),
        size_fault(rest, extended) is None,
        place < 11 || (extended && 13 <= place < 19),
        place != 9,
    ensures
        size == field(rest, place as int),
        size == field(rest, place as int) as usize,
{
    proof {
        lemma_fields(fields@, rest);
        law_accepted_sizes_are_their_words(rest, extended, place as int);
    }
    field_at(fields, place) as usize
}

/// The configuration in the common fields.
fn read_common(fields: &[u8], extended: bool, Ghost(rest): Ghost<Seq<u8>>, v2: Option<ModelConfigV2>) -> (config:
    ModelConfig)
    requires
        44 <= fields@.len(),
        starts(fields@, rest),
        size_fault(rest, extended) is None,
    ensures
        config == common_config(rest, v2),
{
    proof {
        lemma_fields(fields@, rest);
    }
    ModelConfig {
        architecture_id: size_at(fields, 0, extended, Ghost(rest)),
        dim: size_at(fields, 1, extended, Ghost(rest)),
        hidden_dim: size_at(fields, 2, extended, Ghost(rest)),
        n_layers: size_at(fields, 3, extended, Ghost(rest)),
        n_heads: size_at(fields, 4, extended, Ghost(rest)),
        n_kv_heads: size_at(fields, 5, extended, Ghost(rest)),
        head_dim: size_at(fields, 8, extended, Ghost(rest)),
        seq_len: size_at(fields, 7, extended, Ghost(rest)),
        vocab_size: size_at(fields, 6, extended, Ghost(rest)),
        group_size: size_at(fields, 10, extended, Ghost(rest)),
        shared_classifier: field_at(fields, 9) != 0,
        v2,
    }
}

/// The configuration in the fields that only version 2 has.
fn read_extended(fields: &[u8], Ghost(rest): Ghost<Seq<u8>>) -> (v2: ModelConfigV2)
    requires
        fields@.len() == 92,
        starts(fields@, rest),
        size_fault(rest, true) is None,
    ensures
        v2 == extended_config(rest),
{
    proof {
        lemma_prefix_numbers(rest, 92, 44);
        lemma_prefix_numbers(rest, 92, 48);
        lemma_prefix_numbers(rest, 92, 76);
        lemma_prefix_numbers(rest, 92, 84);
        lemma_prefix_numbers(rest, 92, 88);
    }
    ModelConfigV2 {
        norm_eps: u32_at(fields, 44),
        rope_theta: u32_at(fields, 48),
        rotary_dim: size_at(fields, 13, true, Ghost(rest)),
        n_linear_k_heads: size_at(fields, 14, true, Ghost(rest)),
        n_linear_v_heads: size_at(fields, 15, true, Ghost(rest)),
        linear_k_head_dim: size_at(fields, 16, true, Ghost(rest)),
        linear_v_head_dim: size_at(fields, 17, true, Ghost(rest)),
        conv_kernel_size: size_at(fields, 18, true, Ghost(rest)),
        full_attention_mask: u64_at(fields, 76),
        model_eos: u32_at(fields, 84),
        chat_eos: u32_at(fields, 88),
    }
}

/// Reads the part of a version 1 header that follows magic number and version.
pub fn read_config_v1(mapper: &mut MemoryMapper<'_>) -> (result: Result<ModelConfig, CheckpointError>)
    ensures
        reads_as(result, v1_reading(old(mapper)@.rest())),
        final(mapper)@ == old(mapper)@.advanced(v1_reading(old(mapper)@.rest()).1),
{
    let ghost rest = mapper@.rest();
    let fields: &[u8] = match mapper.get_bytes(CONFIG_V1_SIZE - 8) {
        Ok(fields) => fields,
        Err(end) => {
            return Err(CheckpointFault::EndOfData(end));
        },
    };
    match check_fields(fields, false, Ghost(rest)) {
        Ok(_) => {},
        Err(fault) => {
            return Err(fault);
        },
    }
    let config: ModelConfig = read_common(fields, false, Ghost(rest), None);
    match mapper.skip(HEADER_SIZE - CONFIG_V1_SIZE) {
        Ok(_) => Ok(config),
        Err(end) => Err(CheckpointFault::EndOfData(end)),
    }
}

/// Reads the part of a version 2 header that follows magic number and version.
pub fn read_config_v2(mapper: &mut MemoryMapper<'_>) -> (result: Result<ModelConfig, CheckpointError>)
    ensures
        reads_as(result, v2_reading(old(mapper)@.rest())),
        final(mapper)@ == old(mapper)@.advanced(v2_reading(old(mapper)@.rest()).1),
{
    let ghost rest = mapper@.rest();
    let fields: &[u8] = match mapper.get_bytes(CONFIG_V2_SIZE - 8) {
        Ok(fields) => fields,
        Err(end) => {
            return Err(CheckpointFault::EndOfData(end));
        },
    };
    match check_fields(fields, true, Ghost(rest)) {
        Ok(_) => {},
        Err(fault) => {
            return Err(fault);
        },
    }
    let v2: ModelConfigV2 = read_extended(fields, Ghost(rest));
    let config: ModelConfig = read_common(fields, true, Ghost(rest), Some(v2));
    match mapper.skip(HEADER_SIZE - CONFIG_V2_SIZE) {
        Ok(_) => Ok(config),
        Err(end) => Err(CheckpointFault::EndOfData(end)),
    }
}

/// Reads and validates the model configuration at the start of a checkpoint.
///
/// Versions 1 and 2 of the header are supported.
pub fn read_config(mapper: &mut MemoryMapper<'_>) -> (result: Result<ModelConfig, CheckpointError>)
    ensures
        reads_as(result, header_reading(old(mapper)@.rest())),
        final(mapper)@ == old(mapper)@.advanced(header_reading(old(mapper)@.rest()).1),
{
    let ghost rest = mapper@.rest();
    let head: &[u8] = match mapper.get_bytes(8) {
        Ok(head) => head,
        Err(end) => {
            return Err(CheckpointFault::EndOfData(end));
        },
    };
    let magic_number: i32 = i32_at(head, 0);
    let version: i32 = i32_at(head, 4);
    proof {
        lemma_prefix_numbers(rest, 8, 0);
        lemma_prefix_numbers(rest, 8, 4);
        assert(rest.skip(0) =~= rest);
        assert(mapper@.rest() =~= rest.skip(8));
    }
    if magic_number != CHECKPOINT_MAGIC {
        return Err(CheckpointFault::Magic(magic_number));
    }
    match version {
        1 => read_config_v1(mapper),
        2 => read_config_v2(mapper),
        other => Err(CheckpointFault::Version(other)),
    }
}

/// The numbers of a header as words of four bytes, magic number and version first.
pub open spec fn header_words(config: ModelConfig) -> Seq<u32> {
    let common = seq![
        CHECKPOINT_MAGIC as u32,
        if config.v2 is Some { 2u32 } else { 1u32 },
        config.architecture_id as u32,
        config.dim as u32,
        config.hidden_dim as u32,
        config.n_layers as u32,
        config.n_heads as u32,
        config.n_kv_heads as u32,
        config.vocab_size as u32,
        config.seq_len as u32,
        config.head_dim as u32,
        if config.shared_classifier { 1u32 } else { 0u32 },
        config.group_size as u32,
    ];
    match config.v2 {
        None => common,
        Some(v2) => common + seq![
            v2.norm_eps,
            v2.rope_theta,
            v2.rotary_dim as u32,
            v2.n_linear_k_heads as u32,
            v2.n_linear_v_heads as u32,
            v2.linear_k_head_dim as u32,
            v2.linear_v_head_dim as u32,
            v2.conv_kernel_size as u32,
            (v2.full_attention_mask % 0x1_0000_0000) as u32,
            (v2.full_attention_mask / 0x1_0000_0000) as u32,
            v2.model_eos,
            v2.chat_eos,
        ],
    }
}

/// Words as bytes, the lowest byte of each first.
pub open spec fn word_bytes(words: Seq<u32>) -> Seq<u8> {
    Seq::new(
        4 * words.len(),
        |i: int|
            {
                let word = words[i / 4];
                if i % 4 == 0 {
                    (word % 0x100) as u8
                } else if i % 4 == 1 {
                    (word / 0x100 % 0x100) as u8
                } else if i % 4 == 2 {
                    (word / 0x1_0000 % 0x100) as u8
                } else {
                    (word / 0x100_0000) as u8
                }
            },
    )
}

/// Whether a size can be written as a non-negative number of four bytes.
pub open spec fn fits_word(n: usize) -> bool {
    n <= i32::MAX
}

/// Whether a configuration can be written in a header.
pub open spec fn writable(config: ModelConfig) -> bool {
    &&& fits_word(config.architecture_id) && config.architecture_id > 0
    &&& fits_word(config.dim) && config.dim > 0
    &&& fits_word(config.hidden_dim)
    &&& fits_word(config.n_layers) && config.n_layers > 0
    &&& fits_word(config.n_heads) && config.n_heads > 0
    &&& fits_word(config.n_kv_heads) && config.n_kv_heads > 0
    &&& fits_word(config.vocab_size) && config.vocab_size > 0
    &&& fits_word(config.seq_len) && config.seq_len > 0
    &&& fits_word(config.head_dim) && config.head_dim > 0
    &&& fits_word(config.group_size)
    &&& match config.v2 {
        None => true,
        Some(v2) => {
            &&& fits_word(v2.rotary_dim)
            &&& fits_word(v2.n_linear_k_heads)
            &&& fits_word(v2.n_linear_v_heads)
            &&& fits_word(v2.linear_k_head_dim)
            &&& fits_word(v2.linear_v_head_dim)
            &&& fits_word(v2.conv_kernel_size)
        },
    }
}

spec fn word_at(s: Seq<u8>, k: int) -> u32 {
    bytes::le_u32(s.skip(4 * k))
}

proof fn lemma_word_read_back(words: Seq<u32>, header: Seq<u8>, k: int)
    requires
        0 <= k < words.len(),
        4 * words.len() <= header.len(),
        header.take(4 * words.len() as int) == word_bytes(words),
    ensures
        bytes::le_u32(header.skip(4 * k)) == words[k],
{
    let written = word_bytes(words);
    assert(header[4 * k] == written[4 * k]) by {
        assert(header.take(4 * words.len() as int)[4 * k] == header[4 * k]);
    }
    assert(header[4 * k + 1] == written[4 * k + 1]) by {
        assert(header.take(4 * words.len() as int)[4 * k + 1] == header[4 * k + 1]);
    }
    assert(header[4 * k + 2] == written[4 * k + 2]) by {
        assert(header.take(4 * words.len() as int)[4 * k + 2] == header[4 * k + 2]);
    }
    assert(header[4 * k + 3] == written[4 * k + 3]) by {
        assert(header.take(4 * words.len() as int)[4 * k + 3] == header[4 * k + 3]);
    }
    let w = words[k];
    assert((4 * k) / 4 == k && (4 * k + 1) / 4 == k && (4 * k + 2) / 4 == k && (4 * k + 3) / 4 == k);
}

proof fn lemma_words_read_back(words: Seq<u32>, header: Seq<u8>)
    requires
        2 <= words.len(),
        4 * words.len() <= header.len(),
        header.take(4 * words.len() as int) == word_bytes(words),
    ensures
        bytes::le_u32(header) == words[0],
        word_at(header, 1) == words[1],
        forall|k: int| 0 <= k < words.len() - 2 ==> #[trigger] word_at(header.skip(8), k) == words[k + 2],
{
    let rest = header.skip(8);
    assert forall|k: int| 0 <= k < words.len() - 2 implies #[trigger] word_at(rest, k) == words[k + 2] by {
        lemma_word_read_back(words, header, k + 2);
        assert(rest.skip(4 * k) =~= header.skip(4 * (k + 2)));
    }
    lemma_word_read_back(words, header, 0);
    lemma_word_read_back(words, header, 1);
    assert(header.skip(0) =~= header);
}

proof fn lemma_field_of_word(rest: Seq<u8>, place: int, n: usize)
    requires
        fits_word(n),
        word_at(rest, place) == n as u32,
    ensures
        field(rest, place) == n,
{
}

proof fn lemma_common_words(config: ModelConfig, rest: Seq<u8>)
    requires
        writable(config),
        forall|k: int| 0 <= k < 11 ==> #[trigger] word_at(rest, k) == header_words(config)[k + 2],
    ensures
        first_below(positive_dims(rest), 1) is None,
        first_below(plain_sizes(rest, false), 0) is None,
        common_config(rest, config.v2) == config,
{
    let words = header_words(config);
    assert(words[2] == config.architecture_id as u32);
    assert(words[3] == config.dim as u32);
    assert(words[4] == config.hidden_dim as u32);
    assert(words[5] == config.n_layers as u32);
    assert(words[6] == config.n_heads as u32);
    assert(words[7] == config.n_kv_heads as u32);
    assert(words[8] == config.vocab_size as u32);
    assert(words[9] == config.seq_len as u32);
    assert(words[10] == config.head_dim as u32);
    assert(words[11] == if config.shared_classifier { 1u32 } else { 0u32 });
    assert(words[12] == config.group_size as u32);
    lemma_field_of_word(rest, 0, config.architecture_id);
    lemma_field_of_word(rest, 1, config.dim);
    lemma_field_of_word(rest, 2, config.hidden_dim);
    lemma_field_of_word(rest, 3, config.n_layers);
    lemma_field_of_word(rest, 4, config.n_heads);
    lemma_field_of_word(rest, 5, config.n_kv_heads);
    lemma_field_of_word(rest, 6, config.vocab_size);
    lemma_field_of_word(rest, 7, config.seq_len);
    lemma_field_of_word(rest, 8, config.head_dim);
    lemma_field_of_word(rest, 9, if config.shared_classifier { 1 } else { 0 });
    lemma_field_of_word(rest, 10, config.group_size);
    assert(common_config(rest, config.v2) == config);
    let dims = positive_dims(rest);
    assert(forall|i: int| 0 <= i < dims.len() ==> (#[trigger] dims[i]).1 > 0);
    lemma_none_below(dims, 1);
    lemma_none_below(plain_sizes(rest, false), 0);
}

proof fn lemma_extended_words(config: ModelConfig, v2: ModelConfigV2, rest: Seq<u8>)
    requires
        writable(config),
        config.v2 == Some(v2),
        rest.len() >= 92,
        forall|k: int| 0 <= k < 23 ==> #[trigger] word_at(rest, k) == header_words(config)[k + 2],
    ensures
        extended_config(rest) == v2,
        first_below(positive_dims(rest), 1) is None ==> size_fault(rest, true) is None,
{
    let words = header_words(config);
    assert(words[13] == v2.norm_eps);
    assert(words[14] == v2.rope_theta);
    assert(words[15] == v2.rotary_dim as u32);
    assert(words[16] == v2.n_linear_k_heads as u32);
    assert(words[17] == v2.n_linear_v_heads as u32);
    assert(words[18] == v2.linear_k_head_dim as u32);
    assert(words[19] == v2.linear_v_head_dim as u32);
    assert(words[20] == v2.conv_kernel_size as u32);
    assert(words[21] == (v2.full_attention_mask % 0x1_0000_0000) as u32);
    assert(words[22] == (v2.full_attention_mask / 0x1_0000_0000) as u32);
    assert(words[23] == v2.model_eos);
    assert(words[24] == v2.chat_eos);
    lemma_field_of_word(rest, 13, v2.rotary_dim);
    lemma_field_of_word(rest, 14, v2.n_linear_k_heads);
    lemma_field_of_word(rest, 15, v2.n_linear_v_heads);
    lemma_field_of_word(rest, 16, v2.linear_k_head_dim);
    lemma_field_of_word(rest, 17, v2.linear_v_head_dim);
    lemma_field_of_word(rest, 18, v2.conv_kernel_size);
    assert(word_at(rest, 11) == v2.norm_eps);
    assert(word_at(rest, 12) == v2.rope_theta);
    assert(word_at(rest, 19) == words[21]);
    assert(word_at(rest, 20) == words[22]);
    assert(rest.skip(76).skip(4) =~= rest.skip(80));
    assert(word_at(rest, 21) == v2.model_eos);
    assert(word_at(rest, 22) == v2.chat_eos);
    assert(words[4] == config.hidden_dim as u32);
    assert(words[12] == config.group_size as u32);
    assert(word_at(rest, 2) == words[4]);
    assert(word_at(rest, 10) == words[12]);
    lemma_field_of_word(rest, 2, config.hidden_dim);
    lemma_field_of_word(rest, 10, config.group_size);
    lemma_none_below(plain_sizes(rest, true), 0);
}

/// A header that starts with the words of a configuration reads back as that configuration,
/// whatever its padding and whatever follows it, and reading it takes exactly the 256 bytes.
pub proof fn law_header_reads_back(config: ModelConfig, header: Seq<u8>)
    requires
        writable(config),
        header.len() >= HEADER_SIZE,
        header.take(4 * header_words(config).len() as int) == word_bytes(header_words(config)),
    ensures
        header_reading(header) == (Ok::<ModelConfig, CheckpointFault<Seq<char>>>(config), HEADER_SIZE as nat),
{
    let words = header_words(config);
    let rest = header.skip(8);
    lemma_words_read_back(words, header);
    assert(words[0] == CHECKPOINT_MAGIC as u32);
    assert(words[1] == if config.v2 is Some { 2u32 } else { 1u32 });
    lemma_common_words(config, rest);
    if let Some(v2) = config.v2 {
        lemma_extended_words(config, v2, rest);
    }
}

/// The number at the given word of a header: the bytes of the word, the lowest one first.
pub open spec fn header_number(header: Seq<u8>, word: int) -> int {
    header[4 * word] + 0x100 * header[4 * word + 1] + 0x1_0000 * header[4 * word + 2] + 0x100_0000 * header[4 * word + 3]
}

/// The number at the given word of a header, in two's complement.
pub open spec fn signed_number(header: Seq<u8>, word: int) -> int {
    if header_number(header, word) < 0x8000_0000 {
        header_number(header, word)
    } else {
        header_number(header, word) - 0x1_0000_0000
    }
}

/// Whether the number at a word is positive.
pub open spec fn positive_at(header: Seq<u8>, word: int) -> bool {
    signed_number(header, word) > 0
}

/// Whether the number at a word is not negative.
pub open spec fn whole_at(header: Seq<u8>, word: int) -> bool {
    signed_number(header, word) >= 0
}

proof fn lemma_header_fields(header: Seq<u8>)
    requires
        header.len() >= 8,
    ensures
        bytes::le_i32(header) == signed_number(header, 0),
        field(header, 1) == signed_number(header, 1),
        forall|place: int|
            0 <= place && 4 * place + 12 <= header.len() ==> #[trigger] field(header.skip(8), place) == signed_number(
                header,
                place + 2,
            ),
        forall|place: int|
            0 <= place && 4 * place + 12 <= header.len() ==> #[trigger] word_at(header.skip(8), place)
                == header_number(header, place + 2),
{
    assert forall|place: int| 0 <= place && 4 * place + 12 <= header.len() implies #[trigger] word_at(
        header.skip(8),
        place,
    ) == header_number(header, place + 2) by {
        assert(header.skip(8).skip(4 * place) =~= header.skip(4 * (place + 2)));
    }
    assert forall|place: int| 0 <= place && 4 * place + 12 <= header.len() implies #[trigger] field(
        header.skip(8),
        place,
    ) == signed_number(header, place + 2) by {
        assert(word_at(header.skip(8), place) == header_number(header, place + 2));
    }
    assert(header.skip(4)[0] == header[4]);
}

/// The first number below the bound is below it, and all before it are not; there is none where none
/// is below it.
pub proof fn law_first_below_is_the_first(dims: Seq<(Seq<char>, i32)>, least: i32) -> (k: int)
    ensures
        match first_below(dims, least) {
            Some(dim) => {
                &&& 0 <= k < dims.len()
                &&& dim == dims[k]
                &&& dim.1 < least
                &&& forall|j: int| 0 <= j < k ==> (#[trigger] dims[j]).1 >= least
            },
            None => forall|j: int| 0 <= j < dims.len() ==> (#[trigger] dims[j]).1 >= least,
        },
    decreases dims.len(),
{
    if dims.len() == 0 || dims[0].1 < least {
        0
    } else {
        let rest = dims.skip(1);
        let k = law_first_below_is_the_first(rest, least);
        assert forall|j: int| 1 <= j < dims.len() implies #[trigger] dims[j] == rest[j - 1] by {}
        if first_below(rest, least) is Some {
            assert(dims[k + 1] == rest[k]);
        }
        k + 1
    }
}

/// The words of the dimensions that have to be positive.
pub open spec fn positive_words() -> Seq<int> {
    seq![2, 3, 5, 6, 7, 8, 9, 10]
}

/// The words of the sizes that must not be negative; the last six only version 2 has.
pub open spec fn whole_words() -> Seq<int> {
    seq![4, 12, 15, 16, 17, 18, 19, 20]
}

proof fn lemma_size_fault(header: Seq<u8>, extended: bool)
    requires
        header.len() >= 52,
        extended ==> header.len() >= 100,
    ensures
        size_fault(header.skip(8), extended) is None <==> {
            &&& forall|k: int| 0 <= k < 8 ==> positive_at(header, #[trigger] positive_words()[k])
            &&& forall|k: int| 0 <= k < 8 && (k < 2 || extended) ==> whole_at(header, #[trigger] whole_words()[k])
        },
{
    let rest = header.skip(8);
    lemma_header_fields(header);
    lemma_none_below(positive_dims(rest), 1);
    lemma_none_below(plain_sizes(rest, extended), 0);
    let dims = positive_dims(rest);
    let sizes = plain_sizes(rest, extended);
    let words = positive_words();
    let wholes = whole_words();
    assert(dims[0].1 == signed_number(header, words[0]));
    assert(dims[1].1 == signed_number(header, words[1]));
    assert(dims[2].1 == signed_number(header, words[2]));
    assert(dims[3].1 == signed_number(header, words[3]));
    assert(dims[4].1 == signed_number(header, words[4]));
    assert(dims[5].1 == signed_number(header, words[5]));
    assert(dims[6].1 == signed_number(header, words[6]));
    assert(dims[7].1 == signed_number(header, words[7]));
    assert(sizes[0].1 == signed_number(header, wholes[0]));
    assert(sizes[1].1 == signed_number(header, wholes[1]));
    if extended {
        assert(sizes[2].1 == signed_number(header, wholes[2]));
        assert(sizes[3].1 == signed_number(header, wholes[3]));
        assert(sizes[4].1 == signed_number(header, wholes[4]));
        assert(sizes[5].1 == signed_number(header, wholes[5]));
        assert(sizes[6].1 == signed_number(header, wholes[6]));
        assert(sizes[7].1 == signed_number(header, wholes[7]));
    }
    assert forall|k: int| 0 <= k < 8 implies dims[k].1 == signed_number(header, #[trigger] words[k]) by {}
    assert forall|k: int| 0 <= k < sizes.len() implies sizes[k].1 == signed_number(header, #[trigger] wholes[k]) by {}
    if size_fault(rest, extended) is None {
        assert forall|k: int| 0 <= k < 8 implies positive_at(header, #[trigger] words[k]) by {
            assert(dims[k].1 >= 1);
        }
        assert forall|k: int| 0 <= k < 8 && (k < 2 || extended) implies whole_at(header, #[trigger] wholes[k]) by {
            assert(sizes[k].1 >= 0);
        }
    }
    if (forall|k: int| 0 <= k < 8 ==> positive_at(header, #[trigger] words[k])) && (forall|k: int|
        0 <= k < 8 && (k < 2 || extended) ==> whole_at(header, #[trigger] wholes[k])) {
        assert forall|k: int| 0 <= k < dims.len() implies (#[trigger] dims[k]).1 >= 1 by {
            assert(positive_at(header, words[k]));
        }
        assert forall|k: int| 0 <= k < sizes.len() implies (#[trigger] sizes[k]).1 >= 0 by {
            assert(whole_at(header, wholes[k]));
        }
    }
}

/// A header is accepted exactly where all of its 256 bytes are there, it begins with the magic
/// number and one of the two versions, its dimensions are positive and its other sizes are not
/// negative. Then all of its bytes were read.
pub proof fn law_what_headers_are_accepted(header: Seq<u8>)
    ensures
        header_reading(header).0 is Ok <==> {
            &&& header.len() >= 256
            &&& signed_number(header, 0) == 0x616a6331
            &&& signed_number(header, 1) == 1 || signed_number(header, 1) == 2
            &&& forall|k: int| 0 <= k < 8 ==> positive_at(header, #[trigger] positive_words()[k])
            &&& forall|k: int|
                0 <= k < 8 && (k < 2 || signed_number(header, 1) == 2) ==> whole_at(header, #[trigger] whole_words()[k])
        },
        header_reading(header).0 is Ok ==> header_reading(header).1 == 256,
        header_reading(header).1 <= header.len(),
{
    if header.len() >= 8 {
        lemma_header_fields(header);
        if header.len() >= 52 {
            lemma_size_fault(header, false);
        }
        if header.len() >= 100 {
            lemma_size_fault(header, true);
        }
    }
}

/// A word that holds a size gives it.
proof fn lemma_size_of_word(header: Seq<u8>, place: int)
    requires
        header.len() >= 12,
        0 <= place,
        4 * place + 12 <= header.len(),
        whole_at(header, place + 2) || positive_at(header, place + 2),
    ensures
        field(header.skip(8), place) as usize == header_number(header, place + 2),
{
    lemma_header_fields(header);
    assert(field(header.skip(8), place) == signed_number(header, place + 2));
}

proof fn lemma_common_numbers(header: Seq<u8>, v2: Option<ModelConfigV2>)
    requires
        header.len() >= 52,
        forall|k: int| 0 <= k < 8 ==> positive_at(header, #[trigger] positive_words()[k]),
        forall|k: int| 0 <= k < 2 ==> whole_at(header, #[trigger] whole_words()[k]),
    ensures
        ({
            let config = common_config(header.skip(8), v2);
            &&& config.architecture_id == header_number(header, 2)
            &&& config.dim == header_number(header, 3)
            &&& config.hidden_dim == header_number(header, 4)
            &&& config.n_layers == header_number(header, 5)
            &&& config.n_heads == header_number(header, 6)
            &&& config.n_kv_heads == header_number(header, 7)
            &&& config.vocab_size == header_number(header, 8)
            &&& config.seq_len == header_number(header, 9)
            &&& config.head_dim == header_number(header, 10)
            &&& config.shared_classifier <==> header_number(header, 11) != 0
            &&& config.group_size == header_number(header, 12)
            &&& config.v2 == v2
        }),
{
    let words = positive_words();
    let wholes = whole_words();
    assert(positive_at(header, words[0]) && positive_at(header, words[1]) && positive_at(header, words[2]));
    assert(positive_at(header, words[3]) && positive_at(header, words[4]) && positive_at(header, words[5]));
    assert(positive_at(header, words[6]) && positive_at(header, words[7]));
    assert(whole_at(header, wholes[0]) && whole_at(header, wholes[1]));
    lemma_size_of_word(header, 0);
    lemma_size_of_word(header, 1);
    lemma_size_of_word(header, 2);
    lemma_size_of_word(header, 3);
    lemma_size_of_word(header, 4);
    lemma_size_of_word(header, 5);
    lemma_size_of_word(header, 6);
    lemma_size_of_word(header, 7);
    lemma_size_of_word(header, 8);
    lemma_size_of_word(header, 10);
    assert(field(header.skip(8), 9) == signed_number(header, 11)) by {
        lemma_header_fields(header);
    }
}

proof fn lemma_extended_numbers(header: Seq<u8>)
    requires
        header.len() >= 100,
        forall|k: int| 0 <= k < 8 ==> whole_at(header, #[trigger] whole_words()[k]),
    ensures
        ({
            let v2 = extended_config(header.skip(8));
            &&& v2.norm_eps == header_number(header, 13)
            &&& v2.rope_theta == header_number(header, 14)
            &&& v2.rotary_dim == header_number(header, 15)
            &&& v2.n_linear_k_heads == header_number(header, 16)
            &&& v2.n_linear_v_heads == header_number(header, 17)
            &&& v2.linear_k_head_dim == header_number(header, 18)
            &&& v2.linear_v_head_dim == header_number(header, 19)
            &&& v2.conv_kernel_size == header_number(header, 20)
            &&& v2.full_attention_mask == header_number(header, 21) + 0x1_0000_0000 * header_number(header, 22)
            &&& v2.model_eos == header_number(header, 23)
            &&& v2.chat_eos == header_number(header, 24)
        }),
{
    let wholes = whole_words();
    let rest = header.skip(8);
    assert(whole_at(header, wholes[2]) && whole_at(header, wholes[3]) && whole_at(header, wholes[4]));
    assert(whole_at(header, wholes[5]) && whole_at(header, wholes[6]) && whole_at(header, wholes[7]));
    lemma_size_of_word(header, 13);
    lemma_size_of_word(header, 14);
    lemma_size_of_word(header, 15);
    lemma_size_of_word(header, 16);
    lemma_size_of_word(header, 17);
    lemma_size_of_word(header, 18);
    assert({
        &&& word_at(rest, 11) == header_number(header, 13)
        &&& word_at(rest, 12) == header_number(header, 14)
        &&& word_at(rest, 19) == header_number(header, 21)
        &&& word_at(rest, 20) == header_number(header, 22)
        &&& word_at(rest, 21) == header_number(header, 23)
        &&& word_at(rest, 22) == header_number(header, 24)
    }) by {
        lemma_header_fields(header);
    }
    assert(rest.skip(76).skip(4) =~= rest.skip(80));
}

/// The configuration of an accepted header has the numbers of its words, each in its own field, and
/// the extension exactly in version 2.
pub proof fn law_accepted_header_gives_its_numbers(header: Seq<u8>, config: ModelConfig)
    requires
        header_reading(header).0 == Ok::<ModelConfig, CheckpointFault<Seq<char>>>(config),
    ensures
        config.architecture_id == header_number(header, 2),
        config.dim == header_number(header, 3),
        config.hidden_dim == header_number(header, 4),
        config.n_layers == header_number(header, 5),
        config.n_heads == header_number(header, 6),
        config.n_kv_heads == header_number(header, 7),
        config.vocab_size == header_number(header, 8),
        config.seq_len == header_number(header, 9),
        config.head_dim == header_number(header, 10),
        config.shared_classifier <==> header_number(header, 11) != 0,
        config.group_size == header_number(header, 12),
        config.v2 is Some <==> header_number(header, 1) == 2,
        config.v2 matches Some(v2) ==> {
            &&& v2.norm_eps == header_number(header, 13)
            &&& v2.rope_theta == header_number(header, 14)
            &&& v2.rotary_dim == header_number(header, 15)
            &&& v2.n_linear_k_heads == header_number(header, 16)
            &&& v2.n_linear_v_heads == header_number(header, 17)
            &&& v2.linear_k_head_dim == header_number(header, 18)
            &&& v2.linear_v_head_dim == header_number(header, 19)
            &&& v2.conv_kernel_size == header_number(header, 20)
            &&& v2.full_attention_mask == header_number(header, 21) + 0x1_0000_0000 * header_number(header, 22)
            &&& v2.model_eos == header_number(header, 23)
            &&& v2.chat_eos == header_number(header, 24)
        },
{
    law_what_headers_are_accepted(header);
    assert(signed_number(header, 1) == 2 <==> header_number(header, 1) == 2);
    assert(field(header, 1) == signed_number(header, 1)) by {
        lemma_header_fields(header);
    }
    let rest = header.skip(8);
    if header_number(header, 1) == 2 {
        lemma_extended_numbers(header);
        lemma_common_numbers(header, Some(extended_config(rest)));
    } else {
        lemma_common_numbers(header, None);
    }
}

/// What the first fault says of the numbers of a header is so.
proof fn lemma_size_faults_are_so(header: Seq<u8>, extended: bool)
    requires
        header.len() >= 52,
        extended ==> header.len() >= 100,
    ensures
        match size_fault(header.skip(8), extended) {
            None => true,
            Some(fault) => small_number(header, fault),
        },
{
    let rest = header.skip(8);
    lemma_header_fields(header);
    let dims = positive_dims(rest);
    let sizes = plain_sizes(rest, extended);
    let words = positive_words();
    let wholes = whole_words();
    let k = law_first_below_is_the_first(dims, 1);
    let l = law_first_below_is_the_first(sizes, 0);
    assert forall|j: int| 0 <= j < 8 implies (#[trigger] dims[j]).1 == signed_number(header, words[j]) by {}
    assert forall|j: int| 0 <= j < sizes.len() implies (#[trigger] sizes[j]).1 == signed_number(header, wholes[j]) by {}
    if first_below(dims, 1) is Some {
        assert(dims[k].0 == positive_names()[k]);
        assert forall|j: int| 0 <= j < k implies positive_at(header, #[trigger] words[j]) by {
            assert(dims[j].1 >= 1);
        }
        assert(positive_up_to(header, k));
        assert(dims[k].1 == signed_number(header, words[k]));
    } else if first_below(sizes, 0) is Some {
        assert(sizes[l].0 == whole_names()[l]);
        assert forall|j: int| 0 <= j < 8 implies positive_at(header, #[trigger] words[j]) by {
            assert(dims[j].1 >= 1);
        }
        assert forall|j: int| 0 <= j < l implies whole_at(header, #[trigger] wholes[j]) by {
            assert(sizes[j].1 >= 0);
        }
        assert(whole_up_to(header, l));
        assert(sizes[l].1 == signed_number(header, wholes[l]));
    }
}

/// Whether a fault names the first number of the header that is too small, with its value. The
/// dimensions that have to be positive are looked at before the other sizes.
pub open spec fn small_number(header: Seq<u8>, fault: CheckpointFault<Seq<char>>) -> bool {
    match fault {
        CheckpointFault::NotPositive { name, value } => value <= 0 && exists|k: int|
            0 <= k < 8 && value == signed_number(header, #[trigger] positive_words()[k]) && name
                == positive_names()[k] && positive_up_to(header, k),
        CheckpointFault::Negative { name, value } => value < 0 && positive_up_to(header, 8) && exists|k: int|
            0 <= k < 8 && value == signed_number(header, #[trigger] whole_words()[k]) && name == whole_names()[k]
                && whole_up_to(header, k),
        _ => false,
    }
}

/// Whether the first `n` dimensions that have to be positive are.
pub open spec fn positive_up_to(header: Seq<u8>, n: int) -> bool {
    forall|j: int| 0 <= j < n ==> positive_at(header, #[trigger] positive_words()[j])
}

/// Whether none of the first `n` other sizes is negative.
pub open spec fn whole_up_to(header: Seq<u8>, n: int) -> bool {
    forall|j: int| 0 <= j < n ==> whole_at(header, #[trigger] whole_words()[j])
}

/// What a fault says of a header is so: how many bytes were left where it ends early, which magic
/// number or version stands there, or which number is too small.
pub proof fn law_header_faults_are_so(header: Seq<u8>)
    requires
        header.len() <= usize::MAX,
    ensures
        match header_reading(header).0 {
            Ok(_) => true,
            Err(CheckpointFault::EndOfData(end)) => {
                &&& header.len() < 256
                &&& end.available == header.len() - header_reading(header).1
                &&& header.len() >= 8 ==> signed_number(header, 0) == 0x616a6331
                &&& header.len() >= 8 ==> signed_number(header, 1) == 1 || signed_number(header, 1) == 2
                &&& header.len() >= 52 && signed_number(header, 1) == 1 ==> positive_up_to(header, 8) && whole_up_to(
                    header,
                    2,
                )
                &&& header.len() >= 100 ==> positive_up_to(header, 8) && whole_up_to(
                    header,
                    if signed_number(header, 1) == 1 {
                        2
                    } else {
                        8
                    },
                )
            },
            Err(CheckpointFault::Magic(found)) => {
                &&& header.len() >= 8
                &&& found == signed_number(header, 0)
                &&& found != 0x616a6331
            },
            Err(CheckpointFault::Version(found)) => {
                &&& header.len() >= 8
                &&& signed_number(header, 0) == 0x616a6331
                &&& found == signed_number(header, 1)
                &&& found != 1
                &&& found != 2
            },
            Err(fault) => small_number(header, fault),
        },
{
    if header.len() >= 8 {
        lemma_header_fields(header);
        if header.len() >= 52 {
            lemma_size_faults_are_so(header, false);
            lemma_size_fault(header, false);
        }
        if header.len() >= 100 {
            lemma_size_faults_are_so(header, true);
            lemma_size_fault(header, true);
        }
    }
}

/// The names of the dimensions that have to be positive.
pub open spec fn positive_names() -> Seq<Seq<char>> {
    seq![
        "architecture_id"@,
        "dim"@,
        "n_layers"@,
        "n_heads"@,
        "n_kv_heads"@,
        "vocab_size"@,
        "seq_len"@,
        "head_dim"@,
    ]
}

/// The names of the sizes that must not be negative.
pub open spec fn whole_names() -> Seq<Seq<char>> {
    seq![
        "hidden_dim"@,
        "group_size"@,
        "rotary_dim"@,
        "n_linear_k_heads"@,
        "n_linear_v_heads"@,
        "linear_k_head_dim"@,
        "linear_v_head_dim"@,
        "conv_kernel_size"@,
    ]
}

} // verus!
