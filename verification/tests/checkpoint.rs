//! Headers of checkpoints.

use qwen3_rs::inference::configuration::{
    read_config, validate_positive_dims, validate_sizes, CheckpointFault, ModelConfig, ModelConfigV2,
};
use qwen3_rs::inference::mapper::{MemoryMapper, Span};

fn header(words: &[u32]) -> Vec<u8> {
    let mut bytes = Vec::new();
    for word in words {
        bytes.extend_from_slice(&word.to_le_bytes());
    }
    bytes.resize(256, 0xee);
    bytes
}

fn v1_words() -> Vec<u32> {
    vec![0x616a6331, 1, 1, 64, 256, 2, 4, 2, 1000, 128, 16, 1, 32]
}

fn v2_words() -> Vec<u32> {
    let mut words = vec![0x616a6331, 2, 3, 64, 256, 2, 4, 2, 1000, 128, 16, 0, 32];
    words.extend_from_slice(&[
        1e-6f32.to_bits(),
        10000000.0f32.to_bits(),
        8,
        4,
        5,
        6,
        7,
        9,
        0x88888888,
        0x1,
        999,
        998,
    ]);
    words
}

fn read(bytes: &[u8]) -> Result<ModelConfig, String> {
    let mut mapper = MemoryMapper::new(bytes);
    match read_config(&mut mapper) {
        Ok(config) => Ok(config),
        Err(fault) => Err(fault.message()),
    }
}

#[test]
fn first_version_is_read() {
    let bytes = header(&v1_words());
    let mut mapper = MemoryMapper::new(&bytes);
    let config = read_config(&mut mapper).unwrap();
    assert_eq!(
        config,
        ModelConfig {
            architecture_id: 1,
            dim: 64,
            hidden_dim: 256,
            n_layers: 2,
            n_heads: 4,
            n_kv_heads: 2,
            head_dim: 16,
            seq_len: 128,
            vocab_size: 1000,
            group_size: 32,
            shared_classifier: true,
            v2: None,
        }
    );
    assert_eq!(mapper.position(), 256);
}

#[test]
fn second_version_is_read() {
    let mut bytes = header(&v2_words());
    bytes.extend_from_slice(&[1, 2, 3]);
    let mut mapper = MemoryMapper::new(&bytes);
    let config = read_config(&mut mapper).unwrap();
    assert_eq!(config.architecture_id, 3);
    assert!(!config.shared_classifier);
    assert_eq!(
        config.v2,
        Some(ModelConfigV2 {
            norm_eps: 1e-6f32.to_bits(),
            n_linear_k_heads: 4,
            n_linear_v_heads: 5,
            linear_k_head_dim: 6,
            linear_v_head_dim: 7,
            conv_kernel_size: 9,
            rope_theta: 10000000.0f32.to_bits(),
            rotary_dim: 8,
            full_attention_mask: 0x1_8888_8888,
            model_eos: 999,
            chat_eos: 998,
        })
    );
    assert_eq!(mapper.position(), 256);
    assert_eq!(mapper.available(), 3);
    assert_eq!(mapper.get_bytes(3).unwrap(), &[1, 2, 3]);
}

#[test]
fn other_magic_numbers_are_refused() {
    let mut words = v1_words();
    words[0] = 0xfffffffe;
    assert_eq!(
        read(&header(&words)).unwrap_err(),
        "Invalid checkpoint magic number: expected 0x616a6331, got 0xfffffffe"
    );
    words[0] = 0;
    assert_eq!(
        read(&header(&words)).unwrap_err(),
        "Invalid checkpoint magic number: expected 0x616a6331, got 0x0"
    );
}

#[test]
fn other_versions_are_refused() {
    let mut words = v1_words();
    words[1] = 3;
    assert_eq!(read(&header(&words)).unwrap_err(), "Unsupported checkpoint version: expected 1 or 2, got 3");
    words[1] = 0xffffffff;
    assert_eq!(read(&header(&words)).unwrap_err(), "Unsupported checkpoint version: expected 1 or 2, got -1");
}

#[test]
fn dimensions_have_to_be_positive() {
    let fields = [
        (2, "architecture_id"),
        (3, "dim"),
        (5, "n_layers"),
        (6, "n_heads"),
        (7, "n_kv_heads"),
        (8, "vocab_size"),
        (9, "seq_len"),
        (10, "head_dim"),
    ];
    for (place, name) in fields {
        for words in [v1_words(), v2_words()] {
            let mut zero = words.clone();
            zero[place] = 0;
            assert_eq!(read(&header(&zero)).unwrap_err(), format!("Invalid {name}: must be positive, got 0"));
            let mut negative = words;
            negative[place] = 0x80000000;
            assert_eq!(
                read(&header(&negative)).unwrap_err(),
                format!("Invalid {name}: must be positive, got -2147483648")
            );
        }
    }
}

#[test]
fn first_faulty_dimension_is_named() {
    let fault = validate_positive_dims(&[("a", 1), ("b", 0), ("c", -1)]).unwrap_err();
    assert!(matches!(&fault, CheckpointFault::NotPositive { name, value: 0 } if name == "b"));
    assert_eq!(fault.message(), "Invalid b: must be positive, got 0");
    assert!(validate_positive_dims(&[]).is_ok());
    assert!(validate_positive_dims(&[("a", 1)]).is_ok());
}

#[test]
fn other_sizes_may_be_zero_but_not_negative() {
    let fields = [
        (4, "hidden_dim"),
        (12, "group_size"),
        (15, "rotary_dim"),
        (16, "n_linear_k_heads"),
        (17, "n_linear_v_heads"),
        (18, "linear_k_head_dim"),
        (19, "linear_v_head_dim"),
        (20, "conv_kernel_size"),
    ];
    for (place, name) in fields {
        for words in [v1_words(), v2_words()] {
            if place >= words.len() {
                continue;
            }
            let mut zero = words.clone();
            zero[place] = 0;
            assert!(read(&header(&zero)).is_ok());
            let mut negative = words;
            negative[place] = 0xffffffff;
            assert_eq!(
                read(&header(&negative)).unwrap_err(),
                format!("Invalid {name}: must not be negative, got -1")
            );
        }
    }
    let mut words = v1_words();
    words[4] = 0;
    words[12] = 0;
    let config = read(&header(&words)).unwrap();
    assert_eq!((config.hidden_dim, config.group_size), (0, 0));
}

#[test]
fn first_fault_of_a_header_is_named() {
    let mut words = v2_words();
    words[20] = 0x80000000;
    words[4] = 0xfffffffe;
    assert_eq!(read(&header(&words)).unwrap_err(), "Invalid hidden_dim: must not be negative, got -2");
    words[10] = 0;
    assert_eq!(read(&header(&words)).unwrap_err(), "Invalid head_dim: must be positive, got 0");
    let fault = validate_sizes(&[("a", 0), ("b", -3)]).unwrap_err();
    assert!(matches!(&fault, CheckpointFault::Negative { name, value: -3 } if name == "b"));
    assert!(validate_sizes(&[("a", 0)]).is_ok());
}

#[test]
fn short_headers_are_refused() {
    let bytes = header(&v2_words());
    assert_eq!(read(&bytes[..7]).unwrap_err(), "Checkpoint header ends early: 7 bytes left");
    assert_eq!(read(&bytes[..99]).unwrap_err(), "Checkpoint header ends early: 91 bytes left");
    assert_eq!(read(&bytes[..255]).unwrap_err(), "Checkpoint header ends early: 155 bytes left");
    assert!(read(&bytes).is_ok());
}

#[test]
fn mapper_hands_out_bytes_in_order() {
    let bytes = [1u8, 2, 3, 4, 5, 6];
    let mut mapper = MemoryMapper::new(&bytes);
    assert_eq!(mapper.get_bytes(2).unwrap(), &[1, 2]);
    assert_eq!(mapper.get_span(2).unwrap(), Span { offset: 2, len: 2 });
    assert_eq!(mapper.get_bytes(3).unwrap_err().available, 2);
    assert!(mapper.skip(1).is_ok());
    assert_eq!(mapper.available(), 1);
    assert!(mapper.skip(2).is_err());
    assert_eq!(mapper.get_bytes(1).unwrap(), &[6]);
    assert_eq!(mapper.data(), &bytes);
}
