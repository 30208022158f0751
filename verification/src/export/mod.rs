//! Exporting models to checkpoints.

pub mod architecture;
pub mod chat_eos;
pub mod config_loader;
pub mod order;
pub mod qwen3_5;
