//! Reading checkpoints and running the models in them.

pub mod bytes;
pub mod cache;
pub mod chat;
pub mod configuration;
pub mod generate;
pub mod generation;
pub mod layout;
pub mod mapper;
pub mod qwen3_5;
pub mod shape;
pub mod size;
pub mod stream;
pub mod weights;
