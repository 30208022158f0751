//! Export and inference support for the Qwen3 family of language models.

pub mod export;
pub mod inference;
pub mod json;
pub mod mask;
pub mod text;
