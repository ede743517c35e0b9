//! Block-hash alignment with the engines: recursive page hashes, hashing
//! configuration fingerprints, tokenization and its cache.

pub mod config;
pub mod digest;
pub mod registry;
pub mod sglang;
pub mod tokenizer;

pub use config::HashConfig;
pub use registry::TokenizerRegistry;
pub use sglang::compute_sglang_page_hashes;
pub use tokenizer::{ChatMessage, TokenizerEngine, TokenizerError};
