//! Verified core of a local-inference toolkit: GGUF header and metadata
//! interpretation, tokenizer vocabulary decoding, model-hub result shaping,
//! and the event protocol of streamed generation.

pub mod gguf_header;
pub mod text;
pub mod vocab;
pub mod metadata;
pub mod order;
pub mod composition;
pub mod gguf_layout;
pub mod gguf_parse;
pub mod stream;
pub mod chat;
pub mod bridge;
pub mod hub;
pub mod cache;
pub mod embedding;
