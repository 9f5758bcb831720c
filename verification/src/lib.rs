pub mod text_util;
pub mod chunking;
pub mod handling;
pub mod patterns;
pub mod speech;
pub mod phonemize;
pub mod server;
pub mod sources;
pub mod dto;
pub mod desktop;
pub mod json;
pub mod tokenizer;
