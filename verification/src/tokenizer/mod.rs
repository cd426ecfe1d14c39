//! Text to tokens and back, and chat templates.
pub mod bpe;
pub mod builtin_laws;
pub mod cache;
pub mod chat_laws;
pub mod conditions;
pub mod encoder;
pub mod format_laws;
pub mod gpt2;
pub mod jinja;
pub mod laws;
pub mod load;
pub mod load_laws;
pub mod prompt;
pub mod roundtrip;
pub mod template;
pub mod words;

pub use encoder::Tokenizer;
pub use template::TemplateKind;
