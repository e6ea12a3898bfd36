//! Bond: the verified core of an LLM orchestration tool.
//!
//! The library holds the tag language parser, the command language parser,
//! the message and channel model, the registry of callable functions, the
//! interpretation of model responses and the text helpers of the builtin
//! tools. Everything that touches the network, the file system, processes or
//! the async runtime lives in the companion application.
pub mod strutil;

pub mod taglang;
pub mod cmdlang;
pub mod json;
pub mod function;
pub mod message;
pub mod channels;
pub mod agent;
pub mod openrouter;
pub mod openai;
pub mod prompts;
pub mod shell;
pub mod config;
pub mod tools;
pub mod ws;
