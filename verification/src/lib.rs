//! Core of a protocol-translating LLM gateway.
//!
//! The library accepts requests in the Anthropic Messages dialect and either
//! passes them through to an Anthropic-style upstream or translates them to
//! the OpenAI Chat Completions dialect and back.  It holds the dialect data
//! model, the two translators, the streaming transcoder that re-synthesises
//! an Anthropic event stream from an OpenAI delta stream, the admission and
//! audit rules of the request pipeline, and the error taxonomy.  All I/O and
//! wiring lives outside the library.

pub mod audit;

pub mod config;

pub mod dialect;

pub mod error;

pub mod pipeline;

pub mod sse;

pub mod text;

pub mod transcoder;

pub mod translate;
