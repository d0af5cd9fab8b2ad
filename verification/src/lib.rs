//! Verified core of a terminal chat client that answers questions from a local
//! Kiwix (offline Wikipedia) library through an LLM agent.
pub mod text;
pub mod kiwix;
pub mod llm;
pub mod config;
pub mod tui;
pub mod agent;
