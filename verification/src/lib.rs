//! Verified core of the Aide local assistant: text utilities, themes,
//! line editing, prompt templates, memory/profile learning and model registry.
pub mod text;
pub mod input;
pub mod chat;
pub mod stream;
pub mod memory;
pub mod profile;
pub mod models;
pub mod system;
pub mod theme;
pub mod ui;
pub mod session;
pub mod generation;
pub mod highlight;
pub mod prompt;
