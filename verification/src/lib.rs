//! State, parsing and presentation logic of a terminal monitor for Ollama Cloud
//! subscriptions.
pub mod app;
pub mod chart;
pub mod cli;
pub mod json;
pub mod label;
pub mod layout;
pub mod net;
pub mod ollama;
pub mod order;
pub mod release;
pub mod store;
pub mod style;
pub mod summary;
pub mod table;
pub mod text;
pub mod update;
pub mod view;
