//! A model of a high-voltage substation: bus-bar nodes, switchgear and
//! transformers, and the terminals that wire them together.

pub mod cli;
pub mod component;
pub mod error;
pub mod json;
pub mod laws;
pub mod network;
pub mod node;
pub mod position;
pub mod terminal;
pub mod text;
