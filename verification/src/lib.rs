//! Mining, screening and citing scholarly literature: the rules of the corpus.
//!
//! The library holds what the pipeline decides and computes. Network, disk,
//! database and model calls are made by the program around it, which hands
//! plain values in and takes plain values back.

pub mod adapters;
pub mod citations;
pub mod config;
pub mod discovery;
pub mod domain;
pub mod download;
pub mod json;
pub mod laws;
pub mod model;
pub mod nvidia;
pub mod order;
pub mod pipeline;
pub mod qdrant;
pub mod quality;
pub mod render;
pub mod retry;
pub mod score;
pub mod state;
pub mod table;
pub mod text;
pub mod util;
