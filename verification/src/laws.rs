//! What the operations of the library are for: laws that relate what goes in to what
//! comes out.

pub mod corpus;
pub mod exports;
pub mod fulltext;
pub mod identifiers;
pub mod merging;
pub mod models;
pub mod planning;
pub mod requests;
pub mod retrieval;
pub mod screening;
pub mod settings;
pub mod sources;
pub mod workflow;
