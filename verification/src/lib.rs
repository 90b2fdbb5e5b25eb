//! Pinned dependency graphs: naming requirements, assembling the graph of a
//! solver's selection, and projecting it to markers, locks and text.

pub mod text;
pub mod cycle;
pub mod display;
pub mod dist;
pub mod error;
pub mod filename;
pub mod graph;
pub mod index;
pub mod laws;
pub mod lock;
pub mod manifest;
pub mod marker;
pub mod name;
pub mod order;
pub mod range;
pub mod resolution;
pub mod solver;
pub mod table;
pub mod unnamed;
pub mod version;
