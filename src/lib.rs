//! Best conversion rates between currencies held at trading venues.
//!
//! The library keeps a registry of (venue, currency) nodes, a directed graph of
//! conversion factors between them, the latest quote for each venue and pair
//! of currencies, and a multiplicative all-pairs solver with path
//! reconstruction.
pub mod registry;
mod petgraph_specs;
pub mod quote;
pub mod graph;
pub mod handler;
pub mod solver;
pub mod parse;
