//! Language-independent names for polytopes, and the algebra that keeps them
//! in canonical form.
pub mod algebra;
pub mod atoms;
pub mod canon;
pub mod compound;
pub mod data;
pub mod header;
pub mod laws;
pub mod measure;
pub mod model;
pub mod name;
pub mod order;
pub mod product;
pub mod query;
pub mod ready;
pub mod regime;
pub mod rewrite;
pub mod structure;
pub mod validity;
