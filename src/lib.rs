//! Extra operations on sequences: picking an element by a partially ordered key,
//! and the distance from each element back to its previous occurrence.
pub mod extremum;
pub mod history;
pub mod policy;
pub mod prelude;

pub use prelude::IterExtra;
