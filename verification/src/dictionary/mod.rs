//! The dictionary side: entry model, word normalisation, suggestion ranking and
//! the mapping of ECDICT rows.

pub mod model;
pub mod engine;
pub mod store;
pub mod ecdict;
pub mod seed;
pub mod bootstrap;
