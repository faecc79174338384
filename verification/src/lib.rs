//! Arithmetic circuit descriptions over the BLS12-381 scalar field: witnesses,
//! gates, and the builder that accumulates them in order.

pub mod builder;
pub mod circuit;
pub mod codec;
pub mod constraint;
pub mod description;
pub mod error;
pub mod field;
