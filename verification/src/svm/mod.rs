//! What a model needs before it can be evaluated: validated attribute rows
//! and a complete set of kernel parameters.

pub mod attributes;
pub mod kernel;
