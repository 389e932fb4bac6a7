//! Verified core of a support-vector-machine inference engine: dense storage
//! for fixed-width vectors, validated reconstruction of attribute rows,
//! kernel parameter selection, and the error taxonomy shared by all of them.

pub mod errors;
pub mod manyvectors;
pub mod svm;

pub use crate::errors::Error;
pub use crate::manyvectors::{IterManyVectors, ManyVectors};
