//! The completion-translation engine: value-choice encoding of terms,
//! body translation, head classification, and the completion of predicate
//! definitions.

pub mod common;
pub mod head_type;
pub mod translate_body;
pub mod verify_properties;
