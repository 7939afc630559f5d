//! Small utilities around texts and identifiers.

pub mod crypto;
pub mod string;
pub mod validation;
