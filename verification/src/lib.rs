//! Schema- and constraint-driven validation of tree-shaped documents, with the
//! small utilities that surround it.

pub mod chars;
pub mod encoding;
pub mod error;
pub mod formats;
pub mod http;
pub mod number;
pub mod number_laws;
pub mod number_text_laws;
pub mod pattern;
pub mod text;
pub mod utils;
pub mod validation;
pub mod value;
pub mod value_laws;
