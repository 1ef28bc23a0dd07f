//! Substrings of the elements of columnar arrays, counted in bytes.

pub mod array;
pub mod binary;
pub mod bitmap;
pub mod cut;
pub mod error;
pub mod fixed;
pub mod integer;
pub mod laws;
pub mod layout;
pub mod meaning;
pub mod offset;
pub mod string;
pub mod substring;
pub mod text;
