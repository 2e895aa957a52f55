//! Converts a microcontroller register description from the EDC format into
//! the SVD format, on in-memory trees.

pub mod document;
pub mod error;
pub mod layout;
pub mod numeral;
pub mod peripheral;
pub mod portals;
pub mod register;
pub mod scan;
pub mod svd;
pub mod text;
pub mod tree;
