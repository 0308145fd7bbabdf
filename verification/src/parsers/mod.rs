//! Finding the functions of a file.

pub mod text;
pub mod python;
