//! Protein alphabets.

pub mod amino;
