//! Nucleotide alphabets and their packed form.

pub mod compress;
pub mod nucleotide;
