//! The errors of the sequence alphabets.

use vstd::prelude::*;

verus! {

/// Why a sequence symbol or codon was refused.
#[derive(Debug, Clone, PartialEq, Eq)]
pub enum TXaseError {
    /// A character or text that is no nucleotide symbol.
    InvalidNucleotide(String),
    /// Three symbols that are no codon of the translation table.
    InvalidCodon(String),
    /// A failure reported by a text parser.
    NomParsing(String),
    /// An attribute tag that is reserved.
    InvalidAttribute(String),
    /// A second `ID` attribute in one entry.
    DuplicateGFFEntryID,
    /// Text that names no symbol of the alphabet.
    InternalParseFailure(String),
}

} // verus!
