//! Amino acids: their names and the translation of codons.

use vstd::prelude::*;

use crate::err::TXaseError;
use crate::text::{chars_eq, chars_of, push_char};

verus! {

/// The amino acids, and the stop signal of translation.
#[derive(Debug, Clone, Copy, PartialEq, Eq, Structural)]
pub enum AminoAcid {
    Alanine,
    Arginine,
    Asparagine,
    Aspartate,
    Cysteine,
    Glutamine,
    Glutamate,
    Glycine,
    Histidine,
    Isoleucine,
    Leucine,
    Lysine,
    Methionine,
    Phenylalanine,
    Proline,
    Serine,
    Threonine,
    Tryptonphan,
    Tyrosine,
    Valine,
    Selenocysteine,
    Pyrrolysine,
    Stop,
}

/// The three-letter abbreviation.
pub open spec fn abbrev_of(a: AminoAcid) -> Seq<char> {
    match a {
        AminoAcid::Alanine => "Ala"@,
        AminoAcid::Arginine => "Arg"@,
        AminoAcid::Asparagine => "Asn"@,
        AminoAcid::Aspartate => "Asp"@,
        AminoAcid::Cysteine => "Cys"@,
        AminoAcid::Glutamine => "Gln"@,
        AminoAcid::Glutamate => "Glu"@,
        AminoAcid::Glycine => "Gly"@,
        AminoAcid::Histidine => "His"@,
        AminoAcid::Isoleucine => "Ile"@,
        AminoAcid::Leucine => "Leu"@,
        AminoAcid::Lysine => "Lys"@,
        AminoAcid::Methionine => "Met"@,
        AminoAcid::Phenylalanine => "Phe"@,
        AminoAcid::Proline => "Pro"@,
        AminoAcid::Serine => "Ser"@,
        AminoAcid::Threonine => "Thr"@,
        AminoAcid::Tryptonphan => "Trp"@,
        AminoAcid::Tyrosine => "Tyr"@,
        AminoAcid::Valine => "Val"@,
        AminoAcid::Selenocysteine => "Sec"@,
        AminoAcid::Pyrrolysine => "Pyl"@,
        AminoAcid::Stop => "Ter"@,
    }
}

/// The one-letter code.
pub open spec fn letter_of(a: AminoAcid) -> char {
    match a {
        AminoAcid::Alanine => 'A',
        AminoAcid::Arginine => 'R',
        AminoAcid::Asparagine => 'N',
        AminoAcid::Aspartate => 'D',
        AminoAcid::Cysteine => 'C',
        AminoAcid::Glutamine => 'Q',
        AminoAcid::Glutamate => 'E',
        AminoAcid::Glycine => 'G',
        AminoAcid::Histidine => 'H',
        AminoAcid::Isoleucine => 'I',
        AminoAcid::Leucine => 'L',
        AminoAcid::Lysine => 'K',
        AminoAcid::Methionine => 'M',
        AminoAcid::Phenylalanine => 'F',
        AminoAcid::Proline => 'P',
        AminoAcid::Serine => 'S',
        AminoAcid::Threonine => 'T',
        AminoAcid::Tryptonphan => 'W',
        AminoAcid::Tyrosine => 'Y',
        AminoAcid::Valine => 'V',
        AminoAcid::Selenocysteine => 'U',
        AminoAcid::Pyrrolysine => 'O',
        AminoAcid::Stop => '*',
    }
}

/// The full name.
pub open spec fn name_of(a: AminoAcid) -> Seq<char> {
    match a {
        AminoAcid::Alanine => "Alanine"@,
        AminoAcid::Arginine => "Arginine"@,
        AminoAcid::Asparagine => "Asparagine"@,
        AminoAcid::Aspartate => "Aspartate"@,
        AminoAcid::Cysteine => "Cysteine"@,
        AminoAcid::Glutamine => "Glutamine"@,
        AminoAcid::Glutamate => "Glutamate"@,
        AminoAcid::Glycine => "Glycine"@,
        AminoAcid::Histidine => "Histidine"@,
        AminoAcid::Isoleucine => "Isoleucine"@,
        AminoAcid::Leucine => "Leucine"@,
        AminoAcid::Lysine => "Lysine"@,
        AminoAcid::Methionine => "Methionine"@,
        AminoAcid::Phenylalanine => "Phenylalanine"@,
        AminoAcid::Proline => "Proline"@,
        AminoAcid::Serine => "Serine"@,
        AminoAcid::Threonine => "Threonine"@,
        AminoAcid::Tryptonphan => "Tryptophan"@,
        AminoAcid::Tyrosine => "Tyrosine"@,
        AminoAcid::Valine => "Valine"@,
        AminoAcid::Selenocysteine => "Selenocysteine"@,
        AminoAcid::Pyrrolysine => "Pyrrolysine"@,
        AminoAcid::Stop => "Translation Stop"@,
    }
}

/// The amino acid with a one-letter code.
pub open spec fn amino_of_letter(c: char) -> Option<AminoAcid> {
    if c == 'A' {
        Some(AminoAcid::Alanine)
    } else if c == 'R' {
        Some(AminoAcid::Arginine)
    } else if c == 'N' {
        Some(AminoAcid::Asparagine)
    } else if c == 'D' {
        Some(AminoAcid::Aspartate)
    } else if c == 'C' {
        Some(AminoAcid::Cysteine)
    } else if c == 'Q' {
        Some(AminoAcid::Glutamine)
    } else if c == 'E' {
        Some(AminoAcid::Glutamate)
    } else if c == 'G' {
        Some(AminoAcid::Glycine)
    } else if c == 'H' {
        Some(AminoAcid::Histidine)
    } else if c == 'I' {
        Some(AminoAcid::Isoleucine)
    } else if c == 'L' {
        Some(AminoAcid::Leucine)
    } else if c == 'K' {
        Some(AminoAcid::Lysine)
    } else if c == 'M' {
        Some(AminoAcid::Methionine)
    } else if c == 'F' {
        Some(AminoAcid::Phenylalanine)
    } else if c == 'P' {
        Some(AminoAcid::Proline)
    } else if c == 'S' {
        Some(AminoAcid::Serine)
    } else if c == 'T' {
        Some(AminoAcid::Threonine)
    } else if c == 'W' {
        Some(AminoAcid::Tryptonphan)
    } else if c == 'Y' {
        Some(AminoAcid::Tyrosine)
    } else if c == 'V' {
        Some(AminoAcid::Valine)
    } else if c == 'U' {
        Some(AminoAcid::Selenocysteine)
    } else if c == 'O' {
        Some(AminoAcid::Pyrrolysine)
    } else if c == '*' {
        Some(AminoAcid::Stop)
    } else {
        None
    }
}

/// The standard genetic code, by codon index: the letter of each codon
/// whose bases, with `T` or `U` as 0, `C` as 1, `A` as 2 and `G` as 3, give
/// the index `16 * first + 4 * second + third`.
pub open spec fn genetic_code() -> Seq<char> {
    "FFLLSSSSYY**CC*WLLLLPPPPHHQQRRRRIIIMTTTTNNKKSSRRVVVVAAAADDEEGGGG"@
}

/// The index of a base; `t` is the letter of the fourth base (`T` or `U`).
pub open spec fn base_index(c: char, t: char) -> Option<nat> {
    if c == t {
        Some(0)
    } else if c == 'C' {
        Some(1)
    } else if c == 'A' {
        Some(2)
    } else if c == 'G' {
        Some(3)
    } else {
        None
    }
}

/// The amino acid of a three-letter codon over `A`, `C`, `G` and `t`.
pub open spec fn translation(codon: Seq<char>, t: char) -> Option<AminoAcid> {
    if codon.len() != 3 {
        None
    } else {
        match (base_index(codon[0], t), base_index(codon[1], t), base_index(codon[2], t)) {
            (Some(a), Some(b), Some(c)) => amino_of_letter(genetic_code()[(16 * a + 4 * b + c) as int]),
            _ => None,
        }
    }
}

fn base_idx(c: char, t: char) -> (r: Option<usize>)
    ensures
        match base_index(c, t) {
            Some(v) => r == Some(v as usize) && v < 4,
            None => r is None,
        },
{
    if c == t {
        Some(0)
    } else if c == 'C' {
        Some(1)
    } else if c == 'A' {
        Some(2)
    } else if c == 'G' {
        Some(3)
    } else {
        None
    }
}

fn translate(codon: &str, t: char) -> (r: Result<AminoAcid, TXaseError>)
    ensures
        match translation(codon@, t) {
            Some(a) => r == Ok::<AminoAcid, TXaseError>(a),
            None => r matches Err(TXaseError::InvalidCodon(s)) && s@ == codon@,
        },
{
    let v = chars_of(codon);
    if v.len() == 3 {
        match (base_idx(v[0], t), base_idx(v[1], t), base_idx(v[2], t)) {
            (Some(a), Some(b), Some(c)) => {
                let table = "FFLLSSSSYY**CC*WLLLLPPPPHHQQRRRRIIIMTTTTNNKKSSRRVVVVAAAADDEEGGGG";
                proof {
                    reveal_strlit("FFLLSSSSYY**CC*WLLLLPPPPHHQQRRRRIIIMTTTTNNKKSSRRVVVVAAAADDEEGGGG");
                }
                let letter = table.get_char(16 * a + 4 * b + c);
                if let Ok(aa) = AminoAcid::try_from_char(letter) {
                    return Ok(aa);
                }
            },
            _ => {},
        }
    }
    Err(TXaseError::InvalidCodon(String::from_str(codon)))
}

impl AminoAcid {
    /// The three-letter abbreviation.
    pub fn abbreviation(self) -> (r: &'static str)
        ensures
            r@ == abbrev_of(self),
    {
        match self {
            AminoAcid::Alanine => "Ala",
            AminoAcid::Arginine => "Arg",
            AminoAcid::Asparagine => "Asn",
            AminoAcid::Aspartate => "Asp",
            AminoAcid::Cysteine => "Cys",
            AminoAcid::Glutamine => "Gln",
            AminoAcid::Glutamate => "Glu",
            AminoAcid::Glycine => "Gly",
            AminoAcid::Histidine => "His",
            AminoAcid::Isoleucine => "Ile",
            AminoAcid::Leucine => "Leu",
            AminoAcid::Lysine => "Lys",
            AminoAcid::Methionine => "Met",
            AminoAcid::Phenylalanine => "Phe",
            AminoAcid::Proline => "Pro",
            AminoAcid::Serine => "Ser",
            AminoAcid::Threonine => "Thr",
            AminoAcid::Tryptonphan => "Trp",
            AminoAcid::Tyrosine => "Tyr",
            AminoAcid::Valine => "Val",
            AminoAcid::Selenocysteine => "Sec",
            AminoAcid::Pyrrolysine => "Pyl",
            AminoAcid::Stop => "Ter",
        }
    }

    /// The one-letter code.
    pub fn short(self) -> (r: char)
        ensures
            r == letter_of(self),
            amino_of_letter(r) == Some(self),
    {
        match self {
            AminoAcid::Alanine => 'A',
            AminoAcid::Arginine => 'R',
            AminoAcid::Asparagine => 'N',
            AminoAcid::Aspartate => 'D',
            AminoAcid::Cysteine => 'C',
            AminoAcid::Glutamine => 'Q',
            AminoAcid::Glutamate => 'E',
            AminoAcid::Glycine => 'G',
            AminoAcid::Histidine => 'H',
            AminoAcid::Isoleucine => 'I',
            AminoAcid::Leucine => 'L',
            AminoAcid::Lysine => 'K',
            AminoAcid::Methionine => 'M',
            AminoAcid::Phenylalanine => 'F',
            AminoAcid::Proline => 'P',
            AminoAcid::Serine => 'S',
            AminoAcid::Threonine => 'T',
            AminoAcid::Tryptonphan => 'W',
            AminoAcid::Tyrosine => 'Y',
            AminoAcid::Valine => 'V',
            AminoAcid::Selenocysteine => 'U',
            AminoAcid::Pyrrolysine => 'O',
            AminoAcid::Stop => '*',
        }
    }

    /// The full name.
    pub fn long(self) -> (r: &'static str)
        ensures
            r@ == name_of(self),
    {
        match self {
            AminoAcid::Alanine => "Alanine",
            AminoAcid::Arginine => "Arginine",
            AminoAcid::Asparagine => "Asparagine",
            AminoAcid::Aspartate => "Aspartate",
            AminoAcid::Cysteine => "Cysteine",
            AminoAcid::Glutamine => "Glutamine",
            AminoAcid::Glutamate => "Glutamate",
            AminoAcid::Glycine => "Glycine",
            AminoAcid::Histidine => "Histidine",
            AminoAcid::Isoleucine => "Isoleucine",
            AminoAcid::Leucine => "Leucine",
            AminoAcid::Lysine => "Lysine",
            AminoAcid::Methionine => "Methionine",
            AminoAcid::Phenylalanine => "Phenylalanine",
            AminoAcid::Proline => "Proline",
            AminoAcid::Serine => "Serine",
            AminoAcid::Threonine => "Threonine",
            AminoAcid::Tryptonphan => "Tryptophan",
            AminoAcid::Tyrosine => "Tyrosine",
            AminoAcid::Valine => "Valine",
            AminoAcid::Selenocysteine => "Selenocysteine",
            AminoAcid::Pyrrolysine => "Pyrrolysine",
            AminoAcid::Stop => "Translation Stop",
        }
    }

    /// Translates an RNA codon such as `AUG`.
    pub fn translate_rna(codon: &str) -> (r: Result<AminoAcid, TXaseError>)
        ensures
            match translation(codon@, 'U') {
                Some(a) => r == Ok::<AminoAcid, TXaseError>(a),
                None => r matches Err(TXaseError::InvalidCodon(s)) && s@ == codon@,
            },
    {
        translate(codon, 'U')
    }

    /// Translates a DNA codon such as `ATG`.
    pub fn translate_dna(codon: &str) -> (r: Result<AminoAcid, TXaseError>)
        ensures
            match translation(codon@, 'T') {
                Some(a) => r == Ok::<AminoAcid, TXaseError>(a),
                None => r matches Err(TXaseError::InvalidCodon(s)) && s@ == codon@,
            },
    {
        translate(codon, 'T')
    }

    /// The amino acid with the one-letter code `value`.
    pub fn try_from_char(value: char) -> (r: Result<AminoAcid, TXaseError>)
        ensures
            match amino_of_letter(value) {
                Some(a) => r == Ok::<AminoAcid, TXaseError>(a),
                None => r matches Err(TXaseError::InternalParseFailure(s)) && s@ == seq![value],
            },
    {
        match value {
            'A' => Ok(AminoAcid::Alanine),
            'R' => Ok(AminoAcid::Arginine),
            'N' => Ok(AminoAcid::Asparagine),
            'D' => Ok(AminoAcid::Aspartate),
            'C' => Ok(AminoAcid::Cysteine),
            'Q' => Ok(AminoAcid::Glutamine),
            'E' => Ok(AminoAcid::Glutamate),
            'G' => Ok(AminoAcid::Glycine),
            'H' => Ok(AminoAcid::Histidine),
            'I' => Ok(AminoAcid::Isoleucine),
            'L' => Ok(AminoAcid::Leucine),
            'K' => Ok(AminoAcid::Lysine),
            'M' => Ok(AminoAcid::Methionine),
            'F' => Ok(AminoAcid::Phenylalanine),
            'P' => Ok(AminoAcid::Proline),
            'S' => Ok(AminoAcid::Serine),
            'T' => Ok(AminoAcid::Threonine),
            'W' => Ok(AminoAcid::Tryptonphan),
            'Y' => Ok(AminoAcid::Tyrosine),
            'V' => Ok(AminoAcid::Valine),
            'U' => Ok(AminoAcid::Selenocysteine),
            'O' => Ok(AminoAcid::Pyrrolysine),
            '*' => Ok(AminoAcid::Stop),
            _ => {
                let mut s = String::new();
                push_char(&mut s, value);
                Err(TXaseError::InternalParseFailure(s))
            },
        }
    }

}

/// The amino acid that a full name, an abbreviation or a one-letter code
/// names; the stop signal also answers to its codon names.
pub open spec fn amino_named(s: Seq<char>) -> Option<AminoAcid> {
    if s == "Alanine"@ || s == "Ala"@ || s == "A"@ {
        Some(AminoAcid::Alanine)
    } else if s == "Arginine"@ || s == "Arg"@ || s == "R"@ {
        Some(AminoAcid::Arginine)
    } else if s == "Asparagine"@ || s == "Asn"@ || s == "N"@ {
        Some(AminoAcid::Asparagine)
    } else if s == "Aspartate"@ || s == "Asp"@ || s == "D"@ {
        Some(AminoAcid::Aspartate)
    } else if s == "Cysteine"@ || s == "Cys"@ || s == "C"@ {
        Some(AminoAcid::Cysteine)
    } else if s == "Glutamine"@ || s == "Gln"@ || s == "Q"@ {
        Some(AminoAcid::Glutamine)
    } else if s == "Glutamate"@ || s == "Glu"@ || s == "E"@ {
        Some(AminoAcid::Glutamate)
    } else if s == "Glycine"@ || s == "Gly"@ || s == "G"@ {
        Some(AminoAcid::Glycine)
    } else if s == "Histidine"@ || s == "His"@ || s == "H"@ {
        Some(AminoAcid::Histidine)
    } else if s == "Isoleucine"@ || s == "Ile"@ || s == "I"@ {
        Some(AminoAcid::Isoleucine)
    } else if s == "Leucine"@ || s == "Leu"@ || s == "L"@ {
        Some(AminoAcid::Leucine)
    } else if s == "Lysine"@ || s == "Lys"@ || s == "K"@ {
        Some(AminoAcid::Lysine)
    } else if s == "Methionine"@ || s == "Met"@ || s == "M"@ {
        Some(AminoAcid::Methionine)
    } else if s == "Phenylalanine"@ || s == "Phe"@ || s == "F"@ {
        Some(AminoAcid::Phenylalanine)
    } else if s == "Proline"@ || s == "Pro"@ || s == "P"@ {
        Some(AminoAcid::Proline)
    } else if s == "Serine"@ || s == "Ser"@ || s == "S"@ {
        Some(AminoAcid::Serine)
    } else if s == "Threonine"@ || s == "Thr"@ || s == "T"@ {
        Some(AminoAcid::Threonine)
    } else if s == "Tryptophan"@ || s == "Trp"@ || s == "W"@ {
        Some(AminoAcid::Tryptonphan)
    } else if s == "Tyrosine"@ || s == "Tyr"@ || s == "Y"@ {
        Some(AminoAcid::Tyrosine)
    } else if s == "Valine"@ || s == "Val"@ || s == "V"@ {
        Some(AminoAcid::Valine)
    } else if s == "Selenocysteine"@ || s == "Sec"@ || s == "U"@ {
        Some(AminoAcid::Selenocysteine)
    } else if s == "Pyrrolysine"@ || s == "Pyl"@ || s == "O"@ {
        Some(AminoAcid::Pyrrolysine)
    } else if s == "Amber"@ || s == "Ochre"@ || s == "Umber"@ || s == "Opal"@ || s == "Ter"@ || s == "*"@ {
        Some(AminoAcid::Stop)
    } else {
        None
    }
}

fn names(s: &[char], lit: &str) -> (r: bool)
    ensures
        r == (s@ == lit@),
{
    let l = chars_of(lit);
    chars_eq(s, l.as_slice())
}

impl AminoAcid {
    /// The amino acid named by `s`.
    pub fn from_str(s: &str) -> (r: Result<AminoAcid, TXaseError>)
        ensures
            match amino_named(s@) {
                Some(a) => r == Ok::<AminoAcid, TXaseError>(a),
                None => r matches Err(TXaseError::InternalParseFailure(t)) && t@ == s@,
            },
    {
        let v = chars_of(s);
        let t = v.as_slice();
        if names(t, "Alanine") || names(t, "Ala") || names(t, "A") {
            Ok(AminoAcid::Alanine)
        } else if names(t, "Arginine") || names(t, "Arg") || names(t, "R") {
            Ok(AminoAcid::Arginine)
        } else if names(t, "Asparagine") || names(t, "Asn") || names(t, "N") {
            Ok(AminoAcid::Asparagine)
        } else if names(t, "Aspartate") || names(t, "Asp") || names(t, "D") {
            Ok(AminoAcid::Aspartate)
        } else if names(t, "Cysteine") || names(t, "Cys") || names(t, "C") {
            Ok(AminoAcid::Cysteine)
        } else if names(t, "Glutamine") || names(t, "Gln") || names(t, "Q") {
            Ok(AminoAcid::Glutamine)
        } else if names(t, "Glutamate") || names(t, "Glu") || names(t, "E") {
            Ok(AminoAcid::Glutamate)
        } else if names(t, "Glycine") || names(t, "Gly") || names(t, "G") {
            Ok(AminoAcid::Glycine)
        } else if names(t, "Histidine") || names(t, "His") || names(t, "H") {
            Ok(AminoAcid::Histidine)
        } else if names(t, "Isoleucine") || names(t, "Ile") || names(t, "I") {
            Ok(AminoAcid::Isoleucine)
        } else if names(t, "Leucine") || names(t, "Leu") || names(t, "L") {
            Ok(AminoAcid::Leucine)
        } else if names(t, "Lysine") || names(t, "Lys") || names(t, "K") {
            Ok(AminoAcid::Lysine)
        } else if names(t, "Methionine") || names(t, "Met") || names(t, "M") {
            Ok(AminoAcid::Methionine)
        } else if names(t, "Phenylalanine") || names(t, "Phe") || names(t, "F") {
            Ok(AminoAcid::Phenylalanine)
        } else if names(t, "Proline") || names(t, "Pro") || names(t, "P") {
            Ok(AminoAcid::Proline)
        } else if names(t, "Serine") || names(t, "Ser") || names(t, "S") {
            Ok(AminoAcid::Serine)
        } else if names(t, "Threonine") || names(t, "Thr") || names(t, "T") {
            Ok(AminoAcid::Threonine)
        } else if names(t, "Tryptophan") || names(t, "Trp") || names(t, "W") {
            Ok(AminoAcid::Tryptonphan)
        } else if names(t, "Tyrosine") || names(t, "Tyr") || names(t, "Y") {
            Ok(AminoAcid::Tyrosine)
        } else if names(t, "Valine") || names(t, "Val") || names(t, "V") {
            Ok(AminoAcid::Valine)
        } else if names(t, "Selenocysteine") || names(t, "Sec") || names(t, "U") {
            Ok(AminoAcid::Selenocysteine)
        } else if names(t, "Pyrrolysine") || names(t, "Pyl") || names(t, "O") {
            Ok(AminoAcid::Pyrrolysine)
        } else if names(t, "Amber") || names(t, "Ochre") || names(t, "Umber") || names(t, "Opal") || names(t, "Ter") || names(t, "*") {
            Ok(AminoAcid::Stop)
        } else {
            Err(TXaseError::InternalParseFailure(String::from_str(s)))
        }
    }
}

} // verus!
