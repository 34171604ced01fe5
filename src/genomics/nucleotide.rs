//! Nucleotide symbols of DNA and RNA.

use vstd::prelude::*;

use crate::err::TXaseError;
use crate::text::{chars_of, push_char};

verus! {

/// The sixteen IUPAC symbols of DNA, each a set of bases coded on four bits
/// (adenine 1, cytosine 2, guanine 4, thymine 8).
#[derive(Debug, Clone, Copy, PartialEq, Eq, Hash, Structural)]
pub enum DNA {
    /// A gap in the sequence.
    Gap,
    /// Adenine.
    Adenine,
    /// Cytosine.
    Cytosine,
    /// Adenine or cytosine.
    Amino,
    /// Guanine.
    Guanine,
    /// Adenine or guanine.
    Purine,
    /// Cytosine or guanine.
    Strong,
    /// Adenine, cytosine or guanine.
    NotT,
    /// Thymine.
    Thymine,
    /// Adenine or thymine.
    Weak,
    /// Cytosine or thymine.
    Pyrimidine,
    /// Adenine, cytosine or thymine.
    NotG,
    /// Guanine or thymine.
    Ketone,
    /// Adenine, guanine or thymine.
    NotC,
    /// Cytosine, guanine or thymine.
    NotA,
    /// Any nucleotide.
    Any,
}

/// The four-bit code of a symbol.
pub open spec fn dna_code(n: DNA) -> u8 {
    match n {
        DNA::Gap => 0u8,
        DNA::Adenine => 1u8,
        DNA::Cytosine => 2u8,
        DNA::Amino => 3u8,
        DNA::Guanine => 4u8,
        DNA::Purine => 5u8,
        DNA::Strong => 6u8,
        DNA::NotT => 7u8,
        DNA::Thymine => 8u8,
        DNA::Weak => 9u8,
        DNA::Pyrimidine => 10u8,
        DNA::NotG => 11u8,
        DNA::Ketone => 12u8,
        DNA::NotC => 13u8,
        DNA::NotA => 14u8,
        DNA::Any => 15u8,
    }
}

/// The letter of a symbol.
pub open spec fn dna_char(n: DNA) -> char {
    match n {
        DNA::Gap => '0',
        DNA::Adenine => 'A',
        DNA::Cytosine => 'C',
        DNA::Amino => 'M',
        DNA::Guanine => 'G',
        DNA::Purine => 'R',
        DNA::Strong => 'S',
        DNA::NotT => 'V',
        DNA::Thymine => 'T',
        DNA::Weak => 'W',
        DNA::Pyrimidine => 'Y',
        DNA::NotG => 'H',
        DNA::Ketone => 'K',
        DNA::NotC => 'D',
        DNA::NotA => 'B',
        DNA::Any => 'N',
    }
}

/// The symbol with a four-bit code.
pub open spec fn dna_of_code(v: u8) -> Option<DNA> {
    if v == 0 {
        Some(DNA::Gap)
    } else if v == 1 {
        Some(DNA::Adenine)
    } else if v == 2 {
        Some(DNA::Cytosine)
    } else if v == 3 {
        Some(DNA::Amino)
    } else if v == 4 {
        Some(DNA::Guanine)
    } else if v == 5 {
        Some(DNA::Purine)
    } else if v == 6 {
        Some(DNA::Strong)
    } else if v == 7 {
        Some(DNA::NotT)
    } else if v == 8 {
        Some(DNA::Thymine)
    } else if v == 9 {
        Some(DNA::Weak)
    } else if v == 10 {
        Some(DNA::Pyrimidine)
    } else if v == 11 {
        Some(DNA::NotG)
    } else if v == 12 {
        Some(DNA::Ketone)
    } else if v == 13 {
        Some(DNA::NotC)
    } else if v == 14 {
        Some(DNA::NotA)
    } else if v == 15 {
        Some(DNA::Any)
    } else {
        None
    }
}

/// The symbol with a letter.
pub open spec fn dna_of_char(c: char) -> Option<DNA> {
    if c == '0' {
        Some(DNA::Gap)
    } else if c == 'A' {
        Some(DNA::Adenine)
    } else if c == 'C' {
        Some(DNA::Cytosine)
    } else if c == 'M' {
        Some(DNA::Amino)
    } else if c == 'G' {
        Some(DNA::Guanine)
    } else if c == 'R' {
        Some(DNA::Purine)
    } else if c == 'S' {
        Some(DNA::Strong)
    } else if c == 'V' {
        Some(DNA::NotT)
    } else if c == 'T' {
        Some(DNA::Thymine)
    } else if c == 'W' {
        Some(DNA::Weak)
    } else if c == 'Y' {
        Some(DNA::Pyrimidine)
    } else if c == 'H' {
        Some(DNA::NotG)
    } else if c == 'K' {
        Some(DNA::Ketone)
    } else if c == 'D' {
        Some(DNA::NotC)
    } else if c == 'B' {
        Some(DNA::NotA)
    } else if c == 'N' {
        Some(DNA::Any)
    } else {
        None
    }
}

impl DNA {
    /// The four-bit code of the symbol.
    pub fn code(self) -> (r: u8)
        ensures
            r == dna_code(self),
            r < 16,
            dna_of_code(r) == Some(self),
    {
        match self {
            DNA::Gap => 0,
            DNA::Adenine => 1,
            DNA::Cytosine => 2,
            DNA::Amino => 3,
            DNA::Guanine => 4,
            DNA::Purine => 5,
            DNA::Strong => 6,
            DNA::NotT => 7,
            DNA::Thymine => 8,
            DNA::Weak => 9,
            DNA::Pyrimidine => 10,
            DNA::NotG => 11,
            DNA::Ketone => 12,
            DNA::NotC => 13,
            DNA::NotA => 14,
            DNA::Any => 15,
        }
    }

    /// The symbol with the four-bit code `v`, if `v` is below 16.
    pub fn from_code(v: u8) -> (r: Option<DNA>)
        ensures
            r == dna_of_code(v),
            r is Some <==> v < 16,
    {
        match v {
            0 => Some(DNA::Gap),
            1 => Some(DNA::Adenine),
            2 => Some(DNA::Cytosine),
            3 => Some(DNA::Amino),
            4 => Some(DNA::Guanine),
            5 => Some(DNA::Purine),
            6 => Some(DNA::Strong),
            7 => Some(DNA::NotT),
            8 => Some(DNA::Thymine),
            9 => Some(DNA::Weak),
            10 => Some(DNA::Pyrimidine),
            11 => Some(DNA::NotG),
            12 => Some(DNA::Ketone),
            13 => Some(DNA::NotC),
            14 => Some(DNA::NotA),
            15 => Some(DNA::Any),
            _ => None,
        }
    }

    /// The letter of the symbol.
    pub fn to_char(self) -> (r: char)
        ensures
            r == dna_char(self),
            dna_of_char(r) == Some(self),
    {
        match self {
            DNA::Gap => '0',
            DNA::Adenine => 'A',
            DNA::Cytosine => 'C',
            DNA::Amino => 'M',
            DNA::Guanine => 'G',
            DNA::Purine => 'R',
            DNA::Strong => 'S',
            DNA::NotT => 'V',
            DNA::Thymine => 'T',
            DNA::Weak => 'W',
            DNA::Pyrimidine => 'Y',
            DNA::NotG => 'H',
            DNA::Ketone => 'K',
            DNA::NotC => 'D',
            DNA::NotA => 'B',
            DNA::Any => 'N',
        }
    }

    /// The symbol written by the letter `value`.
    pub fn try_from_char(value: char) -> (r: Result<DNA, TXaseError>)
        ensures
            match dna_of_char(value) {
                Some(n) => r == Ok::<DNA, TXaseError>(n),
                None => r matches Err(TXaseError::InvalidNucleotide(s)) && s@ == seq![value],
            },
    {
        match value {
            '0' => Ok(DNA::Gap),
            'A' => Ok(DNA::Adenine),
            'C' => Ok(DNA::Cytosine),
            'M' => Ok(DNA::Amino),
            'G' => Ok(DNA::Guanine),
            'R' => Ok(DNA::Purine),
            'S' => Ok(DNA::Strong),
            'V' => Ok(DNA::NotT),
            'T' => Ok(DNA::Thymine),
            'W' => Ok(DNA::Weak),
            'Y' => Ok(DNA::Pyrimidine),
            'H' => Ok(DNA::NotG),
            'K' => Ok(DNA::Ketone),
            'D' => Ok(DNA::NotC),
            'B' => Ok(DNA::NotA),
            'N' => Ok(DNA::Any),
            _ => {
                let mut s = String::new();
                push_char(&mut s, value);
                Err(TXaseError::InvalidNucleotide(s))
            },
        }
    }

    /// The symbol written by the one-letter text `s`.
    pub fn from_str(s: &str) -> (r: Result<DNA, TXaseError>)
        ensures
            s@.len() == 1 && dna_of_char(s@[0]) is Some ==> r == Ok::<DNA, TXaseError>(
                dna_of_char(s@[0])->0,
            ),
            !(s@.len() == 1 && dna_of_char(s@[0]) is Some) ==> (r matches Err(
                TXaseError::InvalidNucleotide(t),
            ) && t@ == s@),
    {
        let v = chars_of(s);
        if v.len() == 1 {
            if let Ok(n) = DNA::try_from_char(v[0]) {
                return Ok(n);
            }
        }
        Err(TXaseError::InvalidNucleotide(String::from_str(s)))
    }
}

impl Default for DNA {
    /// Any base.
    fn default() -> (r: DNA)
        ensures
            r == DNA::Any,
    {
        DNA::Any
    }
}

/// The sixteen IUPAC symbols of RNA, each a set of bases coded on four bits
/// (adenine 1, cytosine 2, guanine 4, uracil 8).
#[derive(Debug, Clone, Copy, PartialEq, Eq, Hash, Structural)]
pub enum RNA {
    /// A gap in the sequence.
    Zero,
    /// Adenine.
    Adenine,
    /// Cytosine.
    Cytosine,
    /// Adenine or cytosine.
    Amino,
    /// Guanine.
    Guanine,
    /// Adenine or guanine.
    Purine,
    /// Cytosine or guanine.
    Strong,
    /// Adenine, cytosine or guanine.
    NotU,
    /// Uracil.
    Uracil,
    /// Adenine or uracil.
    Weak,
    /// Cytosine or uracil.
    Pyrimidine,
    /// Adenine, cytosine or uracil.
    NotG,
    /// Guanine or uracil.
    Ketone,
    /// Adenine, guanine or uracil.
    NotC,
    /// Cytosine, guanine or uracil.
    NotA,
    /// Any nucleotide.
    Any,
}

/// The four-bit code of a symbol.
pub open spec fn rna_code(n: RNA) -> u8 {
    match n {
        RNA::Zero => 0u8,
        RNA::Adenine => 1u8,
        RNA::Cytosine => 2u8,
        RNA::Amino => 3u8,
        RNA::Guanine => 4u8,
        RNA::Purine => 5u8,
        RNA::Strong => 6u8,
        RNA::NotU => 7u8,
        RNA::Uracil => 8u8,
        RNA::Weak => 9u8,
        RNA::Pyrimidine => 10u8,
        RNA::NotG => 11u8,
        RNA::Ketone => 12u8,
        RNA::NotC => 13u8,
        RNA::NotA => 14u8,
        RNA::Any => 15u8,
    }
}

/// The letter of a symbol.
pub open spec fn rna_char(n: RNA) -> char {
    match n {
        RNA::Zero => '0',
        RNA::Adenine => 'A',
        RNA::Cytosine => 'C',
        RNA::Amino => 'M',
        RNA::Guanine => 'G',
        RNA::Purine => 'R',
        RNA::Strong => 'S',
        RNA::NotU => 'V',
        RNA::Uracil => 'U',
        RNA::Weak => 'W',
        RNA::Pyrimidine => 'Y',
        RNA::NotG => 'H',
        RNA::Ketone => 'K',
        RNA::NotC => 'D',
        RNA::NotA => 'B',
        RNA::Any => 'N',
    }
}

/// The symbol with a four-bit code.
pub open spec fn rna_of_code(v: u8) -> Option<RNA> {
    if v == 0 {
        Some(RNA::Zero)
    } else if v == 1 {
        Some(RNA::Adenine)
    } else if v == 2 {
        Some(RNA::Cytosine)
    } else if v == 3 {
        Some(RNA::Amino)
    } else if v == 4 {
        Some(RNA::Guanine)
    } else if v == 5 {
        Some(RNA::Purine)
    } else if v == 6 {
        Some(RNA::Strong)
    } else if v == 7 {
        Some(RNA::NotU)
    } else if v == 8 {
        Some(RNA::Uracil)
    } else if v == 9 {
        Some(RNA::Weak)
    } else if v == 10 {
        Some(RNA::Pyrimidine)
    } else if v == 11 {
        Some(RNA::NotG)
    } else if v == 12 {
        Some(RNA::Ketone)
    } else if v == 13 {
        Some(RNA::NotC)
    } else if v == 14 {
        Some(RNA::NotA)
    } else if v == 15 {
        Some(RNA::Any)
    } else {
        None
    }
}

/// The symbol with a letter.
pub open spec fn rna_of_char(c: char) -> Option<RNA> {
    if c == '0' {
        Some(RNA::Zero)
    } else if c == 'A' {
        Some(RNA::Adenine)
    } else if c == 'C' {
        Some(RNA::Cytosine)
    } else if c == 'M' {
        Some(RNA::Amino)
    } else if c == 'G' {
        Some(RNA::Guanine)
    } else if c == 'R' {
        Some(RNA::Purine)
    } else if c == 'S' {
        Some(RNA::Strong)
    } else if c == 'V' {
        Some(RNA::NotU)
    } else if c == 'U' {
        Some(RNA::Uracil)
    } else if c == 'W' {
        Some(RNA::Weak)
    } else if c == 'Y' {
        Some(RNA::Pyrimidine)
    } else if c == 'H' {
        Some(RNA::NotG)
    } else if c == 'K' {
        Some(RNA::Ketone)
    } else if c == 'D' {
        Some(RNA::NotC)
    } else if c == 'B' {
        Some(RNA::NotA)
    } else if c == 'N' {
        Some(RNA::Any)
    } else {
        None
    }
}

impl RNA {
    /// The four-bit code of the symbol.
    pub fn code(self) -> (r: u8)
        ensures
            r == rna_code(self),
            r < 16,
            rna_of_code(r) == Some(self),
    {
        match self {
            RNA::Zero => 0,
            RNA::Adenine => 1,
            RNA::Cytosine => 2,
            RNA::Amino => 3,
            RNA::Guanine => 4,
            RNA::Purine => 5,
            RNA::Strong => 6,
            RNA::NotU => 7,
            RNA::Uracil => 8,
            RNA::Weak => 9,
            RNA::Pyrimidine => 10,
            RNA::NotG => 11,
            RNA::Ketone => 12,
            RNA::NotC => 13,
            RNA::NotA => 14,
            RNA::Any => 15,
        }
    }

    /// The symbol with the four-bit code `v`, if `v` is below 16.
    pub fn from_code(v: u8) -> (r: Option<RNA>)
        ensures
            r == rna_of_code(v),
            r is Some <==> v < 16,
    {
        match v {
            0 => Some(RNA::Zero),
            1 => Some(RNA::Adenine),
            2 => Some(RNA::Cytosine),
            3 => Some(RNA::Amino),
            4 => Some(RNA::Guanine),
            5 => Some(RNA::Purine),
            6 => Some(RNA::Strong),
            7 => Some(RNA::NotU),
            8 => Some(RNA::Uracil),
            9 => Some(RNA::Weak),
            10 => Some(RNA::Pyrimidine),
            11 => Some(RNA::NotG),
            12 => Some(RNA::Ketone),
            13 => Some(RNA::NotC),
            14 => Some(RNA::NotA),
            15 => Some(RNA::Any),
            _ => None,
        }
    }

    /// The letter of the symbol.
    pub fn to_char(self) -> (r: char)
        ensures
            r == rna_char(self),
            rna_of_char(r) == Some(self),
    {
        match self {
            RNA::Zero => '0',
            RNA::Adenine => 'A',
            RNA::Cytosine => 'C',
            RNA::Amino => 'M',
            RNA::Guanine => 'G',
            RNA::Purine => 'R',
            RNA::Strong => 'S',
            RNA::NotU => 'V',
            RNA::Uracil => 'U',
            RNA::Weak => 'W',
            RNA::Pyrimidine => 'Y',
            RNA::NotG => 'H',
            RNA::Ketone => 'K',
            RNA::NotC => 'D',
            RNA::NotA => 'B',
            RNA::Any => 'N',
        }
    }

    /// The symbol written by the letter `value`.
    pub fn try_from_char(value: char) -> (r: Result<RNA, TXaseError>)
        ensures
            match rna_of_char(value) {
                Some(n) => r == Ok::<RNA, TXaseError>(n),
                None => r matches Err(TXaseError::InvalidNucleotide(s)) && s@ == seq![value],
            },
    {
        match value {
            '0' => Ok(RNA::Zero),
            'A' => Ok(RNA::Adenine),
            'C' => Ok(RNA::Cytosine),
            'M' => Ok(RNA::Amino),
            'G' => Ok(RNA::Guanine),
            'R' => Ok(RNA::Purine),
            'S' => Ok(RNA::Strong),
            'V' => Ok(RNA::NotU),
            'U' => Ok(RNA::Uracil),
            'W' => Ok(RNA::Weak),
            'Y' => Ok(RNA::Pyrimidine),
            'H' => Ok(RNA::NotG),
            'K' => Ok(RNA::Ketone),
            'D' => Ok(RNA::NotC),
            'B' => Ok(RNA::NotA),
            'N' => Ok(RNA::Any),
            _ => {
                let mut s = String::new();
                push_char(&mut s, value);
                Err(TXaseError::InvalidNucleotide(s))
            },
        }
    }

    /// The symbol written by the one-letter text `s`.
    pub fn from_str(s: &str) -> (r: Result<RNA, TXaseError>)
        ensures
            s@.len() == 1 && rna_of_char(s@[0]) is Some ==> r == Ok::<RNA, TXaseError>(
                rna_of_char(s@[0])->0,
            ),
            !(s@.len() == 1 && rna_of_char(s@[0]) is Some) ==> (r matches Err(
                TXaseError::InvalidNucleotide(t),
            ) && t@ == s@),
    {
        let v = chars_of(s);
        if v.len() == 1 {
            if let Ok(n) = RNA::try_from_char(v[0]) {
                return Ok(n);
            }
        }
        Err(TXaseError::InvalidNucleotide(String::from_str(s)))
    }
}

impl Default for RNA {
    /// Any base.
    fn default() -> (r: RNA)
        ensures
            r == RNA::Any,
    {
        RNA::Any
    }
}

} // verus!
