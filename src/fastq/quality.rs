//! Quality scores written as printable ASCII characters.

use vstd::prelude::*;

verus! {

/// A printable ASCII character other than space: `!` through `~`.
pub open spec fn is_quality_char(c: char) -> bool {
    '!' <= c <= '~'
}

/// A quality score that is written as one printable character.
pub trait Quality {
    /// Whether `c` can write a quality score.
    fn is_valid(c: char) -> (r: bool)
        ensures
            r == is_quality_char(c),
    {
        '!' <= c && c <= '~'
    }
}

/// A Phred score, `-10 * log10(P)` for an error probability `P`, written
/// with an offset of 33.
#[derive(Debug)]
pub struct Phred(u8);

impl Phred {
    #[verifier::type_invariant]
    spec fn inv(&self) -> bool {
        self.0 <= 93
    }

    /// The score that the character `value` writes.
    pub fn try_from_char(value: char) -> (r: Option<Phred>)
        ensures
            r is Some <==> is_quality_char(value),
            r matches Some(p) ==> p.score() == value as u32 - 33,
    {
        if '!' <= value && value <= '~' {
            Some(Phred((value as u32 - 33) as u8))
        } else {
            None
        }
    }

    pub closed spec fn score(&self) -> u32 {
        self.0 as u32
    }

    /// The score.
    pub fn value(&self) -> (r: u8)
        ensures
            r as u32 == self.score(),
            r <= 93,
    {
        proof {
            use_type_invariant(self);
        }
        self.0
    }

    /// The character that writes the score.
    pub fn to_char(&self) -> (r: char)
        ensures
            r as u32 == self.score() + 33,
            is_quality_char(r),
    {
        proof {
            use_type_invariant(self);
        }
        ((self.0 + 33) as u8) as char
    }
}

impl Quality for Phred {

}

/// A score of the Solexa pipeline before version 1.3,
/// `-10 * log10(p / (1 - p))`, kept as the character code that writes it.
#[derive(Debug)]
pub struct Solexa(u8);

impl Solexa {
    #[verifier::type_invariant]
    spec fn inv(&self) -> bool {
        33 <= self.0 <= 126
    }

    pub closed spec fn code(&self) -> u32 {
        self.0 as u32
    }

    /// The score that the character `value` writes.
    pub fn try_from_char(value: char) -> (r: Option<Solexa>)
        ensures
            r is Some <==> is_quality_char(value),
            r matches Some(s) ==> s.code() == value as u32,
    {
        if '!' <= value && value <= '~' {
            Some(Solexa(value as u32 as u8))
        } else {
            None
        }
    }

    /// The character code that writes the score.
    pub fn value(&self) -> (r: u8)
        ensures
            r as u32 == self.code(),
            33 <= r <= 126,
    {
        proof {
            use_type_invariant(self);
        }
        self.0
    }

    /// The character that writes the score.
    pub fn to_char(&self) -> (r: char)
        ensures
            r as u32 == self.code(),
            is_quality_char(r),
    {
        proof {
            use_type_invariant(self);
        }
        self.0 as char
    }
}

impl Quality for Solexa {

}

} // verus!
