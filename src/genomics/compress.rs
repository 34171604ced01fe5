//! Two nucleotide symbols packed into one byte.

use vstd::prelude::*;

use crate::genomics::nucleotide::{DNA, dna_code, dna_of_code};

verus! {

/// Two four-bit symbol codes in one byte: the first in the low half.
#[derive(Debug, Clone, Copy)]
pub struct CompressedCodon(pub u8);

/// The two symbols packed in `v`: the low half first.
pub open spec fn unpack(v: u8) -> (DNA, DNA) {
    (dna_of_code(v & 15u8)->0, dna_of_code((v >> 4u8) & 15u8)->0)
}

impl CompressedCodon {
    /// Packs `c1` into the low half and `c2` into the high half.
    pub fn compress(c1: DNA, c2: DNA) -> (r: CompressedCodon)
        ensures
            r.0 == dna_code(c2) * 16 + dna_code(c1),
            unpack(r.0) == (c1, c2),
    {
        let low = c1.code();
        let high = c2.code();
        let v = (high << 4u8) | low;
        assert(v & 15u8 == low && (v >> 4u8) & 15u8 == high && v == high * 16 + low) by (bit_vector)
            requires
                v == (high << 4u8) | low,
                low < 16,
                high < 16,
        ;
        CompressedCodon(v)
    }

    /// The two packed symbols: the low half first.
    pub fn split(self) -> (r: (DNA, DNA))
        ensures
            r == unpack(self.0),
    {
        let v = self.0;
        let low = v & 15u8;
        let high = (v >> 4u8) & 15u8;
        assert(low < 16 && high < 16) by (bit_vector)
            requires
                low == v & 15u8,
                high == (v >> 4u8) & 15u8,
        ;
        (DNA::from_code(low).unwrap(), DNA::from_code(high).unwrap())
    }
}

} // verus!
