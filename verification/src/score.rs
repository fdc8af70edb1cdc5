//! A score, held as the bit pattern of a 32-bit binary floating-point
//! number, and the order in which scores are ranked.

use vstd::prelude::*;

verus! {

/// The bit pattern of one score: sign in the top bit, then eight exponent
/// bits, then the fraction.
#[derive(Clone, Copy, Debug, PartialEq, Eq, Structural)]
pub struct Score {
    pub bits: u32,
}

impl Score {
    /// Whether the pattern is a finite number: its exponent is not all ones.
    pub open spec fn is_finite(self) -> bool {
        (self.bits / 0x80_0000) % 0x100 != 0xff
    }

    /// The place of the score on the number line, as an integer that grows
    /// with the number the pattern denotes. Both zeros have rank 0. A
    /// pattern that is no number ranks beyond the infinity of its sign.
    pub open spec fn rank(self) -> int {
        if self.bits < 0x8000_0000 {
            self.bits as int
        } else {
            0x8000_0000 - self.bits
        }
    }

    /// The score with the given bit pattern.
    pub fn from_bits(bits: u32) -> (score: Score)
        ensures
            score.bits == bits,
    {
        Score { bits }
    }

    /// The bit pattern of the score.
    pub fn to_bits(&self) -> (bits: u32)
        ensures
            bits == self.bits,
    {
        self.bits
    }

    /// Whether the score is a finite number.
    pub fn finite(&self) -> (finite: bool)
        ensures
            finite == self.is_finite(),
    {
        (self.bits / 0x80_0000) % 0x100 != 0xff
    }

    /// The rank of the score.
    pub fn ranked(&self) -> (rank: i64)
        ensures
            rank == self.rank(),
    {
        if self.bits < 0x8000_0000 {
            self.bits as i64
        } else {
            0x8000_0000i64 - self.bits as i64
        }
    }
}

/// Whether every score of `scores` is finite.
pub open spec fn all_finite(scores: Seq<Score>) -> bool {
    forall|i: int| 0 <= i < scores.len() ==> (#[trigger] scores[i]).is_finite()
}

/// The bit patterns of `scores`.
pub open spec fn bits_of(scores: Seq<Score>) -> Seq<u32> {
    Seq::new(scores.len(), |i: int| scores[i].bits)
}

/// The scores with the bit patterns `words`.
pub open spec fn scores_of(words: Seq<u32>) -> Seq<Score> {
    Seq::new(words.len(), |i: int| Score { bits: words[i] })
}

} // verus!
