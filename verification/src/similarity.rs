//! Similarity scores as IEEE-754 single-precision bit patterns, and the total
//! order in which they are ranked.

use vstd::prelude::*;

verus! {

/// The sign bit of a single-precision bit pattern.
pub const SIGN_BIT: u32 = 0x8000_0000;

/// The magnitude bits of an infinity; every larger magnitude is not a number.
pub const INFINITY_MAGNITUDE: u32 = 0x7f80_0000;

/// The rank key of an undefined similarity: below the key of negative infinity.
pub const UNDEFINED_KEY: i64 = -0x7f80_0001;

/// A cosine similarity, kept as the bit pattern of a single-precision number.
///
/// A pair of vectors of which one has norm zero has no similarity; its score
/// is a not-a-number pattern and ranks below every defined score.
#[derive(Clone, Copy, Debug, PartialEq, Eq, Structural)]
pub struct Similarity {
    pub bits: u32,
}

impl Similarity {
    /// The pattern without its sign bit.
    pub open spec fn magnitude(self) -> int {
        if self.bits >= SIGN_BIT {
            self.bits - SIGN_BIT
        } else {
            self.bits as int
        }
    }

    /// Whether the pattern is not a number.
    pub open spec fn is_undefined(self) -> bool {
        self.magnitude() > INFINITY_MAGNITUDE
    }

    /// An integer that orders scores as the numbers they encode are ordered:
    /// both zeros share key 0, negative numbers have negative keys, and every
    /// undefined score has the one key below all others.
    pub open spec fn rank_key(self) -> int {
        if self.is_undefined() {
            UNDEFINED_KEY as int
        } else if self.bits >= SIGN_BIT {
            -self.magnitude()
        } else {
            self.magnitude()
        }
    }

    pub fn from_bits(bits: u32) -> (s: Similarity)
        ensures
            s.bits == bits,
    {
        Similarity { bits }
    }

    pub fn to_bits(&self) -> (bits: u32)
        ensures
            bits == self.bits,
    {
        self.bits
    }

    pub fn is_nan(&self) -> (r: bool)
        ensures
            r == self.is_undefined(),
    {
        let magnitude: u32 = if self.bits >= SIGN_BIT {
            self.bits - SIGN_BIT
        } else {
            self.bits
        };
        magnitude > INFINITY_MAGNITUDE
    }

    pub fn key(&self) -> (k: i64)
        ensures
            k == self.rank_key(),
    {
        let negative: bool = self.bits >= SIGN_BIT;
        let magnitude: u32 = if negative {
            self.bits - SIGN_BIT
        } else {
            self.bits
        };
        if magnitude > INFINITY_MAGNITUDE {
            UNDEFINED_KEY
        } else if negative {
            -(magnitude as i64)
        } else {
            magnitude as i64
        }
    }
}

/// Whether the score at `i` ranks strictly before the score at `j`: a higher
/// key first, and among equal keys the earlier position first.
pub open spec fn outranks(scores: Seq<Similarity>, i: int, j: int) -> bool {
    let ki = scores[i].rank_key();
    let kj = scores[j].rank_key();
    ki > kj || (ki == kj && i < j)
}

/// Decides `outranks` for two positions of `scores`.
pub fn ranks_before(scores: &Vec<Similarity>, i: usize, j: usize) -> (r: bool)
    requires
        i < scores.len(),
        j < scores.len(),
    ensures
        r == outranks(scores@, i as int, j as int),
{
    let ki: i64 = scores[i].key();
    let kj: i64 = scores[j].key();
    ki > kj || (ki == kj && i < j)
}

} // verus!
