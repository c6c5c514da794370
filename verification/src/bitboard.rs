//! A 64-bit set abstraction over board squares.
//!
//! Bit `i` represents one square, with ranks running top-down and files
//! left-to-right: bit 0 is a8, bit 7 is h8, bit 56 is a1, bit 63 is h1.

use vstd::prelude::*;

verus! {

/// A 64-bit set of board squares, one bit per square (bit 0 = a8, bit 63 = h1).
#[derive(Clone, Copy, PartialEq, Eq, Structural, Debug)]
pub struct BitBoard(pub u64);

/// Square `i` is a member of the set `b`.
pub open spec fn has(b: u64, i: u64) -> bool
    recommends
        i < 64,
{
    (b >> i) & 1u64 == 1u64
}

/// The set `b` with square `i` added.
pub open spec fn with_sq(b: u64, i: u64) -> u64
    recommends
        i < 64,
{
    b | (1u64 << i)
}

/// The set `b` with square `i` removed.
pub open spec fn without_sq(b: u64, i: u64) -> u64
    recommends
        i < 64,
{
    b & !(1u64 << i)
}

/// The number of members of `b` among squares `0 .. n`.
pub open spec fn popcnt(b: u64, n: u64) -> nat
    decreases n,
{
    if n == 0 {
        0
    } else {
        popcnt(b, (n - 1) as u64) + if has(b, (n - 1) as u64) {
            1nat
        } else {
            0nat
        }
    }
}

/// The empty set has no members.
pub proof fn lemma_has_zero()
    ensures
        forall|j: u64| j < 64 ==> !(has(0u64, j)),
{
    assert forall|j: u64| j < 64 implies !(has(0u64, j)) by {
        assert(!(has(0u64, j))) by (bit_vector);
    }
}

/// Adding square `i` adds exactly that square.
pub proof fn lemma_with_sq(b: u64, i: u64)
    requires
        i < 64,
    ensures
        forall|j: u64| j < 64 ==> #[trigger] has(with_sq(b, i), j) == (j == i || has(b, j)),
{
    assert forall|j: u64| j < 64 implies #[trigger] has(with_sq(b, i), j) == (j == i || has(b, j)) by {
        assert(has(with_sq(b, i), j) == (j == i || has(b, j)))
            by (bit_vector)
            requires
                i < 64,
                j < 64,
        ;
    }
}

/// Removing square `i` removes exactly that square.
pub proof fn lemma_without_sq(b: u64, i: u64)
    requires
        i < 64,
    ensures
        forall|j: u64| j < 64 ==> #[trigger] has(without_sq(b, i), j) == (j != i && has(b, j)),
{
    assert forall|j: u64| j < 64 implies #[trigger] has(without_sq(b, i), j) == (j != i && has(b, j)) by {
        assert(has(without_sq(b, i), j) == (j != i && has(b, j)))
            by (bit_vector)
            requires
                i < 64,
                j < 64,
        ;
    }
}

/// Union holds the squares of either set.
pub proof fn lemma_has_or(a: u64, b: u64)
    ensures
        forall|j: u64| j < 64 ==> #[trigger] has(a | b, j) == (has(a, j) || has(b, j)),
{
    assert forall|j: u64| j < 64 implies #[trigger] has(a | b, j) == (has(a, j) || has(b, j)) by {
        assert(has(a | b, j) == (has(a, j) || has(b, j)))
            by (bit_vector)
            requires
                j < 64,
        ;
    }
}

/// Intersection holds the squares of both sets.
pub proof fn lemma_has_and(a: u64, b: u64)
    ensures
        forall|j: u64| j < 64 ==> #[trigger] has(a & b, j) == (has(a, j) && has(b, j)),
{
    assert forall|j: u64| j < 64 implies #[trigger] has(a & b, j) == (has(a, j) && has(b, j)) by {
        assert(has(a & b, j) == (has(a, j) && has(b, j)))
            by (bit_vector)
            requires
                j < 64,
        ;
    }
}

/// Difference holds the squares of the first set not in the second.
pub proof fn lemma_has_diff(a: u64, b: u64)
    ensures
        forall|j: u64| j < 64 ==> #[trigger] has(a & !b, j) == (has(a, j) && !(has(b, j))),
{
    assert forall|j: u64| j < 64 implies #[trigger] has(a & !b, j) == (has(a, j) && !(has(
        b,
        j,
    ))) by {
        assert(has(a & !b, j) == (has(a, j) && !(has(b, j))))
            by (bit_vector)
            requires
                j < 64,
        ;
    }
}

/// Square `sq` as the byte-oriented representation stores it: byte `sq / 8`
/// is the top rank first, and bit 7 of a byte is file A.
pub open spec fn byte_has(bytes: [u8; 8], sq: u64) -> bool
    recommends
        sq < 64,
{
    (bytes[(sq / 8) as int] >> ((7 - sq % 8) as u8)) & 1u8 == 1u8
}

impl BitBoard {
    /// Square `i` is a member of this set.
    pub fn test(&self, i: u64) -> (r: bool)
        requires
            i < 64,
        ensures
            r == has(self.0, i),
    {
        (self.0 >> i) & 1u64 == 1u64
    }

    /// This set with square `i` added.
    pub fn set(&self, i: u64) -> (r: BitBoard)
        requires
            i < 64,
        ensures
            r.0 == with_sq(self.0, i),
            forall|j: u64| j < 64 ==> has(r.0, j) == (j == i || has(self.0, j)),
    {
        proof {
            lemma_with_sq(self.0, i);
        }
        BitBoard(self.0 | (1u64 << i))
    }

    /// This set with square `i` removed.
    pub fn clear(&self, i: u64) -> (r: BitBoard)
        requires
            i < 64,
        ensures
            r.0 == without_sq(self.0, i),
            forall|j: u64| j < 64 ==> has(r.0, j) == (j != i && has(self.0, j)),
    {
        proof {
            lemma_without_sq(self.0, i);
        }
        BitBoard(self.0 & !(1u64 << i))
    }

    /// The union of the two sets.
    pub fn union(&self, other: &BitBoard) -> (r: BitBoard)
        ensures
            r.0 == self.0 | other.0,
            forall|j: u64| j < 64 ==> #[trigger] has(r.0, j) == (has(self.0, j) || has(other.0, j)),
    {
        proof {
            lemma_has_or(self.0, other.0);
        }
        BitBoard(self.0 | other.0)
    }

    /// The intersection of the two sets.
    pub fn intersect(&self, other: &BitBoard) -> (r: BitBoard)
        ensures
            r.0 == self.0 & other.0,
            forall|j: u64| j < 64 ==> #[trigger] has(r.0, j) == (has(self.0, j) && has(other.0, j)),
    {
        proof {
            lemma_has_and(self.0, other.0);
        }
        BitBoard(self.0 & other.0)
    }

    /// The difference: this set without the squares of the other.
    pub fn difference(&self, other: &BitBoard) -> (r: BitBoard)
        ensures
            r.0 == self.0 & !other.0,
            forall|j: u64|
                j < 64 ==> #[trigger] has(r.0, j) == (has(self.0, j) && !(has(other.0, j))),
    {
        proof {
            lemma_has_diff(self.0, other.0);
        }
        BitBoard(self.0 & !other.0)
    }

    /// The number of squares in this set.
    pub fn count(&self) -> (r: u32)
        ensures
            r == popcnt(self.0, 64),
            r <= 64,
    {
        let mut count: u32 = 0;
        let mut i: u64 = 0;
        while i < 64
            invariant
                i <= 64,
                count == popcnt(self.0, i),
                count <= i,
            decreases 64 - i,
        {
            if self.test(i) {
                count = count + 1;
            }
            i = i + 1;
        }
        count
    }

    /// The index of the lowest set square, or `None` when the set is empty.
    /// Callers that cannot tolerate an empty set must check emptiness first.
    pub fn lowest(&self) -> (r: Option<u64>)
        ensures
            match r {
                Some(i) => i < 64 && has(self.0, i) && forall|j: u64| j < i ==> !(has(self.0, j)),
                None => forall|j: u64| j < 64 ==> !(has(self.0, j)),
            },
    {
        let mut i: u64 = 0;
        while i < 64
            invariant
                i <= 64,
                forall|j: u64| j < i ==> !(has(self.0, j)),
            decreases 64 - i,
        {
            if self.test(i) {
                return Some(i);
            }
            i = i + 1;
        }
        None
    }

    /// Builds a set from an 8-byte rank-ordered representation: byte 0 is the
    /// top rank (rank 8), byte 7 the bottom rank, and bit 7 of each byte is
    /// file A, so each byte is bit-reversed and placed at its 8-bit-aligned
    /// offset.
    pub fn from_bytes(bytes: [u8; 8]) -> (r: Self)
        ensures
            forall|sq: u64| sq < 64 ==> has(r.0, sq) == byte_has(bytes, sq),
    {
        let mut result: u64 = 0;
        let mut sq: u64 = 0;
        proof {
            lemma_has_zero();
        }
        while sq < 64
            invariant
                sq <= 64,
                forall|j: u64| j < sq ==> has(result, j) == byte_has(bytes, j),
                forall|j: u64| sq <= j < 64 ==> !(has(result, j)),
            decreases 64 - sq,
        {
            let ghost prev = result;
            let byte = bytes[(sq / 8) as usize];
            let shift: u8 = (7 - sq % 8) as u8;
            if (byte >> shift) & 1u8 == 1u8 {
                result = result | (1u64 << sq);
                proof {
                    lemma_with_sq(prev, sq);
                    assert(result == with_sq(prev, sq));
                    assert(byte_has(bytes, sq));
                    assert forall|j: u64| j <= sq implies has(result, j) == byte_has(bytes, j) by {
                        assert(has(with_sq(prev, sq), j) == (j == sq || has(prev, j)));
                    }
                    assert forall|j: u64| sq < j < 64 implies !(has(result, j)) by {
                        assert(has(with_sq(prev, sq), j) == (j == sq || has(prev, j)));
                    }
                }
            } else {
                proof {
                    assert(!(byte_has(bytes, sq)));
                }
            }
            sq = sq + 1;
        }
        BitBoard(result)
    }
}

} // verus!
