//! A 64-bit plane of board squares: one bit per square, with wrap-safe
//! directional shifts and boolean set algebra.
//!
//! Bit `i` (0-indexed, file-within-rank, rank-major) stands for the square
//! with flat index `i`; rank `i / 8`, file `i % 8`.

use crate::cell::Cell;
use vstd::prelude::*;

verus! {

/// All squares of rank 1 (flat indices 0..8).
pub const RANK_1: u64 = 0x0000_0000_0000_00FF;
/// All squares of rank 2 (flat indices 8..16).
pub const RANK_2: u64 = 0x0000_0000_0000_FF00;
/// All squares of rank 3 (flat indices 16..24).
pub const RANK_3: u64 = 0x0000_0000_00FF_0000;
/// All squares of rank 4 (flat indices 24..32).
pub const RANK_4: u64 = 0x0000_0000_FF00_0000;
/// All squares of rank 5 (flat indices 32..40).
pub const RANK_5: u64 = 0x0000_00FF_0000_0000;
/// All squares of rank 6 (flat indices 40..48).
pub const RANK_6: u64 = 0x0000_FF00_0000_0000;
/// All squares of rank 7 (flat indices 48..56).
pub const RANK_7: u64 = 0x00FF_0000_0000_0000;
/// All squares of rank 8 (flat indices 56..64).
pub const RANK_8: u64 = 0xFF00_0000_0000_0000;

/// All squares of file a (flat index 0 within each rank).
pub const FILE_A: u64 = 0x0101_0101_0101_0101;
/// All squares of file b.
pub const FILE_B: u64 = 0x0202_0202_0202_0202;
/// All squares of file c.
pub const FILE_C: u64 = 0x0404_0404_0404_0404;
/// All squares of file d.
pub const FILE_D: u64 = 0x0808_0808_0808_0808;
/// All squares of file e.
pub const FILE_E: u64 = 0x1010_1010_1010_1010;
/// All squares of file f.
pub const FILE_F: u64 = 0x2020_2020_2020_2020;
/// All squares of file g.
pub const FILE_G: u64 = 0x4040_4040_4040_4040;
/// All squares of file h (flat index 7 within each rank).
pub const FILE_H: u64 = 0x8080_8080_8080_8080;

/// The rank white pawns start on.
pub const WHITE_PAWN_START: u64 = RANK_2;
/// The rank black pawns start on.
pub const BLACK_PAWN_START: u64 = RANK_7;

/// A plane with no squares set.
pub const EMPTY: u64 = 0;

/// A 64-bit set of board squares. Bit `i` is the square with flat index `i`.
#[derive(Clone, Copy, PartialEq, Eq, Structural, Debug)]
pub struct BitBoard(pub u64);

/// Bit `i` of the word `w`, for `i < 64`.
pub open spec fn nth_bit(w: u64, i: u64) -> bool {
    (w >> i) & 1 == 1
}

/// The number of set bits of `w` among the low `n` bit positions.
pub open spec fn pop_count(w: u64, n: nat) -> nat
    decreases n,
{
    if n == 0 {
        0
    } else {
        pop_count(w, (n - 1) as nat) + if nth_bit(w, (n - 1) as u64) {
            1nat
        } else {
            0nat
        }
    }
}

impl BitBoard {
    /// The square with flat index `i` is present on this plane.
    pub open spec fn has(self, i: int) -> bool {
        0 <= i < 64 && nth_bit(self.0, i as u64)
    }

    /// The plane moved one rank up; rank 8 falls off the board.
    pub open spec fn spec_north(self) -> BitBoard {
        BitBoard(self.0 << 8)
    }

    /// The plane moved one rank down; rank 1 falls off the board.
    pub open spec fn spec_south(self) -> BitBoard {
        BitBoard(self.0 >> 8)
    }

    /// The plane moved one file toward file h; file h falls off the board
    /// rather than wrapping onto file a of the next rank.
    pub open spec fn spec_east(self) -> BitBoard {
        BitBoard((self.0 << 1) & !FILE_A)
    }

    /// The plane moved one file toward file a; file a falls off the board
    /// rather than wrapping onto file h of the previous rank.
    pub open spec fn spec_west(self) -> BitBoard {
        BitBoard((self.0 >> 1) & !FILE_H)
    }

    /// The intersection of two planes.
    pub open spec fn spec_and(self, other: BitBoard) -> BitBoard {
        BitBoard(self.0 & other.0)
    }

    /// The union of two planes.
    pub open spec fn spec_or(self, other: BitBoard) -> BitBoard {
        BitBoard(self.0 | other.0)
    }

    /// The complement of a plane within the 64 board squares.
    pub open spec fn spec_not(self) -> BitBoard {
        BitBoard(!self.0)
    }
}

impl BitBoard {
    /// Builds a plane holding exactly the square with flat index `index`.
    pub fn from_index(index: u8) -> (r: BitBoard)
        requires
            index < 64,
        ensures
            r.0 == 1u64 << index,
            forall|i: int| #[trigger] r.has(i) <==> i == index,
    {
        proof {
            assert forall|i: int| #[trigger] BitBoard(1u64 << index).has(i) <==> i == index by {
                if 0 <= i < 64 {
                    lemma_single_bit(0, index as u64, i as u64);
                }
            }
        }
        BitBoard(1u64 << index)
    }

    /// Builds a plane holding exactly the given square.
    pub fn from_cell(cell: Cell) -> (r: BitBoard)
        requires
            cell.wf(),
        ensures
            forall|i: int| #[trigger] r.has(i) <==> i == cell.flat_index(),
    {
        Self::from_index(cell.index())
    }

    /// Whether the square with flat index `index` is on this plane.
    pub fn is_index_set(&self, index: u8) -> (r: bool)
        requires
            index < 64,
        ensures
            r == self.has(index as int),
    {
        proof {
            lemma_single_bit(self.0, index as u64, index as u64);
        }
        (self.0 & (1u64 << index)) != 0
    }

    /// Whether the given square is on this plane.
    pub fn is_cell_set(&self, cell: Cell) -> (r: bool)
        requires
            cell.wf(),
        ensures
            r == self.has(cell.flat_index()),
    {
        self.is_index_set(cell.index())
    }

    /// Adds the square with flat index `index` to this plane.
    pub fn set_index(&mut self, index: u8)
        requires
            index < 64,
        ensures
            final(self).0 == old(self).0 | (1u64 << index),
            forall|i: int| #[trigger] final(self).has(i) <==> (old(self).has(i) || i == index),
    {
        proof {
            assert forall|i: int|
                #[trigger] BitBoard(self.0 | (1u64 << index)).has(i) <==> (self.has(i) || i
                    == index) by {
                if 0 <= i < 64 {
                    lemma_single_bit(self.0, index as u64, i as u64);
                }
            }
        }
        self.0 = self.0 | (1u64 << index);
    }

    /// Adds the given square to this plane.
    pub fn set_cell(&mut self, cell: Cell)
        requires
            cell.wf(),
        ensures
            forall|i: int|
                #[trigger] final(self).has(i) <==> (old(self).has(i) || i == cell.flat_index()),
    {
        let index = cell.index();
        self.set_index(index);
    }

    /// Removes the square with flat index `index` from this plane.
    pub fn clear_index(&mut self, index: u8)
        requires
            index < 64,
        ensures
            final(self).0 == old(self).0 & !(1u64 << index),
            forall|i: int| #[trigger] final(self).has(i) <==> (old(self).has(i) && i != index),
    {
        proof {
            assert forall|i: int|
                #[trigger] BitBoard(self.0 & !(1u64 << index)).has(i) <==> (self.has(i) && i
                    != index) by {
                if 0 <= i < 64 {
                    lemma_single_bit(self.0, index as u64, i as u64);
                }
            }
        }
        self.0 = self.0 & !(1u64 << index);
    }

    /// Removes the given square from this plane.
    pub fn clear_cell(&mut self, cell: Cell)
        requires
            cell.wf(),
        ensures
            forall|i: int|
                #[trigger] final(self).has(i) <==> (old(self).has(i) && i != cell.flat_index()),
    {
        let index = cell.index();
        self.clear_index(index);
    }

    /// The number of squares on this plane.
    pub fn count_ones(&self) -> (r: u32)
        ensures
            r == pop_count(self.0, 64),
            r <= 64,
    {
        let mut count: u32 = 0;
        let mut i: u64 = 0;
        while i < 64
            invariant
                i <= 64,
                count == pop_count(self.0, i as nat),
                count <= i,
            decreases 64 - i,
        {
            if (self.0 >> i) & 1 == 1 {
                count = count + 1;
            }
            i = i + 1;
        }
        count
    }

    /// Whether no square is on this plane.
    pub fn is_empty(&self) -> (r: bool)
        ensures
            r <==> self.0 == 0,
            r <==> (forall|i: int| !(#[trigger] self.has(i))),
    {
        proof {
            lemma_empty_iff_no_squares(*self);
        }
        self.0 == 0
    }

    /// Whether some square is on this plane.
    pub fn is_non_empty(&self) -> (r: bool)
        ensures
            r <==> self.0 != 0,
            r <==> (exists|i: int| self.has(i)),
    {
        proof {
            lemma_empty_iff_no_squares(*self);
            if self.0 != 0 {
                assert(!(forall|i: int| !(#[trigger] self.has(i))));
                assert(exists|i: int| self.has(i));
            }
        }
        self.0 != 0
    }

    /// Moves every square one rank up; rank 8 falls off the board.
    pub fn north(&self) -> (r: BitBoard)
        ensures
            r == self.spec_north(),
            forall|i: int| #[trigger] r.has(i) <==> (i < 64 && self.has(i - 8)),
    {
        let r = BitBoard(self.0 << 8);
        proof {
            lemma_north_has(*self);
            assert(r == self.spec_north());
            assert forall|i: int| #[trigger] r.has(i) <==> (i < 64 && self.has(i - 8)) by {
                assert(r.has(i) == self.spec_north().has(i));
            }
        }
        r
    }

    /// Moves every square one rank down; rank 1 falls off the board.
    pub fn south(&self) -> (r: BitBoard)
        ensures
            r == self.spec_south(),
            forall|i: int| #[trigger] r.has(i) <==> (0 <= i && self.has(i + 8)),
    {
        let r = BitBoard(self.0 >> 8);
        proof {
            lemma_south_has(*self);
            assert(r == self.spec_south());
            assert forall|i: int| #[trigger] r.has(i) <==> (0 <= i && self.has(i + 8)) by {
                assert(r.has(i) == self.spec_south().has(i));
            }
        }
        r
    }

    /// Moves every square one file toward file h; file h falls off the
    /// board instead of wrapping onto file a.
    pub fn east(&self) -> (r: BitBoard)
        ensures
            r == self.spec_east(),
            forall|i: int| #[trigger] r.has(i) <==> (i % 8 != 0 && self.has(i - 1)),
    {
        let r = BitBoard((self.0 << 1) & !FILE_A);
        proof {
            lemma_east_has(*self);
            assert(r == self.spec_east());
            assert forall|i: int| #[trigger] r.has(i) <==> (i % 8 != 0 && self.has(i - 1)) by {
                assert(r.has(i) == self.spec_east().has(i));
            }
        }
        r
    }

    /// Moves every square one file toward file a; file a falls off the
    /// board instead of wrapping onto file h.
    pub fn west(&self) -> (r: BitBoard)
        ensures
            r == self.spec_west(),
            forall|i: int| #[trigger] r.has(i) <==> (i % 8 != 7 && self.has(i + 1)),
    {
        let r = BitBoard((self.0 >> 1) & !FILE_H);
        proof {
            lemma_west_has(*self);
            assert(r == self.spec_west());
            assert forall|i: int| #[trigger] r.has(i) <==> (i % 8 != 7 && self.has(i + 1)) by {
                assert(r.has(i) == self.spec_west().has(i));
            }
        }
        r
    }

    /// Moves every square one rank up and one file toward file h.
    pub fn northeast(&self) -> (r: BitBoard)
        ensures
            r == self.spec_north().spec_east(),
            forall|i: int| #[trigger] r.has(i) <==> (i < 64 && i % 8 != 0 && self.has(i - 9)),
    {
        let n = self.north();
        n.east()
    }

    /// Moves every square one rank up and one file toward file a.
    pub fn northwest(&self) -> (r: BitBoard)
        ensures
            r == self.spec_north().spec_west(),
            forall|i: int| #[trigger] r.has(i) <==> (i < 64 && i % 8 != 7 && self.has(i - 7)),
    {
        let n = self.north();
        n.west()
    }

    /// Moves every square one rank down and one file toward file h.
    pub fn southeast(&self) -> (r: BitBoard)
        ensures
            r == self.spec_south().spec_east(),
            forall|i: int| #[trigger] r.has(i) <==> (0 <= i && i % 8 != 0 && self.has(i + 7)),
    {
        let s = self.south();
        s.east()
    }

    /// Moves every square one rank down and one file toward file a.
    pub fn southwest(&self) -> (r: BitBoard)
        ensures
            r == self.spec_south().spec_west(),
            forall|i: int| #[trigger] r.has(i) <==> (0 <= i && i % 8 != 7 && self.has(i + 9)),
    {
        let s = self.south();
        s.west()
    }

    /// Intersects this plane with `rhs` in place.
    pub fn bitand_assign(&mut self, rhs: BitBoard)
        ensures
            *final(self) == old(self).spec_and(rhs),
            forall|i: int| #[trigger] final(self).has(i) <==> (old(self).has(i) && rhs.has(i)),
    {
        proof {
            lemma_algebra_has(*self, rhs);
        }
        self.0 = self.0 & rhs.0;
        proof {
            assert(*self == old(self).spec_and(rhs));
            assert forall|i: int| #[trigger] self.has(i) <==> (old(self).has(i) && rhs.has(i)) by {
                assert(self.has(i) == old(self).spec_and(rhs).has(i));
            }
        }
    }

    /// Unites this plane with `rhs` in place.
    pub fn bitor_assign(&mut self, rhs: BitBoard)
        ensures
            *final(self) == old(self).spec_or(rhs),
            forall|i: int| #[trigger] final(self).has(i) <==> (old(self).has(i) || rhs.has(i)),
    {
        proof {
            lemma_algebra_has(*self, rhs);
        }
        self.0 = self.0 | rhs.0;
        proof {
            assert(*self == old(self).spec_or(rhs));
            assert forall|i: int| #[trigger] self.has(i) <==> (old(self).has(i) || rhs.has(i)) by {
                assert(self.has(i) == old(self).spec_or(rhs).has(i));
            }
        }
    }

    /// Raw word shift: positive steps shift toward higher indices,
    /// negative toward lower. No file mask is applied, so a horizontal
    /// step wraps unless the caller masks, as `east` and `west` do.
    pub fn shift(&self, steps: i8) -> (r: BitBoard)
        requires
            -64 < steps < 64,
        ensures
            steps >= 0 ==> r.0 == self.0 << (steps as u64),
            steps < 0 ==> r.0 == self.0 >> ((0 - steps as int) as u64),
            forall|i: int| #[trigger] r.has(i) <==> (0 <= i < 64 && self.has(i - steps)),
    {
        if steps >= 0 {
            let r = BitBoard(self.0 << (steps as u64));
            proof {
                assert forall|i: int| #[trigger] r.has(i) <==> (0 <= i < 64 && self.has(i - steps)) by {
                    if 0 <= i < 64 {
                        lemma_shift_bit(self.0, steps as u64, i as u64);
                    }
                }
            }
            r
        } else {
            let back: u64 = (-steps) as u64;
            let r = BitBoard(self.0 >> back);
            proof {
                assert forall|i: int| #[trigger] r.has(i) <==> (0 <= i < 64 && self.has(i - steps)) by {
                    if 0 <= i < 64 {
                        lemma_shift_bit(self.0, back, i as u64);
                    }
                }
            }
            r
        }
    }
}

impl core::ops::Not for BitBoard {
    type Output = BitBoard;

    /// The complement within the 64 board squares: the word is exactly
    /// 64 bits wide, so no spurious high bits arise.
    fn not(self) -> (r: BitBoard)
        ensures
            r == self.spec_not(),
            forall|i: int| #[trigger] r.has(i) <==> (0 <= i < 64 && !self.has(i)),
    {
        let r = BitBoard(!self.0);
        proof {
            lemma_algebra_has(self, self);
            assert(r == self.spec_not());
            assert forall|i: int| #[trigger] r.has(i) <==> (0 <= i < 64 && !self.has(i)) by {
                assert(r.has(i) == self.spec_not().has(i));
            }
        }
        r
    }
}

impl vstd::std_specs::ops::NotSpecImpl for BitBoard {
    open spec fn obeys_not_spec() -> bool {
        true
    }

    open spec fn not_req(self) -> bool {
        true
    }

    open spec fn not_spec(self) -> BitBoard {
        self.spec_not()
    }
}

impl core::ops::BitAnd for BitBoard {
    type Output = BitBoard;

    /// The intersection of two planes.
    fn bitand(self, rhs: BitBoard) -> (r: BitBoard)
        ensures
            r == self.spec_and(rhs),
            forall|i: int| #[trigger] r.has(i) <==> (self.has(i) && rhs.has(i)),
    {
        let r = BitBoard(self.0 & rhs.0);
        proof {
            lemma_algebra_has(self, rhs);
            assert(r == self.spec_and(rhs));
            assert forall|i: int| #[trigger] r.has(i) <==> (self.has(i) && rhs.has(i)) by {
                assert(r.has(i) == self.spec_and(rhs).has(i));
            }
        }
        r
    }
}

impl vstd::std_specs::ops::BitAndSpecImpl for BitBoard {
    open spec fn obeys_bitand_spec() -> bool {
        true
    }

    open spec fn bitand_req(self, rhs: BitBoard) -> bool {
        true
    }

    open spec fn bitand_spec(self, rhs: BitBoard) -> BitBoard {
        self.spec_and(rhs)
    }
}

impl core::ops::BitOr for BitBoard {
    type Output = BitBoard;

    /// The union of two planes.
    fn bitor(self, rhs: BitBoard) -> (r: BitBoard)
        ensures
            r == self.spec_or(rhs),
            forall|i: int| #[trigger] r.has(i) <==> (self.has(i) || rhs.has(i)),
    {
        let r = BitBoard(self.0 | rhs.0);
        proof {
            lemma_algebra_has(self, rhs);
            assert(r == self.spec_or(rhs));
            assert forall|i: int| #[trigger] r.has(i) <==> (self.has(i) || rhs.has(i)) by {
                assert(r.has(i) == self.spec_or(rhs).has(i));
            }
        }
        r
    }
}

impl vstd::std_specs::ops::BitOrSpecImpl for BitBoard {
    open spec fn obeys_bitor_spec() -> bool {
        true
    }

    open spec fn bitor_req(self, rhs: BitBoard) -> bool {
        true
    }

    open spec fn bitor_spec(self, rhs: BitBoard) -> BitBoard {
        self.spec_or(rhs)
    }
}

/// A plane is empty exactly when it holds no square.
pub proof fn lemma_empty_iff_no_squares(x: BitBoard)
    ensures
        (x.0 == 0) <==> (forall|i: int| !(#[trigger] x.has(i))),
{
    if x.0 == 0 {
        assert forall|i: int| !(#[trigger] x.has(i)) by {
            if 0 <= i < 64 {
                lemma_bitwise_bit(x.0, x.0, i as u64);
            }
        }
    }
    if forall|i: int| !(#[trigger] x.has(i)) {
        assert forall|i: int| x.has(i) == BitBoard(EMPTY).has(i) by {
            if 0 <= i < 64 {
                lemma_bitwise_bit(x.0, x.0, i as u64);
            }
        }
        lemma_plane_ext(x, BitBoard(EMPTY));
    }
}

/// How one bit of a shifted word relates to the bits of the original word.
pub proof fn lemma_shift_bit(w: u64, s: u64, i: u64)
    by (bit_vector)
    requires
        s < 64,
        i < 64,
    ensures
        nth_bit(w << s, i) <==> (i >= s && nth_bit(w, (i - s) as u64)),
        nth_bit(w >> s, i) <==> (i + s < 64 && nth_bit(w, (i + s) as u64)),
{
}

/// Bits of an intersection, a union and a complement, pointwise.
pub proof fn lemma_bitwise_bit(a: u64, b: u64, i: u64)
    by (bit_vector)
    requires
        i < 64,
    ensures
        nth_bit(a & b, i) <==> (nth_bit(a, i) && nth_bit(b, i)),
        nth_bit(a | b, i) <==> (nth_bit(a, i) || nth_bit(b, i)),
        nth_bit(!a, i) <==> !nth_bit(a, i),
        !nth_bit(EMPTY, i),
{
}

/// Bits of the single-bit word `1 << k`, and of a word with bit `k`
/// set, cleared or tested.
pub proof fn lemma_single_bit(w: u64, k: u64, i: u64)
    by (bit_vector)
    requires
        k < 64,
        i < 64,
    ensures
        nth_bit(1u64 << k, i) <==> i == k,
        ((w & (1u64 << k)) != 0) <==> nth_bit(w, k),
        nth_bit(w | (1u64 << k), i) <==> (nth_bit(w, i) || i == k),
        nth_bit(w & !(1u64 << k), i) <==> (nth_bit(w, i) && i != k),
{
}

/// Which squares the rank and file mask constants hold.
pub proof fn lemma_mask_bit(i: u64)
    by (bit_vector)
    requires
        i < 64,
    ensures
        nth_bit(FILE_A, i) <==> i % 8 == 0,
        nth_bit(FILE_H, i) <==> i % 8 == 7,
        nth_bit(RANK_3, i) <==> (16 <= i < 24),
        nth_bit(RANK_6, i) <==> (40 <= i < 48),
{
}

/// The word holding the low `n` bit positions, for `n <= 64`.
spec fn low_mask(n: u64) -> u64 {
    if n == 0 {
        0u64
    } else {
        !0u64 >> ((64 - n) as u64)
    }
}

/// Words that agree on every bit below `n` agree under the low-`n` mask.
proof fn lemma_low_bits_agree(a: u64, b: u64, n: u64)
    requires
        n <= 64,
        forall|i: u64| i < n ==> (nth_bit(a, i) == nth_bit(b, i)),
    ensures
        a & low_mask(n) == b & low_mask(n),
    decreases n,
{
    if n == 0 {
        assert(a & low_mask(0) == b & low_mask(0)) by (bit_vector);
    } else {
        lemma_low_bits_agree(a, b, (n - 1) as u64);
        assert(nth_bit(a, (n - 1) as u64) == nth_bit(b, (n - 1) as u64));
        assert(a & low_mask(n) == b & low_mask(n)) by (bit_vector)
            requires
                1 <= n <= 64,
                a & low_mask((n - 1) as u64) == b & low_mask((n - 1) as u64),
                ((a >> ((n - 1) as u64)) & 1 == 1) == ((b >> ((n - 1) as u64)) & 1 == 1),
        ;
    }
}

/// Two words with the same 64 bits are the same word.
pub proof fn lemma_u64_bit_ext(a: u64, b: u64)
    requires
        forall|i: u64| i < 64 ==> (nth_bit(a, i) == nth_bit(b, i)),
    ensures
        a == b,
{
    lemma_low_bits_agree(a, b, 64);
    assert(a & low_mask(64) == a && b & low_mask(64) == b) by (bit_vector);
}

/// Which squares a plane moved one rank up holds.
pub proof fn lemma_north_has(x: BitBoard)
    ensures
        forall|i: int| #[trigger] x.spec_north().has(i) <==> (i < 64 && x.has(i - 8)),
{
    assert forall|i: int| #[trigger] x.spec_north().has(i) <==> (i < 64 && x.has(i - 8)) by {
        if 0 <= i < 64 {
            lemma_shift_bit(x.0, 8, i as u64);
        }
    }
}

/// Which squares a plane moved one rank down holds.
pub proof fn lemma_south_has(x: BitBoard)
    ensures
        forall|i: int| #[trigger] x.spec_south().has(i) <==> (0 <= i && x.has(i + 8)),
{
    assert forall|i: int| #[trigger] x.spec_south().has(i) <==> (0 <= i && x.has(i + 8)) by {
        if 0 <= i < 64 {
            lemma_shift_bit(x.0, 8, i as u64);
        }
    }
}

/// Which squares a plane moved one file toward file h holds: nothing
/// arrives on file a, so nothing wraps.
pub proof fn lemma_east_has(x: BitBoard)
    ensures
        forall|i: int| #[trigger] x.spec_east().has(i) <==> (i % 8 != 0 && x.has(i - 1)),
{
    assert forall|i: int| #[trigger] x.spec_east().has(i) <==> (i % 8 != 0 && x.has(i - 1)) by {
        if 0 <= i < 64 {
            lemma_shift_bit(x.0, 1, i as u64);
            lemma_bitwise_bit(x.0 << 1, !FILE_A, i as u64);
            lemma_bitwise_bit(FILE_A, x.0, i as u64);
            lemma_mask_bit(i as u64);
        }
    }
}

/// Which squares a plane moved one file toward file a holds: nothing
/// arrives on file h, so nothing wraps.
pub proof fn lemma_west_has(x: BitBoard)
    ensures
        forall|i: int| #[trigger] x.spec_west().has(i) <==> (i % 8 != 7 && x.has(i + 1)),
{
    assert forall|i: int| #[trigger] x.spec_west().has(i) <==> (i % 8 != 7 && x.has(i + 1)) by {
        if 0 <= i < 64 {
            lemma_shift_bit(x.0, 1, i as u64);
            lemma_bitwise_bit(x.0 >> 1, !FILE_H, i as u64);
            lemma_bitwise_bit(FILE_H, x.0, i as u64);
            lemma_mask_bit(i as u64);
        }
    }
}

/// Which squares an intersection, a union and a complement hold.
pub proof fn lemma_algebra_has(x: BitBoard, y: BitBoard)
    ensures
        forall|i: int| #[trigger] x.spec_and(y).has(i) <==> (x.has(i) && y.has(i)),
        forall|i: int| #[trigger] x.spec_or(y).has(i) <==> (x.has(i) || y.has(i)),
        forall|i: int| #[trigger] x.spec_not().has(i) <==> (0 <= i < 64 && !x.has(i)),
{
    assert forall|i: int| #[trigger] x.spec_and(y).has(i) <==> (x.has(i) && y.has(i)) by {
        if 0 <= i < 64 {
            lemma_bitwise_bit(x.0, y.0, i as u64);
        }
    }
    assert forall|i: int| #[trigger] x.spec_or(y).has(i) <==> (x.has(i) || y.has(i)) by {
        if 0 <= i < 64 {
            lemma_bitwise_bit(x.0, y.0, i as u64);
        }
    }
    assert forall|i: int| #[trigger] x.spec_not().has(i) <==> (0 <= i < 64 && !x.has(i)) by {
        if 0 <= i < 64 {
            lemma_bitwise_bit(x.0, y.0, i as u64);
        }
    }
}

/// The empty plane holds no square.
pub proof fn lemma_empty_has_none()
    ensures
        forall|i: int| !(#[trigger] BitBoard(EMPTY).has(i)),
{
    lemma_empty_iff_no_squares(BitBoard(EMPTY));
}

/// Moving a plane that sits entirely on file h toward file h empties it:
/// nothing wraps onto file a.
pub proof fn lemma_east_of_file_h_empty(x: BitBoard)
    requires
        forall|i: int| #[trigger] x.has(i) ==> i % 8 == 7,
    ensures
        x.spec_east() == BitBoard(EMPTY),
{
    lemma_east_has(x);
    lemma_empty_has_none();
    assert forall|i: int| x.spec_east().has(i) == BitBoard(EMPTY).has(i) by {
        if x.spec_east().has(i) {
            assert(x.has(i - 1));
        }
    }
    lemma_plane_ext(x.spec_east(), BitBoard(EMPTY));
}

/// Moving a plane that sits entirely on file a toward file a empties it:
/// nothing wraps onto file h.
pub proof fn lemma_west_of_file_a_empty(x: BitBoard)
    requires
        forall|i: int| #[trigger] x.has(i) ==> i % 8 == 0,
    ensures
        x.spec_west() == BitBoard(EMPTY),
{
    lemma_west_has(x);
    lemma_empty_has_none();
    assert forall|i: int| x.spec_west().has(i) == BitBoard(EMPTY).has(i) by {
        if x.spec_west().has(i) {
            assert(x.has(i + 1));
        }
    }
    lemma_plane_ext(x.spec_west(), BitBoard(EMPTY));
}

/// On a plane confined to ranks 2 through 7, moving one rank up and back
/// down — or down and back up — is the identity.
pub proof fn lemma_north_south_identity(x: BitBoard)
    requires
        forall|i: int| #[trigger] x.has(i) ==> 8 <= i < 56,
    ensures
        x.spec_north().spec_south() == x,
        x.spec_south().spec_north() == x,
{
    lemma_north_has(x);
    lemma_south_has(x);
    lemma_south_has(x.spec_north());
    lemma_north_has(x.spec_south());
    assert forall|i: int| x.spec_north().spec_south().has(i) == x.has(i) by {
        if x.has(i) {
            assert(x.spec_north().has(i + 8));
        }
    }
    lemma_plane_ext(x.spec_north().spec_south(), x);
    assert forall|i: int| x.spec_south().spec_north().has(i) == x.has(i) by {
        if x.has(i) {
            assert(x.spec_south().has(i - 8));
        }
    }
    lemma_plane_ext(x.spec_south().spec_north(), x);
}

/// Moving a plane that sits entirely on rank 8 one rank up empties it:
/// the bits fall off the board, they do not wrap.
pub proof fn lemma_north_of_rank_8_empty(x: BitBoard)
    requires
        forall|i: int| #[trigger] x.has(i) ==> 56 <= i,
    ensures
        x.spec_north() == BitBoard(EMPTY),
{
    lemma_north_has(x);
    lemma_empty_has_none();
    assert forall|i: int| x.spec_north().has(i) == BitBoard(EMPTY).has(i) by {
        if x.spec_north().has(i) {
            assert(x.has(i - 8));
        }
    }
    lemma_plane_ext(x.spec_north(), BitBoard(EMPTY));
}

/// Moving a plane that sits entirely on rank 1 one rank down empties it:
/// the bits fall off the board, they do not wrap.
pub proof fn lemma_south_of_rank_1_empty(x: BitBoard)
    requires
        forall|i: int| #[trigger] x.has(i) ==> i < 8,
    ensures
        x.spec_south() == BitBoard(EMPTY),
{
    lemma_south_has(x);
    lemma_empty_has_none();
    assert forall|i: int| x.spec_south().has(i) == BitBoard(EMPTY).has(i) by {
        if x.spec_south().has(i) {
            assert(x.has(i + 8));
        }
    }
    lemma_plane_ext(x.spec_south(), BitBoard(EMPTY));
}

/// A diagonal step composes one vertical and one horizontal step in
/// either order: the edge masking is the same both ways.
pub proof fn lemma_diagonal_order_irrelevant(x: BitBoard)
    ensures
        x.spec_north().spec_east() == x.spec_east().spec_north(),
        x.spec_north().spec_west() == x.spec_west().spec_north(),
        x.spec_south().spec_east() == x.spec_east().spec_south(),
        x.spec_south().spec_west() == x.spec_west().spec_south(),
{
    lemma_north_has(x);
    lemma_south_has(x);
    lemma_east_has(x);
    lemma_west_has(x);
    lemma_east_has(x.spec_north());
    lemma_west_has(x.spec_north());
    lemma_east_has(x.spec_south());
    lemma_west_has(x.spec_south());
    lemma_north_has(x.spec_east());
    lemma_north_has(x.spec_west());
    lemma_south_has(x.spec_east());
    lemma_south_has(x.spec_west());
    assert forall|i: int|
        x.spec_north().spec_east().has(i) == x.spec_east().spec_north().has(i) by {}
    lemma_plane_ext(x.spec_north().spec_east(), x.spec_east().spec_north());
    assert forall|i: int|
        x.spec_north().spec_west().has(i) == x.spec_west().spec_north().has(i) by {}
    lemma_plane_ext(x.spec_north().spec_west(), x.spec_west().spec_north());
    assert forall|i: int|
        x.spec_south().spec_east().has(i) == x.spec_east().spec_south().has(i) by {}
    lemma_plane_ext(x.spec_south().spec_east(), x.spec_east().spec_south());
    assert forall|i: int|
        x.spec_south().spec_west().has(i) == x.spec_west().spec_south().has(i) by {}
    lemma_plane_ext(x.spec_south().spec_west(), x.spec_west().spec_south());
}

/// Word-level boolean algebra, in one bit-vector query.
proof fn lemma_word_algebra(a: u64, b: u64, c: u64)
    by (bit_vector)
    ensures
        a & b == b & a,
        (a & b) & c == a & (b & c),
        a | b == b | a,
        (a | b) | c == a | (b | c),
        !(!a) == a,
        a & !a == 0,
{
}

/// Intersection is commutative.
pub proof fn lemma_and_commutative(x: BitBoard, y: BitBoard)
    ensures
        x.spec_and(y) == y.spec_and(x),
{
    lemma_word_algebra(x.0, y.0, 0);
}

/// Intersection is associative.
pub proof fn lemma_and_associative(x: BitBoard, y: BitBoard, z: BitBoard)
    ensures
        x.spec_and(y).spec_and(z) == x.spec_and(y.spec_and(z)),
{
    lemma_word_algebra(x.0, y.0, z.0);
}

/// Union is commutative.
pub proof fn lemma_or_commutative(x: BitBoard, y: BitBoard)
    ensures
        x.spec_or(y) == y.spec_or(x),
{
    lemma_word_algebra(x.0, y.0, 0);
}

/// Union is associative.
pub proof fn lemma_or_associative(x: BitBoard, y: BitBoard, z: BitBoard)
    ensures
        x.spec_or(y).spec_or(z) == x.spec_or(y.spec_or(z)),
{
    lemma_word_algebra(x.0, y.0, z.0);
}

/// Complement is its own inverse.
pub proof fn lemma_not_involutive(x: BitBoard)
    ensures
        x.spec_not().spec_not() == x,
{
    lemma_word_algebra(x.0, 0, 0);
}

/// A plane and its complement have no square in common.
pub proof fn lemma_and_complement_empty(x: BitBoard)
    ensures
        x.spec_and(x.spec_not()) == BitBoard(EMPTY),
{
    lemma_word_algebra(x.0, 0, 0);
}

/// Two planes holding the same squares are the same plane.
pub proof fn lemma_plane_ext(a: BitBoard, b: BitBoard)
    requires
        forall|i: int| a.has(i) == b.has(i),
    ensures
        a == b,
{
    assert forall|i: u64| i < 64 implies nth_bit(a.0, i) == nth_bit(b.0, i) by {
        assert(a.has(i as int) == b.has(i as int));
    }
    lemma_u64_bit_ext(a.0, b.0);
}

} // verus!
