//! Pawn push and capture-target generation: pure functions from a pawn
//! plane and an occupancy plane to the plane of reachable squares.
//!
//! Pushes move straight ahead onto empty squares, one step always and two
//! steps from the pawn's starting rank when both squares ahead are empty.
//! Captures go one step diagonally ahead, onto enemy-occupied squares only.

use crate::bitboard::BitBoard;
use crate::bitboard::EMPTY;
use crate::bitboard::RANK_3;
use crate::bitboard::RANK_6;
use crate::bitboard::lemma_algebra_has;
use crate::bitboard::lemma_empty_has_none;
use crate::bitboard::lemma_mask_bit;
use crate::bitboard::lemma_north_has;
use crate::bitboard::lemma_plane_ext;
use crate::bitboard::lemma_south_has;
use core::ops::BitAnd;
use core::ops::BitOr;
use core::ops::Not;
use vstd::prelude::*;

verus! {

/// The push targets of white pawns on `start`: the square one rank up when
/// it is free, and from the starting rank also the square two ranks up when
/// both are free.
pub open spec fn spec_white_pawn_pushes(start: BitBoard, full_occupancy: BitBoard) -> BitBoard {
    let free = full_occupancy.spec_not();
    let single = start.spec_north().spec_and(free);
    let double = single.spec_and(BitBoard(RANK_3)).spec_north().spec_and(free);
    single.spec_or(double)
}

/// The push targets of black pawns on `start`, mirroring the white case
/// one rank down.
pub open spec fn spec_black_pawn_pushes(start: BitBoard, full_occupancy: BitBoard) -> BitBoard {
    let free = full_occupancy.spec_not();
    let single = start.spec_south().spec_and(free);
    let double = single.spec_and(BitBoard(RANK_6)).spec_south().spec_and(free);
    single.spec_or(double)
}

/// The capture targets of white pawns on `start`: one step diagonally up,
/// restricted to enemy-occupied squares.
pub open spec fn spec_white_pawn_attacks(start: BitBoard, black_occupancy: BitBoard) -> BitBoard {
    start.spec_north().spec_east().spec_or(start.spec_north().spec_west()).spec_and(
        black_occupancy,
    )
}

/// The capture targets of black pawns on `start`: one step diagonally down,
/// restricted to enemy-occupied squares.
pub open spec fn spec_black_pawn_attacks(start: BitBoard, white_occupancy: BitBoard) -> BitBoard {
    start.spec_south().spec_east().spec_or(start.spec_south().spec_west()).spec_and(
        white_occupancy,
    )
}

/// Which squares the white pawn push plane holds: the square one rank above
/// a pawn when free, and the rank-4 square two ranks above a rank-2 pawn
/// when both squares ahead are free.
pub proof fn lemma_white_pawn_pushes_has(start: BitBoard, full_occupancy: BitBoard)
    ensures
        forall|i: int|
            #[trigger] spec_white_pawn_pushes(start, full_occupancy).has(i) <==> ((i < 64
                && start.has(i - 8) && !full_occupancy.has(i)) || (24 <= i < 32 && start.has(i - 16)
                && !full_occupancy.has(i - 8) && !full_occupancy.has(i))),
{
    let free = full_occupancy.spec_not();
    let single = start.spec_north().spec_and(free);
    let masked = single.spec_and(BitBoard(RANK_3));
    let double = masked.spec_north().spec_and(free);
    lemma_north_has(start);
    lemma_algebra_has(full_occupancy, full_occupancy);
    lemma_algebra_has(start.spec_north(), free);
    assert forall|i: int| #[trigger] BitBoard(RANK_3).has(i) <==> (16 <= i < 24) by {
        if 0 <= i < 64 {
            lemma_mask_bit(i as u64);
        }
    }
    lemma_algebra_has(single, BitBoard(RANK_3));
    lemma_north_has(masked);
    lemma_algebra_has(masked.spec_north(), free);
    lemma_algebra_has(single, double);
}

/// Which squares the black pawn push plane holds, mirroring the white case.
pub proof fn lemma_black_pawn_pushes_has(start: BitBoard, full_occupancy: BitBoard)
    ensures
        forall|i: int|
            #[trigger] spec_black_pawn_pushes(start, full_occupancy).has(i) <==> ((0 <= i
                && start.has(i + 8) && !full_occupancy.has(i)) || (32 <= i < 40 && start.has(i + 16)
                && !full_occupancy.has(i + 8) && !full_occupancy.has(i))),
{
    let free = full_occupancy.spec_not();
    let single = start.spec_south().spec_and(free);
    let masked = single.spec_and(BitBoard(RANK_6));
    let double = masked.spec_south().spec_and(free);
    lemma_south_has(start);
    lemma_algebra_has(full_occupancy, full_occupancy);
    lemma_algebra_has(start.spec_south(), free);
    assert forall|i: int| #[trigger] BitBoard(RANK_6).has(i) <==> (40 <= i < 48) by {
        if 0 <= i < 64 {
            lemma_mask_bit(i as u64);
        }
    }
    lemma_algebra_has(single, BitBoard(RANK_6));
    lemma_south_has(masked);
    lemma_algebra_has(masked.spec_south(), free);
    lemma_algebra_has(single, double);
}

/// Generates white pawn pushes (single and double).
pub fn white_pawn_pushes(start: BitBoard, full_occupancy: BitBoard) -> (r: BitBoard)
    ensures
        r == spec_white_pawn_pushes(start, full_occupancy),
        forall|i: int|
            #[trigger] r.has(i) <==> ((i < 64 && start.has(i - 8) && !full_occupancy.has(i)) || (24
                <= i < 32 && start.has(i - 16) && !full_occupancy.has(i - 8)
                && !full_occupancy.has(i))),
{
    let single_push = start.north().bitand(full_occupancy.not());
    let double_push = single_push.bitand(BitBoard(RANK_3)).north().bitand(full_occupancy.not());
    let r = single_push.bitor(double_push);
    proof {
        lemma_white_pawn_pushes_has(start, full_occupancy);
        assert(r == spec_white_pawn_pushes(start, full_occupancy));
        assert forall|i: int|
            #[trigger] r.has(i) <==> ((i < 64 && start.has(i - 8) && !full_occupancy.has(i)) || (24
                <= i < 32 && start.has(i - 16) && !full_occupancy.has(i - 8)
                && !full_occupancy.has(i))) by {
            assert(r.has(i) == spec_white_pawn_pushes(start, full_occupancy).has(i));
        }
    }
    r
}

/// Generates black pawn pushes (single and double).
pub fn black_pawn_pushes(start: BitBoard, full_occupancy: BitBoard) -> (r: BitBoard)
    ensures
        r == spec_black_pawn_pushes(start, full_occupancy),
        forall|i: int|
            #[trigger] r.has(i) <==> ((0 <= i && start.has(i + 8) && !full_occupancy.has(i)) || (32
                <= i < 40 && start.has(i + 16) && !full_occupancy.has(i + 8)
                && !full_occupancy.has(i))),
{
    let single_push = start.south().bitand(full_occupancy.not());
    let double_push = single_push.bitand(BitBoard(RANK_6)).south().bitand(full_occupancy.not());
    let r = single_push.bitor(double_push);
    proof {
        lemma_black_pawn_pushes_has(start, full_occupancy);
        assert(r == spec_black_pawn_pushes(start, full_occupancy));
        assert forall|i: int|
            #[trigger] r.has(i) <==> ((0 <= i && start.has(i + 8) && !full_occupancy.has(i)) || (32
                <= i < 40 && start.has(i + 16) && !full_occupancy.has(i + 8)
                && !full_occupancy.has(i))) by {
            assert(r.has(i) == spec_black_pawn_pushes(start, full_occupancy).has(i));
        }
    }
    r
}

/// Generates white pawn attacks: diagonal capture targets on squares the
/// enemy currently occupies.
pub fn white_pawn_attacks(start: BitBoard, black_occupancy: BitBoard) -> (r: BitBoard)
    ensures
        r == spec_white_pawn_attacks(start, black_occupancy),
        forall|i: int|
            #[trigger] r.has(i) <==> (black_occupancy.has(i) && ((i % 8 != 0 && start.has(i - 9))
                || (i % 8 != 7 && start.has(i - 7)))),
{
    start.northeast().bitor(start.northwest()).bitand(black_occupancy)
}

/// Generates black pawn attacks: diagonal capture targets on squares the
/// enemy currently occupies.
pub fn black_pawn_attacks(start: BitBoard, white_occupancy: BitBoard) -> (r: BitBoard)
    ensures
        r == spec_black_pawn_attacks(start, white_occupancy),
        forall|i: int|
            #[trigger] r.has(i) <==> (white_occupancy.has(i) && ((i % 8 != 0 && start.has(i + 7))
                || (i % 8 != 7 && start.has(i + 9)))),
{
    start.southeast().bitor(start.southwest()).bitand(white_occupancy)
}

/// A lone pawn whose square directly ahead is occupied gets no push at all:
/// the blocker stops the single push, and with it the double push, even
/// when the square two ranks ahead is free.
pub proof fn lemma_white_push_blocked(pawn: int, start: BitBoard, full_occupancy: BitBoard)
    requires
        forall|i: int| #[trigger] start.has(i) <==> i == pawn,
        full_occupancy.has(pawn + 8),
    ensures
        spec_white_pawn_pushes(start, full_occupancy) == BitBoard(EMPTY),
{
    lemma_white_pawn_pushes_has(start, full_occupancy);
    lemma_empty_has_none();
    let r = spec_white_pawn_pushes(start, full_occupancy);
    assert forall|i: int| r.has(i) == BitBoard(EMPTY).has(i) by {
        if r.has(i) {
            assert(start.has(i - 8) || start.has(i - 16));
        }
    }
    lemma_plane_ext(r, BitBoard(EMPTY));
}

} // verus!
