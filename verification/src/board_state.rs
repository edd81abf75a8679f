//! One position as twelve per-piece planes plus derived occupancy planes,
//! initialized to the standard chess starting layout.

use crate::bitboard::BitBoard;
use crate::bitboard::lemma_bitwise_bit;
use vstd::prelude::*;

verus! {

/// The planes of one position. `piece_bitboards` holds, in order: white
/// pawns, rooks, knights, bishops, queen, king, then the same six for
/// black. `side_occupancy` holds the white and the black union;
/// `full_occupancy` the union of both sides.
pub struct BoardState {
    pub piece_bitboards: [BitBoard; 12],
    pub side_occupancy: [BitBoard; 2],
    pub full_occupancy: BitBoard,
}

impl BoardState {
    /// The derived planes are exactly the unions of the per-piece planes:
    /// each side's occupancy is the union of its six planes, and the full
    /// occupancy is the union of the two sides.
    pub open spec fn wf(self) -> bool {
        &&& self.side_occupancy[0].0 == self.piece_bitboards[0].0 | self.piece_bitboards[1].0
            | self.piece_bitboards[2].0 | self.piece_bitboards[3].0 | self.piece_bitboards[4].0
            | self.piece_bitboards[5].0
        &&& self.side_occupancy[1].0 == self.piece_bitboards[6].0 | self.piece_bitboards[7].0
            | self.piece_bitboards[8].0 | self.piece_bitboards[9].0 | self.piece_bitboards[10].0
            | self.piece_bitboards[11].0
        &&& self.full_occupancy.0 == self.side_occupancy[0].0 | self.side_occupancy[1].0
    }

    /// The standard starting position: pawns on ranks 2 and 7, the back
    /// pieces on ranks 1 and 8, and the occupancy planes their unions.
    pub fn new() -> (r: BoardState)
        ensures
            r.wf(),
            r.piece_bitboards[0].0 == 0x0000_0000_0000_FF00u64,
            r.piece_bitboards[1].0 == 0x0000_0000_0000_0081u64,
            r.piece_bitboards[2].0 == 0x0000_0000_0000_0042u64,
            r.piece_bitboards[3].0 == 0x0000_0000_0000_0024u64,
            r.piece_bitboards[4].0 == 0x0000_0000_0000_0008u64,
            r.piece_bitboards[5].0 == 0x0000_0000_0000_0010u64,
            r.piece_bitboards[6].0 == 0x00FF_0000_0000_0000u64,
            r.piece_bitboards[7].0 == 0x8100_0000_0000_0000u64,
            r.piece_bitboards[8].0 == 0x4200_0000_0000_0000u64,
            r.piece_bitboards[9].0 == 0x2400_0000_0000_0000u64,
            r.piece_bitboards[10].0 == 0x0800_0000_0000_0000u64,
            r.piece_bitboards[11].0 == 0x1000_0000_0000_0000u64,
            r.side_occupancy[0].0 == 0x0000_0000_0000_FFFFu64,
            r.side_occupancy[1].0 == 0xFFFF_0000_0000_0000u64,
            r.full_occupancy.0 == 0xFFFF_0000_0000_FFFFu64,
    {
        proof {
            assert(0x0000_0000_0000_FF00u64 | 0x0000_0000_0000_0081u64
                | 0x0000_0000_0000_0042u64 | 0x0000_0000_0000_0024u64 | 0x0000_0000_0000_0008u64
                | 0x0000_0000_0000_0010u64 == 0x0000_0000_0000_FFFFu64 && 0x00FF_0000_0000_0000u64
                | 0x8100_0000_0000_0000u64 | 0x4200_0000_0000_0000u64 | 0x2400_0000_0000_0000u64
                | 0x0800_0000_0000_0000u64 | 0x1000_0000_0000_0000u64 == 0xFFFF_0000_0000_0000u64
                && 0x0000_0000_0000_FFFFu64 | 0xFFFF_0000_0000_0000u64
                == 0xFFFF_0000_0000_FFFFu64) by (bit_vector);
        }
        BoardState {
            piece_bitboards: [
                BitBoard(0x0000_0000_0000_FF00),
                BitBoard(0x0000_0000_0000_0081),
                BitBoard(0x0000_0000_0000_0042),
                BitBoard(0x0000_0000_0000_0024),
                BitBoard(0x0000_0000_0000_0008),
                BitBoard(0x0000_0000_0000_0010),
                BitBoard(0x00FF_0000_0000_0000),
                BitBoard(0x8100_0000_0000_0000),
                BitBoard(0x4200_0000_0000_0000),
                BitBoard(0x2400_0000_0000_0000),
                BitBoard(0x0800_0000_0000_0000),
                BitBoard(0x1000_0000_0000_0000),
            ],
            side_occupancy: [BitBoard(0x0000_0000_0000_FFFF), BitBoard(0xFFFF_0000_0000_0000)],
            full_occupancy: BitBoard(0xFFFF_0000_0000_FFFF),
        }
    }
}

/// The derived-occupancy invariant, square by square: a side's occupancy
/// holds a square exactly when one of that side's six piece planes holds
/// it, and the full occupancy exactly when either side does.
pub proof fn lemma_occupancy_covers_pieces(s: BoardState)
    requires
        s.wf(),
    ensures
        forall|i: int|
            #[trigger] s.side_occupancy[0].has(i) <==> (s.piece_bitboards[0].has(i)
                || s.piece_bitboards[1].has(i) || s.piece_bitboards[2].has(i)
                || s.piece_bitboards[3].has(i) || s.piece_bitboards[4].has(i)
                || s.piece_bitboards[5].has(i)),
        forall|i: int|
            #[trigger] s.side_occupancy[1].has(i) <==> (s.piece_bitboards[6].has(i)
                || s.piece_bitboards[7].has(i) || s.piece_bitboards[8].has(i)
                || s.piece_bitboards[9].has(i) || s.piece_bitboards[10].has(i)
                || s.piece_bitboards[11].has(i)),
        forall|i: int|
            #[trigger] s.full_occupancy.has(i) <==> (s.side_occupancy[0].has(i)
                || s.side_occupancy[1].has(i)),
{
    assert forall|i: int|
        #[trigger] s.side_occupancy[0].has(i) <==> (s.piece_bitboards[0].has(i)
            || s.piece_bitboards[1].has(i) || s.piece_bitboards[2].has(i)
            || s.piece_bitboards[3].has(i) || s.piece_bitboards[4].has(i)
            || s.piece_bitboards[5].has(i)) by {
        if 0 <= i < 64 {
            let j = i as u64;
            let b = s.piece_bitboards;
            lemma_bitwise_bit(b[0].0, b[1].0, j);
            lemma_bitwise_bit(b[0].0 | b[1].0, b[2].0, j);
            lemma_bitwise_bit(b[0].0 | b[1].0 | b[2].0, b[3].0, j);
            lemma_bitwise_bit(b[0].0 | b[1].0 | b[2].0 | b[3].0, b[4].0, j);
            lemma_bitwise_bit(b[0].0 | b[1].0 | b[2].0 | b[3].0 | b[4].0, b[5].0, j);
        }
    }
    assert forall|i: int|
        #[trigger] s.side_occupancy[1].has(i) <==> (s.piece_bitboards[6].has(i)
            || s.piece_bitboards[7].has(i) || s.piece_bitboards[8].has(i)
            || s.piece_bitboards[9].has(i) || s.piece_bitboards[10].has(i)
            || s.piece_bitboards[11].has(i)) by {
        if 0 <= i < 64 {
            let j = i as u64;
            let b = s.piece_bitboards;
            lemma_bitwise_bit(b[6].0, b[7].0, j);
            lemma_bitwise_bit(b[6].0 | b[7].0, b[8].0, j);
            lemma_bitwise_bit(b[6].0 | b[7].0 | b[8].0, b[9].0, j);
            lemma_bitwise_bit(b[6].0 | b[7].0 | b[8].0 | b[9].0, b[10].0, j);
            lemma_bitwise_bit(b[6].0 | b[7].0 | b[8].0 | b[9].0 | b[10].0, b[11].0, j);
        }
    }
    assert forall|i: int|
        #[trigger] s.full_occupancy.has(i) <==> (s.side_occupancy[0].has(i)
            || s.side_occupancy[1].has(i)) by {
        if 0 <= i < 64 {
            lemma_bitwise_bit(s.side_occupancy[0].0, s.side_occupancy[1].0, i as u64);
        }
    }
}

} // verus!
