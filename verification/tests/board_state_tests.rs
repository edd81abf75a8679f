use bitplanes::BitBoard;
use bitplanes::BoardState;
use bitplanes::bitboard::BLACK_PAWN_START;
use bitplanes::bitboard::WHITE_PAWN_START;

#[test]
fn starting_position_piece_counts() {
    let state = BoardState::new();
    assert_eq!(state.full_occupancy.count_ones(), 32);
    assert_eq!(state.side_occupancy[0].count_ones(), 16);
    assert_eq!(state.side_occupancy[1].count_ones(), 16);
    assert_eq!(state.piece_bitboards[0].count_ones(), 8);
    assert_eq!(state.piece_bitboards[6].count_ones(), 8);
}

#[test]
fn starting_pawns_sit_on_their_start_ranks() {
    let state = BoardState::new();
    assert_eq!(state.piece_bitboards[0].0, WHITE_PAWN_START);
    assert_eq!(state.piece_bitboards[6].0, BLACK_PAWN_START);
}

#[test]
fn occupancy_planes_are_unions_of_piece_planes() {
    let state = BoardState::new();
    let mut white = BitBoard(0);
    let mut black = BitBoard(0);
    for i in 0..6 {
        white = white | state.piece_bitboards[i];
        black = black | state.piece_bitboards[i + 6];
    }
    assert_eq!(white, state.side_occupancy[0]);
    assert_eq!(black, state.side_occupancy[1]);
    assert_eq!(white | black, state.full_occupancy);
    // White holds ranks 1 and 2; black holds ranks 7 and 8.
    assert_eq!(state.side_occupancy[0].0, 0x0000_0000_0000_FFFF);
    assert_eq!(state.side_occupancy[1].0, 0xFFFF_0000_0000_0000);
}

#[test]
fn starting_back_ranks_hold_each_piece_once() {
    let state = BoardState::new();
    // White rooks a1 and h1, knights b1 and g1, bishops c1 and f1,
    // queen d1, king e1.
    assert_eq!(state.piece_bitboards[1].0, (1u64 << 0) | (1u64 << 7));
    assert_eq!(state.piece_bitboards[2].0, (1u64 << 1) | (1u64 << 6));
    assert_eq!(state.piece_bitboards[3].0, (1u64 << 2) | (1u64 << 5));
    assert_eq!(state.piece_bitboards[4].0, 1u64 << 3);
    assert_eq!(state.piece_bitboards[5].0, 1u64 << 4);
    // Black mirrors on rank 8.
    assert_eq!(state.piece_bitboards[7].0, (1u64 << 56) | (1u64 << 63));
    assert_eq!(state.piece_bitboards[8].0, (1u64 << 57) | (1u64 << 62));
    assert_eq!(state.piece_bitboards[9].0, (1u64 << 58) | (1u64 << 61));
    assert_eq!(state.piece_bitboards[10].0, 1u64 << 59);
    assert_eq!(state.piece_bitboards[11].0, 1u64 << 60);
}
