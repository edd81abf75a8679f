use bitplanes::BitBoard;
use bitplanes::Cell;
use bitplanes::bitboard::EMPTY;
use bitplanes::bitboard::FILE_A;
use bitplanes::bitboard::FILE_H;
use bitplanes::bitboard::RANK_1;
use bitplanes::bitboard::RANK_4;
use bitplanes::bitboard::RANK_8;

#[test]
fn from_index_sets_one_bit() {
    for i in 0u8..64 {
        let plane = BitBoard::from_index(i);
        assert_eq!(plane.0, 1u64 << i);
        assert_eq!(plane.count_ones(), 1);
        assert!(plane.is_index_set(i));
        for j in 0u8..64 {
            assert_eq!(plane.is_index_set(j), i == j);
        }
    }
}

#[test]
fn from_cell_matches_flat_index() {
    let e4 = Cell::from_str("e4").unwrap();
    let plane = BitBoard::from_cell(e4);
    assert_eq!(plane.0, 1u64 << 28);
    assert!(plane.is_cell_set(e4));
}

#[test]
fn set_and_clear_bits() {
    let mut plane = BitBoard(0);
    plane.set_index(0);
    plane.set_index(63);
    assert_eq!(plane.0, (1u64 << 63) | 1);
    assert_eq!(plane.count_ones(), 2);
    plane.set_index(0);
    assert_eq!(plane.count_ones(), 2);
    plane.clear_index(0);
    assert_eq!(plane.0, 1u64 << 63);
    plane.clear_index(63);
    assert!(plane.is_empty());

    let d5 = Cell::from_str("d5").unwrap();
    let mut by_cell = BitBoard(0);
    by_cell.set_cell(d5);
    assert!(by_cell.is_cell_set(d5));
    by_cell.clear_cell(d5);
    assert!(by_cell.is_empty());
}

#[test]
fn count_ones_examples() {
    assert_eq!(BitBoard(0).count_ones(), 0);
    assert_eq!(BitBoard(u64::MAX).count_ones(), 64);
    assert_eq!(BitBoard(RANK_4).count_ones(), 8);
    assert_eq!(BitBoard(FILE_A).count_ones(), 8);
    assert_eq!(BitBoard(0b1011).count_ones(), 3);
}

#[test]
fn empty_and_non_empty() {
    assert!(BitBoard(EMPTY).is_empty());
    assert!(!BitBoard(EMPTY).is_non_empty());
    assert!(!BitBoard(1).is_empty());
    assert!(BitBoard(1).is_non_empty());
}

#[test]
fn north_and_south_move_one_rank() {
    let e4 = BitBoard::from_index(28);
    assert_eq!(e4.north().0, 1u64 << 36);
    assert_eq!(e4.south().0, 1u64 << 20);
}

#[test]
fn east_has_no_wrap_from_file_h() {
    // A plane confined to file h empties under east: no wrap to file a.
    assert!(BitBoard(FILE_H).east().is_empty());
    let h4 = BitBoard::from_index(31);
    assert!(h4.east().is_empty());
    // One file short of the edge still moves east normally.
    let g4 = BitBoard::from_index(30);
    assert_eq!(g4.east().0, 1u64 << 31);
}

#[test]
fn west_has_no_wrap_from_file_a() {
    assert!(BitBoard(FILE_A).west().is_empty());
    let a4 = BitBoard::from_index(24);
    assert!(a4.west().is_empty());
    let b4 = BitBoard::from_index(25);
    assert_eq!(b4.west().0, 1u64 << 24);
}

#[test]
fn north_then_south_is_identity_on_middle_ranks() {
    // Every square of ranks 2 through 7.
    let middle = BitBoard(0x00FF_FFFF_FFFF_FF00);
    assert_eq!(middle.north().south(), middle);
    assert_eq!(middle.south().north(), middle);
}

#[test]
fn edge_ranks_fall_off_the_board() {
    assert!(BitBoard(RANK_8).north().is_empty());
    assert!(BitBoard(RANK_1).south().is_empty());
    // A mixed plane only loses the edge rank.
    let mixed = BitBoard(RANK_8 | RANK_4);
    assert_eq!(mixed.north().0, BitBoard(RANK_4).north().0);
}

#[test]
fn diagonal_shifts_compose_vertical_and_horizontal() {
    let e4 = BitBoard::from_index(28);
    assert_eq!(e4.northeast().0, 1u64 << 37);
    assert_eq!(e4.northwest().0, 1u64 << 35);
    assert_eq!(e4.southeast().0, 1u64 << 21);
    assert_eq!(e4.southwest().0, 1u64 << 19);
    // Corners leave the board diagonally without wrapping.
    assert!(BitBoard::from_index(63).northeast().is_empty());
    assert!(BitBoard::from_index(56).northwest().is_empty());
    assert!(BitBoard::from_index(7).southeast().is_empty());
    assert!(BitBoard::from_index(0).southwest().is_empty());
    // The h-file loses its bits eastward even mid-board.
    assert!(BitBoard::from_index(31).northeast().is_empty());
    assert!(BitBoard::from_index(24).southwest().is_empty());
}

#[test]
fn shift_moves_by_raw_steps() {
    let e4 = BitBoard::from_index(28);
    assert_eq!(e4.shift(8).0, 1u64 << 36);
    assert_eq!(e4.shift(-8).0, 1u64 << 20);
    assert_eq!(e4.shift(0).0, 1u64 << 28);
    assert_eq!(e4.shift(17).0, 1u64 << 45);
    assert_eq!(e4.shift(-17).0, 1u64 << 11);
    assert!(BitBoard(RANK_8).shift(8).is_empty());
}

#[test]
fn algebra_is_commutative_and_associative() {
    let a = BitBoard(0x0123_4567_89AB_CDEF);
    let b = BitBoard(0xFEDC_BA98_7654_3210);
    let c = BitBoard(0x00FF_00FF_00FF_00FF);
    assert_eq!(a & b, b & a);
    assert_eq!((a & b) & c, a & (b & c));
    assert_eq!(a | b, b | a);
    assert_eq!((a | b) | c, a | (b | c));
}

#[test]
fn assign_forms_match_the_operators() {
    let a = BitBoard(0x0123_4567_89AB_CDEF);
    let b = BitBoard(0x00FF_00FF_00FF_00FF);
    let mut and_form = a;
    and_form.bitand_assign(b);
    assert_eq!(and_form, a & b);
    let mut or_form = a;
    or_form.bitor_assign(b);
    assert_eq!(or_form, a | b);
}

#[test]
fn complement_is_involutive_and_disjoint() {
    let a = BitBoard(0x0123_4567_89AB_CDEF);
    assert_eq!(!!a, a);
    assert_eq!((a & !a).0, EMPTY);
    assert_eq!((a | !a).0, u64::MAX);
    assert_eq!(!BitBoard(EMPTY), BitBoard(u64::MAX));
}
