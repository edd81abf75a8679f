use bitplanes::Cell;

#[test]
fn text_round_trip_all_squares() {
    for rank in 0u8..8 {
        for file in 0u8..8 {
            let cell = Cell::new(rank, file).unwrap();
            let text = cell.to_text();
            assert_eq!(Cell::from_str(text.as_str()), Some(cell));
        }
    }
}

#[test]
fn flat_index_round_trip_all_squares() {
    for rank in 0u8..8 {
        for file in 0u8..8 {
            let cell = Cell::new(rank, file).unwrap();
            assert_eq!(Cell::from_index(cell.index()), Some(cell));
        }
    }
}

#[test]
fn index_is_rank_major() {
    let e4 = Cell::from_str("e4").unwrap();
    assert_eq!(e4.rank, 3);
    assert_eq!(e4.file, 4);
    assert_eq!(e4.index(), 28);
    assert_eq!(Cell::new(0, 0).unwrap().index(), 0);
    assert_eq!(Cell::new(7, 7).unwrap().index(), 63);
    assert_eq!(Cell::from_str("a1").unwrap().index(), 0);
    assert_eq!(Cell::from_str("h8").unwrap().index(), 63);
    assert_eq!(Cell::from_str("h1").unwrap().index(), 7);
    assert_eq!(Cell::from_str("a8").unwrap().index(), 56);
}

#[test]
fn to_text_examples() {
    assert_eq!(Cell::new(3, 4).unwrap().to_text(), "e4");
    assert_eq!(Cell::new(0, 0).unwrap().to_text(), "a1");
    assert_eq!(Cell::new(7, 7).unwrap().to_text(), "h8");
}

#[test]
fn new_rejects_out_of_range_coordinates() {
    assert_eq!(Cell::new(8, 0), None);
    assert_eq!(Cell::new(0, 8), None);
    assert_eq!(Cell::new(8, 8), None);
    assert_eq!(Cell::new(255, 0), None);
    assert_eq!(Cell::new(0, 255), None);
}

#[test]
fn from_index_rejects_out_of_range_index() {
    assert_eq!(Cell::from_index(64), None);
    assert_eq!(Cell::from_index(255), None);
    assert!(Cell::from_index(63).is_some());
}

#[test]
fn from_str_rejects_malformed_text() {
    assert_eq!(Cell::from_str(""), None);
    assert_eq!(Cell::from_str("e"), None);
    assert_eq!(Cell::from_str("e44"), None);
    assert_eq!(Cell::from_str("i4"), None);
    assert_eq!(Cell::from_str("e9"), None);
    assert_eq!(Cell::from_str("e0"), None);
    assert_eq!(Cell::from_str("E4"), None);
    assert_eq!(Cell::from_str("4e"), None);
    assert_eq!(Cell::from_str(" e4"), None);
    assert_eq!(Cell::from_str("e4 "), None);
}

#[test]
fn from_str_accepts_every_valid_square() {
    let files = ["a", "b", "c", "d", "e", "f", "g", "h"];
    let ranks = ["1", "2", "3", "4", "5", "6", "7", "8"];
    for (f, file_text) in files.iter().enumerate() {
        for (r, rank_text) in ranks.iter().enumerate() {
            let text = format!("{}{}", file_text, rank_text);
            let cell = Cell::from_str(text.as_str()).unwrap();
            assert_eq!(cell.file as usize, f);
            assert_eq!(cell.rank as usize, r);
        }
    }
}
