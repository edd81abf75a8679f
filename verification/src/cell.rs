//! One of the 64 board squares, addressed by rank and file, by flat
//! index `rank * 8 + file`, or by two-character algebraic text such as
//! `"e4"` (lowercase file letter `a`..`h`, then rank digit `1`..`8`).
//!
//! The three constructors reject every out-of-domain input by returning
//! `None` (the `InvalidSquare` condition); a constructed `Cell` always
//! satisfies `wf`.

use vstd::prelude::*;
use vstd::string::StringExecFns;

verus! {

/// A board square: rank and file, each in `[0, 8)`.
#[derive(Clone, Copy, PartialEq, Eq, Structural, Debug)]
pub struct Cell {
    pub rank: u8,
    pub file: u8,
}

/// The file value a letter stands for, if it is a lowercase file letter.
pub open spec fn file_of_char(c: char) -> Option<u8> {
    if c == 'a' {
        Some(0u8)
    } else if c == 'b' {
        Some(1u8)
    } else if c == 'c' {
        Some(2u8)
    } else if c == 'd' {
        Some(3u8)
    } else if c == 'e' {
        Some(4u8)
    } else if c == 'f' {
        Some(5u8)
    } else if c == 'g' {
        Some(6u8)
    } else if c == 'h' {
        Some(7u8)
    } else {
        None
    }
}

/// The rank value a digit stands for, if it is a rank digit.
pub open spec fn rank_of_char(c: char) -> Option<u8> {
    if c == '1' {
        Some(0u8)
    } else if c == '2' {
        Some(1u8)
    } else if c == '3' {
        Some(2u8)
    } else if c == '4' {
        Some(3u8)
    } else if c == '5' {
        Some(4u8)
    } else if c == '6' {
        Some(5u8)
    } else if c == '7' {
        Some(6u8)
    } else if c == '8' {
        Some(7u8)
    } else {
        None
    }
}

/// The letter of a file value in `[0, 8)`.
pub open spec fn file_char(f: u8) -> char {
    if f == 0 {
        'a'
    } else if f == 1 {
        'b'
    } else if f == 2 {
        'c'
    } else if f == 3 {
        'd'
    } else if f == 4 {
        'e'
    } else if f == 5 {
        'f'
    } else if f == 6 {
        'g'
    } else {
        'h'
    }
}

/// The digit of a rank value in `[0, 8)`.
pub open spec fn rank_char(r: u8) -> char {
    if r == 0 {
        '1'
    } else if r == 1 {
        '2'
    } else if r == 2 {
        '3'
    } else if r == 3 {
        '4'
    } else if r == 4 {
        '5'
    } else if r == 5 {
        '6'
    } else if r == 6 {
        '7'
    } else {
        '8'
    }
}

/// The square algebraic text denotes: `Some` exactly for two characters,
/// a file letter followed by a rank digit.
pub open spec fn parse_text(s: Seq<char>) -> Option<Cell> {
    if s.len() != 2 {
        None
    } else {
        match (file_of_char(s[0]), rank_of_char(s[1])) {
            (Some(f), Some(r)) => Some(Cell { rank: r, file: f }),
            _ => None,
        }
    }
}

/// The square a flat index denotes: `Some` exactly for indices in `[0, 64)`.
pub open spec fn cell_at(i: int) -> Option<Cell> {
    if 0 <= i < 64 {
        Some(Cell { rank: (i / 8) as u8, file: (i % 8) as u8 })
    } else {
        None
    }
}

impl Cell {
    /// Both coordinates are on the board.
    pub open spec fn wf(self) -> bool {
        self.rank < 8 && self.file < 8
    }

    /// The flat index of this square: `rank * 8 + file`.
    pub open spec fn flat_index(self) -> int {
        self.rank * 8 + self.file
    }

    /// The two-character algebraic text of this square.
    pub open spec fn text_of(self) -> Seq<char> {
        seq![file_char(self.file), rank_char(self.rank)]
    }

    /// Builds the square at `rank`/`file`; `None` exactly when either
    /// coordinate is outside `[0, 8)`.
    pub fn new(rank: u8, file: u8) -> (r: Option<Cell>)
        ensures
            r == (if rank < 8 && file < 8 {
                Some(Cell { rank, file })
            } else {
                None::<Cell>
            }),
    {
        if rank < 8 && file < 8 {
            Some(Cell { rank, file })
        } else {
            None
        }
    }

    /// Builds the square at a flat index; `None` exactly when the index is
    /// outside `[0, 64)`.
    pub fn from_index(index: u8) -> (r: Option<Cell>)
        ensures
            r == cell_at(index as int),
    {
        if index < 64 {
            Some(Cell { rank: index / 8, file: index % 8 })
        } else {
            None
        }
    }

    /// Parses algebraic text; `None` exactly when the text is not two
    /// characters, a file letter `a`..`h` then a rank digit `1`..`8`.
    pub fn from_str(s: &str) -> (r: Option<Cell>)
        ensures
            r == parse_text(s@),
    {
        if s.unicode_len() != 2 {
            return None;
        }
        let c0 = s.get_char(0);
        let c1 = s.get_char(1);
        let file: u8 = match c0 {
            'a' => 0,
            'b' => 1,
            'c' => 2,
            'd' => 3,
            'e' => 4,
            'f' => 5,
            'g' => 6,
            'h' => 7,
            _ => {
                return None;
            },
        };
        let rank: u8 = match c1 {
            '1' => 0,
            '2' => 1,
            '3' => 2,
            '4' => 3,
            '5' => 4,
            '6' => 5,
            '7' => 6,
            '8' => 7,
            _ => {
                return None;
            },
        };
        Some(Cell { rank, file })
    }

    /// The flat index of this square.
    pub fn index(&self) -> (r: u8)
        requires
            self.wf(),
        ensures
            r == self.flat_index(),
            r < 64,
    {
        self.rank * 8 + self.file
    }

    /// The algebraic text of this square, such as `"e4"`.
    pub fn to_text(&self) -> (r: String)
        requires
            self.wf(),
        ensures
            r@ == self.text_of(),
    {
        let fs: &str = match self.file {
            0 => "a",
            1 => "b",
            2 => "c",
            3 => "d",
            4 => "e",
            5 => "f",
            6 => "g",
            _ => "h",
        };
        let rs: &str = match self.rank {
            0 => "1",
            1 => "2",
            2 => "3",
            3 => "4",
            4 => "5",
            5 => "6",
            6 => "7",
            _ => "8",
        };
        proof {
            reveal_strlit("a");
            reveal_strlit("b");
            reveal_strlit("c");
            reveal_strlit("d");
            reveal_strlit("e");
            reveal_strlit("f");
            reveal_strlit("g");
            reveal_strlit("h");
            reveal_strlit("1");
            reveal_strlit("2");
            reveal_strlit("3");
            reveal_strlit("4");
            reveal_strlit("5");
            reveal_strlit("6");
            reveal_strlit("7");
            reveal_strlit("8");
            assert(fs@ =~= seq![file_char(self.file)]);
            assert(rs@ =~= seq![rank_char(self.rank)]);
        }
        let mut text = String::from_str(fs);
        text.append(rs);
        proof {
            assert(text@ =~= self.text_of());
        }
        text
    }
}

/// Round trip through algebraic text: parsing the text of a valid square
/// yields that square back.
pub proof fn lemma_text_round_trip(c: Cell)
    requires
        c.wf(),
    ensures
        parse_text(c.text_of()) == Some(c),
{
    assert(file_of_char(file_char(c.file)) == Some(c.file));
    assert(rank_of_char(rank_char(c.rank)) == Some(c.rank));
}

/// Round trip through the flat index: the square at the flat index of a
/// valid square is that square back.
pub proof fn lemma_flat_round_trip(c: Cell)
    requires
        c.wf(),
    ensures
        cell_at(c.flat_index()) == Some(c),
{
    assert(c.flat_index() / 8 == c.rank && c.flat_index() % 8 == c.file) by (nonlinear_arith)
        requires
            c.rank < 8 && c.file < 8,
    ;
}

} // verus!
