//! The board vocabulary the evaluation logic reads: colors, moves and their
//! notation (`H8` is column H, row 8), rule variants, game results, and a
//! plain grid of stones for printing boards.
use vstd::prelude::*;
use crate::text::{
    all_ascii_digits, capped_digits_value, capped_value, decimal, decimal_chars, digits_value,
    parse_cap, push_char, push_chars, string_from_chars,
};

verus! {

/// A player color. Black moves first.
#[derive(Debug, Clone, Copy, PartialEq, Eq, Structural)]
pub enum Color {
    Black,
    White,
}

impl Color {
    /// The other color.
    pub open spec fn opponent_spec(self) -> Color {
        match self {
            Color::Black => Color::White,
            Color::White => Color::Black,
        }
    }

    /// The other color.
    pub fn opponent(self) -> (r: Color)
        ensures
            r == self.opponent_spec(),
    {
        match self {
            Color::Black => Color::White,
            Color::White => Color::Black,
        }
    }

    /// The character a board print uses for a stone of this color.
    pub open spec fn char_spec(self) -> char {
        match self {
            Color::Black => 'B',
            Color::White => 'W',
        }
    }

    /// `B` for black, `W` for white.
    pub fn to_char(self) -> (r: char)
        ensures
            r == self.char_spec(),
    {
        match self {
            Color::Black => 'B',
            Color::White => 'W',
        }
    }
}

/// The color that plays at ply `ply` (1-based); none before the first move.
pub open spec fn color_for_ply_spec(ply: nat) -> Option<Color> {
    if ply == 0 {
        None
    } else if ply % 2 == 1 {
        Some(Color::Black)
    } else {
        Some(Color::White)
    }
}

/// The color that plays at ply `ply`: odd plies are Black, even plies White.
pub fn color_for_ply(ply: usize) -> (r: Option<Color>)
    ensures
        r == color_for_ply_spec(ply as nat),
{
    if ply == 0 {
        None
    } else if ply % 2 == 1 {
        Some(Color::Black)
    } else {
        Some(Color::White)
    }
}

/// Rule variant of a game.
#[derive(Debug, Clone, Copy, PartialEq, Eq, Structural)]
pub enum Variant {
    Freestyle,
    Renju,
}

/// The label of a rule variant: `freestyle` or `renju`.
pub fn variant_label(variant: &Variant) -> (r: &'static str)
    ensures
        r@ == (match variant {
            Variant::Freestyle => "freestyle"@,
            Variant::Renju => "renju"@,
        }),
{
    match variant {
        Variant::Freestyle => "freestyle",
        Variant::Renju => "renju",
    }
}

/// Board size, winning run length and rule variant of a game.
#[derive(Debug, Clone, Copy, PartialEq, Eq, Structural)]
pub struct RuleConfig {
    pub board_size: usize,
    pub win_length: usize,
    pub variant: Variant,
}

/// How a game stands.
#[derive(Debug, Clone, Copy, PartialEq, Eq, Structural)]
pub enum GameResult {
    Winner(Color),
    Draw,
    Ongoing,
}

/// A board square, by zero-based row and column.
#[derive(Debug, Clone, Copy, PartialEq, Eq, Structural)]
pub struct Move {
    pub row: usize,
    pub col: usize,
}

/// The column letter of a zero-based column: `A` for 0.
pub open spec fn column_char_spec(col: int) -> char {
    (65 + col) as char
}

/// Column letter then one-based row number, e.g. `H8` for row 7, column 7.
pub open spec fn notation_spec(mv: Move) -> Seq<char> {
    seq![column_char_spec(mv.col as int)] + decimal((mv.row + 1) as nat)
}

/// The move a notation names: an uppercase column letter and a row number
/// from 1 on (below the parse cap).
pub open spec fn parse_notation_spec(s: Seq<char>) -> Option<Move> {
    let rest = s.skip(1);
    if s.len() >= 2 && 'A' <= s[0] && s[0] <= 'Z' && all_ascii_digits(rest) && digits_value(rest)
        >= 1 && digits_value(rest) < parse_cap() {
        Some(Move { row: (digits_value(rest) - 1) as usize, col: (s[0] as int - 65) as usize })
    } else {
        None
    }
}

/// The column letter of a zero-based column (`A` for 0), the character
/// `col` places after `A`.
pub fn column_label(col: usize) -> (r: char)
    requires
        col < 191,
    ensures
        r == column_char_spec(col as int),
{
    let b: u8 = 65u8 + (col as u8);
    b as char
}

impl Move {
    /// The move's notation, e.g. `H8`.
    pub fn to_notation(self) -> (r: String)
        requires
            self.col < 26,
            self.row < usize::MAX,
        ensures
            r@ == notation_spec(self),
    {
        let mut s = String::new();
        push_char(&mut s, column_label(self.col));
        let digits = decimal_chars((self.row + 1) as u64);
        push_chars(&mut s, digits.as_slice());
        proof {
            assert(s@ =~= notation_spec(self));
        }
        s
    }

    /// Parses a notation such as `H8`; `None` when it is not a column letter
    /// followed by a row number.
    pub fn from_notation(s: &[char]) -> (r: Option<Move>)
        ensures
            r == parse_notation_spec(s@),
    {
        if s.len() < 2 || !('A' <= s[0] && s[0] <= 'Z') {
            return None;
        }
        match capped_digits_value(s, 1) {
            None => None,
            Some(v) => {
                if v >= 1 && v < 4294967296 {
                    proof {
                        assert(capped_value(s@.skip(1)) == digits_value(s@.skip(1)));
                    }
                    let col = (s[0] as u32 - 65u32) as usize;
                    Some(Move { row: (v - 1) as usize, col })
                } else {
                    None
                }
            },
        }
    }
}

proof fn lemma_decimal_digits(n: nat)
    ensures
        decimal(n).len() >= 1,
        all_ascii_digits(decimal(n)),
        digits_value(decimal(n)) == n,
    decreases n,
{
    let last = crate::text::digit_char((n % 10) as int);
    assert(last as int == 48 + n % 10);
    if n < 10 {
        assert(decimal(n) == seq![last]);
        assert(decimal(n).drop_last() =~= Seq::<char>::empty());
        assert(decimal(n).last() == last);
        assert(digits_value(Seq::<char>::empty()) == 0);
        assert(digits_value(decimal(n)) == digits_value(decimal(n).drop_last()) * 10 + (last as int
            - 48));
    } else {
        lemma_decimal_digits(n / 10);
        let d = decimal(n);
        let p = decimal(n / 10);
        assert(d == p.push(last));
        assert(d.drop_last() =~= p);
        assert((n / 10) * 10 + n % 10 == n);
        assert(d.last() == last);
        assert(digits_value(d) == digits_value(p) * 10 + (last as int - 48));
        assert forall|i: int| 0 <= i < d.len() implies '0' <= #[trigger] d[i] && d[i] <= '9' by {
            if i < p.len() {
                assert(d[i] == p[i]);
            }
        }
    }
}

/// Reading back the notation of a move gives the move again, for every
/// square with a column letter `A` to `Z` and a row number below the
/// parse cap.
pub proof fn law_notation_round_trip(mv: Move)
    requires
        mv.col < 26,
        mv.row + 1 < parse_cap(),
    ensures
        parse_notation_spec(notation_spec(mv)) == Some(mv),
{
    let s = notation_spec(mv);
    let digits = decimal((mv.row + 1) as nat);
    lemma_decimal_digits((mv.row + 1) as nat);
    assert(s.skip(1) =~= digits);
    assert(s[0] == column_char_spec(mv.col as int));
}

/// A plain grid of stones, row-major, `size` by `size`.
#[derive(Debug, Clone, PartialEq, Eq)]
pub struct BoardGrid {
    pub size: usize,
    pub cells: Vec<Option<Color>>,
}

impl BoardGrid {
    /// The grid holds one cell per square.
    pub open spec fn wf(&self) -> bool {
        self.cells.len() == self.size * self.size
    }

    /// The stone at a square.
    pub open spec fn cell_spec(&self, row: int, col: int) -> Option<Color> {
        self.cells@[row * self.size + col]
    }

    /// The stone at a square.
    pub fn cell(&self, row: usize, col: usize) -> (r: Option<Color>)
        requires
            self.wf(),
            row < self.size,
            col < self.size,
        ensures
            r == self.cell_spec(row as int, col as int),
    {
        proof {
            assert(row * self.size + col < self.size * self.size) by (nonlinear_arith)
                requires
                    row < self.size,
                    col < self.size,
            ;
        }
        self.cells[row * self.size + col]
    }
}

/// The print character of a square: the stone's letter or `.`.
pub open spec fn cell_char_spec(c: Option<Color>) -> char {
    match c {
        Some(color) => color.char_spec(),
        None => '.',
    }
}

/// The characters of one board row, left to right.
pub open spec fn row_chars_spec(grid: BoardGrid, row: int) -> Seq<char> {
    Seq::new(grid.size as nat, |col: int| cell_char_spec(grid.cell_spec(row, col)))
}

/// One string per row, top row first in index order, like the snapshot rows
/// of an analysis.
pub fn board_rows(grid: &BoardGrid) -> (r: Vec<String>)
    requires
        grid.wf(),
    ensures
        r.len() == grid.size,
        forall|i: int| 0 <= i < grid.size ==> #[trigger] r@[i]@ == row_chars_spec(*grid, i),
{
    let mut rows: Vec<String> = Vec::new();
    let mut row: usize = 0;
    while row < grid.size
        invariant
            grid.wf(),
            row <= grid.size,
            rows.len() == row,
            forall|i: int| 0 <= i < row ==> #[trigger] rows@[i]@ == row_chars_spec(*grid, i),
        decreases grid.size - row,
    {
        let mut line: Vec<char> = Vec::new();
        let mut col: usize = 0;
        while col < grid.size
            invariant
                grid.wf(),
                row < grid.size,
                col <= grid.size,
                line@ == row_chars_spec(*grid, row as int).take(col as int),
            decreases grid.size - col,
        {
            let c = match grid.cell(row, col) {
                Some(color) => color.to_char(),
                None => '.',
            };
            line.push(c);
            assert(row_chars_spec(*grid, row as int).take(col + 1) =~= row_chars_spec(
                *grid,
                row as int,
            ).take(col as int).push(c));
            col += 1;
        }
        assert(row_chars_spec(*grid, row as int).take(grid.size as int) =~= row_chars_spec(
            *grid,
            row as int,
        ));
        rows.push(string_from_chars(line.as_slice()));
        row += 1;
    }
    rows
}

/// A copy of the moves.
pub(crate) fn copy_moves(v: &[Move]) -> (r: Vec<Move>)
    ensures
        r@ == v@,
{
    let mut r: Vec<Move> = Vec::new();
    let mut k: usize = 0;
    while k < v.len()
        invariant
            k <= v.len(),
            r@ == v@.take(k as int),
        decreases v.len() - k,
    {
        r.push(v[k]);
        assert(v@.take(k + 1) =~= v@.take(k as int).push(v@[k as int]));
        k += 1;
    }
    assert(v@.take(v.len() as int) =~= v@);
    r
}

} // verus!
