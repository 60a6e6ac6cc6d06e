//! A three-by-three board of noughts and crosses: reading one from text and
//! finding who has completed a line.

use vstd::prelude::*;

verus! {

/// A mark on the board.
#[derive(Debug, Copy, Clone, PartialEq, Eq, Structural)]
pub enum TicTacToeSymbol {
    Circle,
    Cross,
}

/// The text does not describe a board.
#[derive(Debug)]
pub struct ParseErr;

/// What a character stands for in the text of a board: a mark, an empty
/// cell (`Some(None)`), or nothing at all (`None`).
pub open spec fn cell_of(c: char) -> Option<Option<TicTacToeSymbol>> {
    if c == 'o' || c == 'O' {
        Some(Some(TicTacToeSymbol::Circle))
    } else if c == 'x' || c == 'X' {
        Some(Some(TicTacToeSymbol::Cross))
    } else if c == ' ' {
        Some(None)
    } else {
        None
    }
}

/// The position in the text of the cell in row `r` and column `c`: each row
/// takes three characters and the line feed that ends it.
pub open spec fn text_index(r: int, c: int) -> int {
    4 * r + c
}

/// `s` is three rows of three cell characters each, separated by line
/// feeds.
pub open spec fn is_grid_text(s: Seq<char>) -> bool {
    &&& s.len() == 11
    &&& s[3] == '\n'
    &&& s[7] == '\n'
    &&& forall|r: int, c: int|
        0 <= r < 3 && 0 <= c < 3 ==> cell_of(#[trigger] s[text_index(r, c)]) is Some
}

/// The mark that fills all three cells, if one does.
pub open spec fn common_mark(
    a: Option<TicTacToeSymbol>,
    b: Option<TicTacToeSymbol>,
    c: Option<TicTacToeSymbol>,
) -> Option<TicTacToeSymbol> {
    if a is Some && a == b && b == c {
        a
    } else {
        None
    }
}

/// The row and column of the `i`-th cell of line `k`. Lines 0 to 2 are the
/// rows from the top, lines 3 to 5 the columns from the left, line 6 is the
/// diagonal from the top left and line 7 the one from the top right.
pub open spec fn line_cell(k: int, i: int) -> (int, int) {
    if k < 3 {
        (k, i)
    } else if k < 6 {
        (i, k - 3)
    } else if k == 6 {
        (i, i)
    } else {
        (i, 2 - i)
    }
}

impl TicTacToeSymbol {
    /// Reads one cell character: `o` or `O` is a circle, `x` or `X` a cross,
    /// a blank an empty cell. Any other character is refused.
    pub fn from(c: char) -> (r: Result<Option<TicTacToeSymbol>, ParseErr>)
        ensures
            r is Ok <==> cell_of(c) is Some,
            r matches Ok(cell) ==> cell_of(c) == Some(cell),
    {
        match c {
            'o' | 'O' => Ok(Some(TicTacToeSymbol::Circle)),
            'x' | 'X' => Ok(Some(TicTacToeSymbol::Cross)),
            ' ' => Ok(None),
            _ => Err(ParseErr),
        }
    }
}

/// A board: three rows of three cells.
pub struct TicTacToeGrid([[Option<TicTacToeSymbol>; 3]; 3]);

impl TicTacToeGrid {
    /// The cell in row `r` and column `c`, both counted from zero.
    pub closed spec fn cell(&self, r: int, c: int) -> Option<TicTacToeSymbol> {
        self.0[r][c]
    }

    /// The mark that fills line `k`, if one does.
    pub open spec fn line_owner(&self, k: int) -> Option<TicTacToeSymbol> {
        common_mark(
            self.cell(line_cell(k, 0).0, line_cell(k, 0).1),
            self.cell(line_cell(k, 1).0, line_cell(k, 1).1),
            self.cell(line_cell(k, 2).0, line_cell(k, 2).1),
        )
    }

    /// The owner of the first complete line among lines `k` to 7.
    pub open spec fn first_owner_from(&self, k: int) -> Option<TicTacToeSymbol>
        decreases 8 - k,
    {
        if k >= 8 {
            None
        } else if self.line_owner(k) is Some {
            self.line_owner(k)
        } else {
            self.first_owner_from(k + 1)
        }
    }

    /// The owner of the first complete line, taking the rows first, then the
    /// columns, then the two diagonals.
    pub open spec fn winner(&self) -> Option<TicTacToeSymbol> {
        self.first_owner_from(0)
    }

    /// Reads the three cells of the row that starts at `start`.
    fn read_row(from: &str, start: usize) -> (r: Result<[Option<TicTacToeSymbol>; 3], ParseErr>)
        requires
            start + 3 <= from@.len(),
            start <= 8,
        ensures
            r is Ok <==> cell_of(from@[start as int]) is Some && cell_of(from@[start + 1]) is Some
                && cell_of(from@[start + 2]) is Some,
            r matches Ok(row) ==> cell_of(from@[start as int]) == Some(row[0]) && cell_of(
                from@[start + 1],
            ) == Some(row[1]) && cell_of(from@[start + 2]) == Some(row[2]),
    {
        let a = match TicTacToeSymbol::from(from.get_char(start)) {
            Ok(cell) => cell,
            Err(e) => {
                return Err(e);
            },
        };
        let b = match TicTacToeSymbol::from(from.get_char(start + 1)) {
            Ok(cell) => cell,
            Err(e) => {
                return Err(e);
            },
        };
        let c = match TicTacToeSymbol::from(from.get_char(start + 2)) {
            Ok(cell) => cell,
            Err(e) => {
                return Err(e);
            },
        };
        Ok([a, b, c])
    }

    /// Reads a board from three lines of three characters each, separated by
    /// single line feeds. Text of any other shape, or with a character that
    /// is no cell, is refused.
    pub fn from_string(from: &str) -> (r: Result<TicTacToeGrid, ParseErr>)
        ensures
            r is Ok <==> is_grid_text(from@),
            r matches Ok(grid) ==> forall|row: int, col: int|
                0 <= row < 3 && 0 <= col < 3 ==> cell_of(from@[text_index(row, col)]) == Some(
                    #[trigger] grid.cell(row, col),
                ),
    {
        if from.unicode_len() != 11 {
            return Err(ParseErr);
        }
        if from.get_char(3) != '\n' || from.get_char(7) != '\n' {
            return Err(ParseErr);
        }
        proof {
            assert forall|row: int, col: int| 0 <= row < 3 && 0 <= col < 3 implies 0
                <= #[trigger] text_index(row, col) < 11 && text_index(row, col) != 3 && text_index(
                row,
                col,
            ) != 7 by {}
        }
        let top = match Self::read_row(from, 0) {
            Ok(row) => row,
            Err(e) => {
                assert(text_index(0, 0) == 0 && text_index(0, 1) == 1 && text_index(0, 2) == 2);
                return Err(e);
            },
        };
        let middle = match Self::read_row(from, 4) {
            Ok(row) => row,
            Err(e) => {
                assert(text_index(1, 0) == 4 && text_index(1, 1) == 5 && text_index(1, 2) == 6);
                return Err(e);
            },
        };
        let bottom = match Self::read_row(from, 8) {
            Ok(row) => row,
            Err(e) => {
                assert(text_index(2, 0) == 8 && text_index(2, 1) == 9 && text_index(2, 2) == 10);
                return Err(e);
            },
        };
        let grid = TicTacToeGrid([top, middle, bottom]);
        proof {
            assert forall|row: int, col: int| 0 <= row < 3 && 0 <= col < 3 implies cell_of(
                from@[text_index(row, col)],
            ) == Some(#[trigger] grid.cell(row, col)) by {
                if row == 0 {
                    assert(grid.cell(row, col) == top[col]);
                } else if row == 1 {
                    assert(grid.cell(row, col) == middle[col]);
                } else {
                    assert(grid.cell(row, col) == bottom[col]);
                }
            }
        }
        Ok(grid)
    }

    /// The mark that fills all three cells of `row`, if one does.
    pub fn row_winner(row: &[Option<TicTacToeSymbol>; 3]) -> (w: Option<TicTacToeSymbol>)
        ensures
            w == common_mark(row[0], row[1], row[2]),
    {
        match (row[0], row[1], row[2]) {
            (
                Some(TicTacToeSymbol::Circle),
                Some(TicTacToeSymbol::Circle),
                Some(TicTacToeSymbol::Circle),
            ) => Some(TicTacToeSymbol::Circle),
            (
                Some(TicTacToeSymbol::Cross),
                Some(TicTacToeSymbol::Cross),
                Some(TicTacToeSymbol::Cross),
            ) => Some(TicTacToeSymbol::Cross),
            _ => None,
        }
    }

    /// Finds the mark that has completed a line. Where several lines are
    /// complete, the rows are looked at first, from the top, then the columns,
    /// from the left, then the diagonal from the top left and last the other
    /// one.
    pub fn find_winner(&self) -> (w: Option<TicTacToeSymbol>)
        ensures
            w == self.winner(),
    {
        let mut i: usize = 0;
        while i < 3
            invariant
                i <= 3,
                self.winner() == self.first_owner_from(i as int),
            decreases 3 - i,
        {
            let row = [self.0[i][0], self.0[i][1], self.0[i][2]];
            if let Some(winner) = Self::row_winner(&row) {
                return Some(winner);
            }
            i = i + 1;
        }
        let mut j: usize = 0;
        while j < 3
            invariant
                j <= 3,
                self.winner() == self.first_owner_from(3 + j as int),
            decreases 3 - j,
        {
            let col = [self.0[0][j], self.0[1][j], self.0[2][j]];
            if let Some(winner) = Self::row_winner(&col) {
                return Some(winner);
            }
            j = j + 1;
        }
        let diag = [self.0[0][0], self.0[1][1], self.0[2][2]];
        let falling = Self::row_winner(&diag);
        assert(falling == self.line_owner(6));
        if let Some(winner) = falling {
            return Some(winner);
        }
        assert(self.first_owner_from(6) == self.first_owner_from(7));
        let diag = [self.0[0][2], self.0[1][1], self.0[2][0]];
        let rising = Self::row_winner(&diag);
        assert(rising == self.line_owner(7));
        if let Some(winner) = rising {
            return Some(winner);
        }
        assert(self.first_owner_from(7) == self.first_owner_from(8));
        None
    }
}

} // verus!
