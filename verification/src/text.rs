use vstd::prelude::*;
use vstd::string::StrSliceExecFns;
use vstd::string::StringExecFns;

use crate::board::{empty_board, Board, Player};
use crate::error::Error;

verus! {

/// Does this character stand for a square in a textual board? Marks for
/// either player and the blank for a free square each claim the next square;
/// every other character is decoration and is skipped.
pub open spec fn is_cell_char(c: char) -> bool {
    c == 'x' || c == 'X' || c == 'o' || c == 'O' || c == '0' || c == ' '
}

/// The mark a square character stands for: a blank leaves the square free.
pub open spec fn mark_of(c: char) -> Option<Player> {
    if c == 'x' || c == 'X' {
        Some(Player::X)
    } else if c == 'o' || c == 'O' || c == '0' {
        Some(Player::O)
    } else {
        None
    }
}

/// The text scan from character `i` on, with `pos` squares already filled
/// into `s`: each square character claims the next square in row order, and a
/// tenth square character overflows the board, which rejects the text.
pub open spec fn parse_from(
    t: Seq<char>,
    i: int,
    pos: int,
    s: Seq<Option<Player>>,
) -> Option<Seq<Option<Player>>>
    decreases t.len() - i,
{
    if i < 0 || i >= t.len() {
        Some(s)
    } else if is_cell_char(t[i]) {
        if pos >= 9 {
            None
        } else {
            parse_from(t, i + 1, pos + 1, s.update(pos, mark_of(t[i])))
        }
    } else {
        parse_from(t, i + 1, pos, s)
    }
}

/// The board a text denotes, if its square characters fit the nine squares.
pub open spec fn parse_spec(t: Seq<char>) -> Option<Seq<Option<Player>>> {
    parse_from(t, 0, 0, empty_board())
}

/// One square of the human-readable grid, with its trailing column rule.
pub open spec fn render_cell(c: Option<Player>) -> Seq<char> {
    match c {
        Some(Player::X) => "X | "@,
        Some(Player::O) => "O | "@,
        None => "  | "@,
    }
}

/// One row of the human-readable grid, under its horizontal rule.
pub open spec fn render_row(s: Seq<Option<Player>>, row: int) -> Seq<char> {
    "+---+---+---+\n| "@ + render_cell(s[3 * row]) + render_cell(s[3 * row + 1]) + render_cell(
        s[3 * row + 2],
    ) + "\n"@
}

/// The full human-readable grid.
pub open spec fn render_spec(s: Seq<Option<Player>>) -> Seq<char> {
    render_row(s, 0) + render_row(s, 1) + render_row(s, 2) + "+---+---+---+\n"@
}

/// The square character that `encode` emits for a square.
pub open spec fn cell_char(c: Option<Player>) -> char {
    match c {
        Some(Player::X) => 'x',
        Some(Player::O) => 'o',
        None => ' ',
    }
}

/// The compact, lossless text of a board: one character per square in row
/// order, with `'-'` between the rows.
pub open spec fn encode_spec(s: Seq<Option<Player>>) -> Seq<char> {
    seq![
        cell_char(s[0]),
        cell_char(s[1]),
        cell_char(s[2]),
        '-',
        cell_char(s[3]),
        cell_char(s[4]),
        cell_char(s[5]),
        '-',
        cell_char(s[6]),
        cell_char(s[7]),
        cell_char(s[8]),
    ]
}

fn append_cell(out: &mut String, c: Option<Player>)
    ensures
        final(out)@ == old(out)@ + render_cell(c),
{
    match c {
        Some(Player::X) => out.append("X | "),
        Some(Player::O) => out.append("O | "),
        None => out.append("  | "),
    }
}

impl Board {
    /// Reads a board from text. Square characters (`x`/`X`, `o`/`O`/`0`, and
    /// the blank for a free square) fill the squares in row order; any other
    /// character is decoration and is skipped. Text whose square characters
    /// overflow the nine squares is rejected with `InvalidBoardLength`.
    pub fn parse(text: &str) -> (r: Result<Board, Error>)
        ensures
            (match r {
                Ok(b) => parse_spec(text@) == Some(b@),
                Err(e) => parse_spec(text@) is None && e == Error::InvalidBoardLength,
            }),
    {
        let mut board = Board::default();
        let mut pos: usize = 0;
        let n = text.unicode_len();
        let mut i: usize = 0;
        while i < n
            invariant
                i <= n,
                n == text@.len(),
                pos <= 9,
                parse_from(text@, i as int, pos as int, board@) == parse_spec(text@),
            decreases n - i,
        {
            let c = text.get_char(i);
            if c == 'x' || c == 'X' {
                if pos >= 9 {
                    return Err(Error::InvalidBoardLength);
                }
                board.set_square(pos, Some(Player::X));
                pos = pos + 1;
            } else if c == 'o' || c == 'O' || c == '0' {
                if pos >= 9 {
                    return Err(Error::InvalidBoardLength);
                }
                board.set_square(pos, Some(Player::O));
                pos = pos + 1;
            } else if c == ' ' {
                if pos >= 9 {
                    return Err(Error::InvalidBoardLength);
                }
                board.set_square(pos, None);
                pos = pos + 1;
            }
            i = i + 1;
        }
        Ok(board)
    }

    fn append_row(&self, out: &mut String, row: usize)
        requires
            row < 3,
        ensures
            final(out)@ == old(out)@ + render_row(self@, row as int),
    {
        out.append("+---+---+---+\n| ");
        append_cell(out, self.get_square(row * 3));
        append_cell(out, self.get_square(row * 3 + 1));
        append_cell(out, self.get_square(row * 3 + 2));
        out.append("\n");
        proof {
            assert(out@ =~= old(out)@ + render_row(self@, row as int));
        }
    }

    /// Renders the board as a human-readable grid, purely from `get_square`.
    pub fn render(&self) -> (r: String)
        ensures
            r@ == render_spec(self@),
    {
        let mut out = String::new();
        self.append_row(&mut out, 0);
        self.append_row(&mut out, 1);
        self.append_row(&mut out, 2);
        out.append("+---+---+---+\n");
        proof {
            assert(out@ =~= render_spec(self@));
        }
        out
    }

    fn append_square_char(&self, out: &mut String, i: usize)
        requires
            i < 9,
        ensures
            final(out)@ == old(out)@ + seq![cell_char(self@[i as int])],
    {
        match self.get_square(i) {
            Some(Player::X) => out.append("x"),
            Some(Player::O) => out.append("o"),
            None => out.append(" "),
        }
        proof {
            reveal_strlit("x");
            reveal_strlit("o");
            reveal_strlit(" ");
            assert(out@ =~= old(out)@ + seq![cell_char(self@[i as int])]);
        }
    }

    /// Writes the compact text of the board, the form that `parse` reads
    /// back: one square character per square in row order, rows separated by
    /// `'-'`. Unlike the rendered grid, this form is lossless.
    pub fn encode(&self) -> (r: String)
        ensures
            r@ == encode_spec(self@),
    {
        let mut out = String::new();
        self.append_square_char(&mut out, 0);
        self.append_square_char(&mut out, 1);
        self.append_square_char(&mut out, 2);
        out.append("-");
        self.append_square_char(&mut out, 3);
        self.append_square_char(&mut out, 4);
        self.append_square_char(&mut out, 5);
        out.append("-");
        self.append_square_char(&mut out, 6);
        self.append_square_char(&mut out, 7);
        self.append_square_char(&mut out, 8);
        proof {
            reveal_strlit("-");
            assert(out@ =~= encode_spec(self@));
        }
        out
    }
}

/// Round trip: parsing the compact text of any board yields exactly that
/// board's occupancy back.
pub proof fn lemma_encode_round_trip(s: Seq<Option<Player>>)
    requires
        s.len() == 9,
    ensures
        parse_spec(encode_spec(s)) == Some(s),
{
    let t = encode_spec(s);
    let e = empty_board();
    let a0 = e.update(0, s[0]);
    let a1 = a0.update(1, s[1]);
    let a2 = a1.update(2, s[2]);
    let a3 = a2.update(3, s[3]);
    let a4 = a3.update(4, s[4]);
    let a5 = a4.update(5, s[5]);
    let a6 = a5.update(6, s[6]);
    let a7 = a6.update(7, s[7]);
    let a8 = a7.update(8, s[8]);
    assert(parse_from(t, 0, 0, e) == parse_from(t, 1, 1, a0));
    assert(parse_from(t, 1, 1, a0) == parse_from(t, 2, 2, a1));
    assert(parse_from(t, 2, 2, a1) == parse_from(t, 3, 3, a2));
    assert(parse_from(t, 3, 3, a2) == parse_from(t, 4, 3, a2));
    assert(parse_from(t, 4, 3, a2) == parse_from(t, 5, 4, a3));
    assert(parse_from(t, 5, 4, a3) == parse_from(t, 6, 5, a4));
    assert(parse_from(t, 6, 5, a4) == parse_from(t, 7, 6, a5));
    assert(parse_from(t, 7, 6, a5) == parse_from(t, 8, 6, a5));
    assert(parse_from(t, 8, 6, a5) == parse_from(t, 9, 7, a6));
    assert(parse_from(t, 9, 7, a6) == parse_from(t, 10, 8, a7));
    assert(parse_from(t, 10, 8, a7) == parse_from(t, 11, 9, a8));
    assert(parse_from(t, 11, 9, a8) == Some(a8));
    assert(a8 =~= s);
}

} // verus!
