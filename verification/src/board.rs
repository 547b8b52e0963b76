use vstd::prelude::*;

use crate::error::Error;

verus! {

/// One of the two players.
#[derive(Clone, Copy, PartialEq, Eq, Structural, Debug)]
pub enum Player {
    /// The first player: moves whenever both players hold equally many squares.
    X,
    /// The second player.
    O,
}

/// The terminal classification of a board: a completed three-in-a-row line, a
/// full board with no such line, or a game that is still going.
#[derive(PartialEq, Eq, Structural, Debug)]
pub enum GameState {
    Winner(Player),
    Draw,
    Indeterminate,
}

/// A 3x3 board. Each square holds at most one mark; squares are addressed
/// row-major, so square `row * 3 + col` lies at `(row, col)`.
#[derive(Clone, Copy)]
pub struct Board {
    cells: [Option<Player>; 9],
}

impl View for Board {
    type V = Seq<Option<Player>>;

    closed spec fn view(&self) -> Seq<Option<Player>> {
        self.cells@
    }
}

/// Every board value views as exactly the nine squares.
pub broadcast proof fn lemma_board_view_len(b: Board)
    ensures
        #[trigger] b@.len() == 9,
{
}

/// The empty board: all nine squares free.
pub open spec fn empty_board() -> Seq<Option<Player>> {
    Seq::new(9, |i: int| None::<Player>)
}

/// How many of the first `n` squares `p` holds.
pub open spec fn count_upto(s: Seq<Option<Player>>, p: Player, n: int) -> int
    decreases n,
{
    if n <= 0 {
        0
    } else {
        count_upto(s, p, n - 1) + (if s[n - 1] == Some(p) {
            1int
        } else {
            0int
        })
    }
}

/// How many squares `p` holds on the whole board.
pub open spec fn count_of(s: Seq<Option<Player>>, p: Player) -> int {
    count_upto(s, p, 9)
}

/// The player to move. Turn is derived from the occupancy counts, never
/// stored: the player with fewer squares moves next, and with equal counts
/// the first player `X` moves.
pub open spec fn next_of(s: Seq<Option<Player>>) -> Player {
    if count_of(s, Player::X) > count_of(s, Player::O) {
        Player::O
    } else {
        Player::X
    }
}

/// Counts can never drift further apart than this under alternating play:
/// either the marks are level, or the first player `X` holds one more.
pub open spec fn balanced(s: Seq<Option<Player>>) -> bool {
    count_of(s, Player::O) <= count_of(s, Player::X) <= count_of(s, Player::O) + 1
}

proof fn lemma_count_upto_agree(s: Seq<Option<Player>>, t: Seq<Option<Player>>, p: Player, n: int)
    requires
        forall|j: int| 0 <= j < n ==> s[j] == t[j],
    ensures
        count_upto(s, p, n) == count_upto(t, p, n),
    decreases n,
{
    if n > 0 {
        lemma_count_upto_agree(s, t, p, n - 1);
    }
}

proof fn lemma_count_upto_update(
    s: Seq<Option<Player>>,
    p: Player,
    i: int,
    v: Option<Player>,
    n: int,
)
    requires
        0 <= i < n <= s.len(),
    ensures
        count_upto(s.update(i, v), p, n) == count_upto(s, p, n) - (if s[i] == Some(p) {
            1int
        } else {
            0int
        }) + (if v == Some(p) {
            1int
        } else {
            0int
        }),
    decreases n,
{
    let t = s.update(i, v);
    if i == n - 1 {
        lemma_count_upto_agree(s, t, p, n - 1);
    } else {
        lemma_count_upto_update(s, p, i, v, n - 1);
    }
}

/// On a balanced board, placing the mover's mark on a free square passes the
/// turn to the opponent, and the board stays balanced.
pub proof fn lemma_turn_alternates(s: Seq<Option<Player>>, i: int)
    requires
        s.len() == 9,
        balanced(s),
        0 <= i < 9,
        s[i] is None,
    ensures
        next_of(s.update(i, Some(next_of(s)))) != next_of(s),
        balanced(s.update(i, Some(next_of(s)))),
{
    let p = next_of(s);
    lemma_count_upto_update(s, Player::X, i, Some(p), 9);
    lemma_count_upto_update(s, Player::O, i, Some(p), 9);
}

/// The squares of the `k`-th three-in-a-row line, in the order the terminal
/// scan visits the eight lines.
pub open spec fn win_line(k: int) -> (int, int, int) {
    if k == 0 {
        (6, 7, 8)
    } else if k == 1 {
        (3, 4, 5)
    } else if k == 2 {
        (0, 1, 2)
    } else if k == 3 {
        (0, 3, 6)
    } else if k == 4 {
        (1, 4, 7)
    } else if k == 5 {
        (2, 5, 8)
    } else if k == 6 {
        (0, 4, 8)
    } else {
        (2, 4, 6)
    }
}

/// Does `p` hold every square of line `k`?
pub open spec fn has_line(s: Seq<Option<Player>>, p: Player, k: int) -> bool {
    &&& s[win_line(k).0] == Some(p)
    &&& s[win_line(k).1] == Some(p)
    &&& s[win_line(k).2] == Some(p)
}

/// Does `p` hold three in a row anywhere?
pub open spec fn wins(s: Seq<Option<Player>>, p: Player) -> bool {
    exists|k: int| 0 <= k < 8 && has_line(s, p, k)
}

/// Every square is occupied.
pub open spec fn board_full(s: Seq<Option<Player>>) -> bool {
    forall|i: int| 0 <= i < 9 ==> s[i] is Some
}

/// The terminal scan from line `k` on. For each line in turn, `O`'s claim is
/// examined before `X`'s, so if both players somehow complete a line the
/// earlier line decides, and `O` decides a shared line; such boards cannot
/// arise from play, but the classification stays deterministic on them.
/// After the lines, a full board is a draw; otherwise play goes on.
pub open spec fn state_scan(s: Seq<Option<Player>>, k: int) -> GameState
    decreases 8 - k,
{
    if k < 0 || k >= 8 {
        if board_full(s) {
            GameState::Draw
        } else {
            GameState::Indeterminate
        }
    } else if has_line(s, Player::O, k) {
        GameState::Winner(Player::O)
    } else if has_line(s, Player::X, k) {
        GameState::Winner(Player::X)
    } else {
        state_scan(s, k + 1)
    }
}

/// The terminal classification of `s`.
pub open spec fn state_of(s: Seq<Option<Player>>) -> GameState {
    state_scan(s, 0)
}

/// The conventions at the start of a game: on the empty board the first
/// player `X` moves, the game is ongoing, and the counts are balanced.
pub proof fn lemma_empty_board_start()
    ensures
        next_of(empty_board()) == Player::X,
        state_of(empty_board()) == GameState::Indeterminate,
        balanced(empty_board()),
{
    reveal_with_fuel(count_upto, 11);
    reveal_with_fuel(state_scan, 10);
}

proof fn lemma_scan_characterization(s: Seq<Option<Player>>, k: int)
    requires
        0 <= k <= 8,
    ensures
        (state_scan(s, k) is Winner) <==> exists|m: int|
            k <= m < 8 && (has_line(s, Player::O, m) || has_line(s, Player::X, m)),
        state_scan(s, k) == GameState::Winner(Player::O) ==> exists|m: int|
            k <= m < 8 && has_line(s, Player::O, m),
        state_scan(s, k) == GameState::Winner(Player::X) ==> exists|m: int|
            k <= m < 8 && has_line(s, Player::X, m),
        !(state_scan(s, k) is Winner) ==> state_scan(s, k) == (if board_full(s) {
            GameState::Draw
        } else {
            GameState::Indeterminate
        }),
    decreases 8 - k,
{
    if k < 8 {
        if has_line(s, Player::O, k) {
            assert(k <= k < 8 && has_line(s, Player::O, k));
        } else if has_line(s, Player::X, k) {
            assert(k <= k < 8 && has_line(s, Player::X, k));
        } else {
            lemma_scan_characterization(s, k + 1);
            if state_scan(s, k) is Winner {
                let m = choose|m: int|
                    k + 1 <= m < 8 && (has_line(s, Player::O, m) || has_line(s, Player::X, m));
                assert(k <= m < 8 && (has_line(s, Player::O, m) || has_line(s, Player::X, m)));
            }
            if exists|m: int| k <= m < 8 && (has_line(s, Player::O, m) || has_line(s, Player::X, m)) {
                let m = choose|m: int|
                    k <= m < 8 && (has_line(s, Player::O, m) || has_line(s, Player::X, m));
                assert(k + 1 <= m < 8 && (has_line(s, Player::O, m) || has_line(s, Player::X, m)));
            }
        }
    }
}

/// How the terminal classification relates to the lines and to occupancy: a
/// winner is reported exactly when some line is complete, and when a single
/// player holds a line the winner is that player; with no complete line, a
/// full board is a draw and any other board is still ongoing.
pub proof fn lemma_state_characterization(s: Seq<Option<Player>>)
    ensures
        (state_of(s) is Winner) <==> (wins(s, Player::O) || wins(s, Player::X)),
        state_of(s) == GameState::Winner(Player::O) ==> wins(s, Player::O),
        state_of(s) == GameState::Winner(Player::X) ==> wins(s, Player::X),
        wins(s, Player::O) && !wins(s, Player::X) ==> state_of(s) == GameState::Winner(Player::O),
        wins(s, Player::X) && !wins(s, Player::O) ==> state_of(s) == GameState::Winner(Player::X),
        state_of(s) == GameState::Draw <==> (!wins(s, Player::O) && !wins(s, Player::X)
            && board_full(s)),
        state_of(s) == GameState::Indeterminate <==> (!wins(s, Player::O) && !wins(s, Player::X)
            && !board_full(s)),
{
    lemma_scan_characterization(s, 0);
    if wins(s, Player::O) {
        let m = choose|m: int| 0 <= m < 8 && has_line(s, Player::O, m);
        assert(0 <= m < 8 && (has_line(s, Player::O, m) || has_line(s, Player::X, m)));
    }
    if wins(s, Player::X) {
        let m = choose|m: int| 0 <= m < 8 && has_line(s, Player::X, m);
        assert(0 <= m < 8 && (has_line(s, Player::O, m) || has_line(s, Player::X, m)));
    }
    if exists|m: int| 0 <= m < 8 && (has_line(s, Player::O, m) || has_line(s, Player::X, m)) {
        let m = choose|m: int|
            0 <= m < 8 && (has_line(s, Player::O, m) || has_line(s, Player::X, m));
        assert(has_line(s, Player::O, m) ==> wins(s, Player::O));
        assert(has_line(s, Player::X, m) ==> wins(s, Player::X));
    }
}

impl Default for Board {
    /// The empty board.
    fn default() -> (r: Board)
        ensures
            r@ == empty_board(),
    {
        let b = Board { cells: [None; 9] };
        proof {
            assert(b@ =~= empty_board());
        }
        b
    }
}

impl Board {
    /// Which player needs to move next?
    pub fn next_player(&self) -> (r: Player)
        ensures
            r == next_of(self@),
    {
        let mut cx: usize = 0;
        let mut co: usize = 0;
        let mut i: usize = 0;
        while i < 9
            invariant
                i <= 9,
                cx <= i,
                co <= i,
                cx as int == count_upto(self@, Player::X, i as int),
                co as int == count_upto(self@, Player::O, i as int),
            decreases 9 - i,
        {
            match self.cells[i] {
                Some(Player::X) => {
                    cx = cx + 1;
                },
                Some(Player::O) => {
                    co = co + 1;
                },
                None => {},
            }
            i = i + 1;
        }
        if cx > co {
            Player::O
        } else {
            Player::X
        }
    }

    /// Does `p` hold square `i`?
    fn owns(&self, i: usize, p: Player) -> (r: bool)
        requires
            i < 9,
        ensures
            r == (self@[i as int] == Some(p)),
    {
        match self.cells[i] {
            Some(q) => q == p,
            None => false,
        }
    }

    /// Does `p` hold all three squares of winning line `k`?
    fn line_held(&self, k: usize, p: Player) -> (r: bool)
        requires
            k < 8,
        ensures
            r == has_line(self@, p, k as int),
    {
        let (a, b, c): (usize, usize, usize) = if k == 0 {
            (6, 7, 8)
        } else if k == 1 {
            (3, 4, 5)
        } else if k == 2 {
            (0, 1, 2)
        } else if k == 3 {
            (0, 3, 6)
        } else if k == 4 {
            (1, 4, 7)
        } else if k == 5 {
            (2, 5, 8)
        } else if k == 6 {
            (0, 4, 8)
        } else {
            (2, 4, 6)
        };
        self.owns(a, p) && self.owns(b, p) && self.owns(c, p)
    }

    /// The current `GameState` (win / draw / ongoing), a pure derived query
    /// with no side effects; the search calls it at every node.
    pub fn state(&self) -> (r: GameState)
        ensures
            r == state_of(self@),
    {
        let mut k: usize = 0;
        while k < 8
            invariant
                k <= 8,
                state_scan(self@, k as int) == state_of(self@),
            decreases 8 - k,
        {
            if self.line_held(k, Player::O) {
                return GameState::Winner(Player::O);
            }
            if self.line_held(k, Player::X) {
                return GameState::Winner(Player::X);
            }
            k = k + 1;
        }
        let mut i: usize = 0;
        while i < 9
            invariant
                i <= 9,
                state_scan(self@, 8) == state_of(self@),
                forall|j: int| 0 <= j < i ==> self@[j] is Some,
            decreases 9 - i,
        {
            if self.get_square(i).is_none() {
                proof {
                    assert(!board_full(self@));
                }
                return GameState::Indeterminate;
            }
            i = i + 1;
        }
        proof {
            assert(board_full(self@));
        }
        GameState::Draw
    }

    /// The occupant of square `pos`, or `None` when the square is empty.
    /// An index outside `0..9` yields `None` rather than an error.
    pub fn get_square(&self, pos: usize) -> (r: Option<Player>)
        ensures
            pos < 9 ==> r == self@[pos as int],
            pos >= 9 ==> r is None,
    {
        if pos < 9 {
            self.cells[pos]
        } else {
            None
        }
    }

    /// Makes a move with `self.next_player` at square `pos`. Rejects an index
    /// outside the board, a finished game, and an occupied square, in that
    /// order, and leaves the board untouched on every failure. On success the
    /// returned state is the one from before the move, which for a legal move
    /// is always `Indeterminate`.
    pub fn make_move(&mut self, pos: usize) -> (r: Result<GameState, Error>)
        ensures
            pos >= 9 ==> r == Err::<GameState, Error>(Error::InvalidPosition(pos)) && final(self)@
                == old(self)@,
            pos < 9 && state_of(old(self)@) != GameState::Indeterminate ==> r == Err::<
                GameState,
                Error,
            >(Error::GameOver) && final(self)@ == old(self)@,
            pos < 9 && state_of(old(self)@) == GameState::Indeterminate && old(self)@[pos as int]
                is Some ==> r == Err::<GameState, Error>(Error::Occupied(pos)) && final(self)@
                == old(self)@,
            pos < 9 && state_of(old(self)@) == GameState::Indeterminate && old(self)@[pos as int]
                is None ==> r == Ok::<GameState, Error>(GameState::Indeterminate) && final(self)@
                == old(self)@.update(pos as int, Some(next_of(old(self)@))),
    {
        let st = self.state();
        let ongoing = st == GameState::Indeterminate;
        if pos >= 9 {
            return Err(Error::InvalidPosition(pos));
        }
        if !ongoing {
            return Err(Error::GameOver);
        }
        if self.get_square(pos).is_some() {
            return Err(Error::Occupied(pos));
        }
        let p = self.next_player();
        self.set_square(pos, Some(p));
        Ok(st)
    }

    /// Sets square `pos` to `val` with no legality check: the search uses this
    /// to place and retract hypothetical moves. An index outside `0..9` is
    /// silently ignored.
    pub fn set_square(&mut self, pos: usize, val: Option<Player>)
        ensures
            pos < 9 ==> final(self)@ == old(self)@.update(pos as int, val),
            pos >= 9 ==> final(self)@ == old(self)@,
    {
        if pos < 9 {
            self.cells[pos] = val;
        }
    }

    /// Whether the two players' occupied-square sets are disjoint. Each square
    /// of this representation holds at most one mark, so every board value is
    /// valid; the query is kept because the search contract is stated over it.
    pub fn is_valid(&self) -> (r: bool)
        ensures
            r,
    {
        true
    }
}

} // verus!
