use vstd::prelude::*;

use crate::board::{Board, GameState, Player};
use crate::board::{
    balanced, board_full, has_line, lemma_board_view_len, lemma_turn_alternates, next_of, state_of,
    state_scan,
};
use crate::error::Error;

verus! {

/// The widest window bound: no finite chain of negations of scores can reach it.
pub const POS_INF: i32 = i32::MAX;

/// The lower window bound and scan sentinel, chosen so that its negation still
/// fits in the score type and so that no legitimate score collides with it.
pub const NEG_INF: i32 = i32::MIN + 1;

/// How many of the first `n` squares are free.
pub open spec fn free_upto(s: Seq<Option<Player>>, n: int) -> nat
    decreases n,
{
    if n <= 0 {
        0
    } else {
        free_upto(s, n - 1) + (if s[n - 1] is None {
            1nat
        } else {
            0nat
        })
    }
}

/// How many squares are free on the whole board.
pub open spec fn free_count(s: Seq<Option<Player>>) -> nat {
    free_upto(s, 9)
}

/// The smaller of two mathematical integers.
pub open spec fn imin(a: int, b: int) -> int {
    if a <= b {
        a
    } else {
        b
    }
}

/// The larger of two mathematical integers.
pub open spec fn imax(a: int, b: int) -> int {
    if a >= b {
        a
    } else {
        b
    }
}

proof fn lemma_free_upto_agree(s: Seq<Option<Player>>, t: Seq<Option<Player>>, n: int)
    requires
        forall|j: int| 0 <= j < n ==> s[j] == t[j],
    ensures
        free_upto(s, n) == free_upto(t, n),
    decreases n,
{
    if n > 0 {
        lemma_free_upto_agree(s, t, n - 1);
    }
}

proof fn lemma_free_upto_update(s: Seq<Option<Player>>, i: int, v: Option<Player>, n: int)
    requires
        0 <= i < n <= s.len(),
    ensures
        free_upto(s.update(i, v), n) as int == free_upto(s, n) as int - (if s[i] is None {
            1int
        } else {
            0int
        }) + (if v is None {
            1int
        } else {
            0int
        }),
    decreases n,
{
    let t = s.update(i, v);
    if i == n - 1 {
        lemma_free_upto_agree(s, t, n - 1);
    } else {
        lemma_free_upto_update(s, i, v, n - 1);
    }
}

/// Placing a mark on a free square lowers the number of free squares by one.
proof fn lemma_place_reduces_free(s: Seq<Option<Player>>, i: int, p: Player)
    requires
        s.len() == 9,
        0 <= i < 9,
        s[i] is None,
    ensures
        free_count(s.update(i, Some(p))) + 1 == free_count(s),
{
    lemma_free_upto_update(s, i, Some(p), 9);
}

/// The game-theoretic value of `s` for the player about to move there: `1`
/// when that player wins with perfect play, `-1` when the opponent does, and
/// `0` when perfect play from both sides draws. A board already won counts
/// `1` for the mover holding the line and `-1` otherwise, and a full board
/// with no line counts `0`.
pub open spec fn value_of(s: Seq<Option<Player>>) -> int
    decreases free_count(s), 10int,
{
    match state_of(s) {
        GameState::Winner(p) => if p == next_of(s) {
            1int
        } else {
            -1int
        },
        GameState::Draw => 0int,
        GameState::Indeterminate => best_from(s, 0),
    }
}

/// The best score the mover at `s` can reach with a move on squares `i..9`,
/// each move judged by the negated value of the board it leaves behind. With
/// no free square left in `i..9` this is the sentinel `NEG_INF`, which no
/// chain of negations of real scores can produce.
pub open spec fn best_from(s: Seq<Option<Player>>, i: int) -> int
    decreases free_count(s), 9 - i,
        when 0 <= i && s.len() == 9
        via best_from_decreases
{
    if i >= 9 {
        NEG_INF as int
    } else if s[i] is None {
        let w = -value_of(s.update(i, Some(next_of(s))));
        let rest = best_from(s, i + 1);
        if w >= rest {
            w
        } else {
            rest
        }
    } else {
        best_from(s, i + 1)
    }
}

#[via_fn]
proof fn best_from_decreases(s: Seq<Option<Player>>, i: int) {
    if 0 <= i < 9 && s.len() == 9 && s[i] is None {
        lemma_place_reduces_free(s, i, next_of(s));
    }
}

/// The score that the move on square `i` earns the mover at `s`.
pub open spec fn move_score(s: Seq<Option<Player>>, i: int) -> int {
    -value_of(s.update(i, Some(next_of(s))))
}

/// Square `i` is the move the search must pick at `s`: a free square whose
/// score no other free square beats, and the first free square to reach that
/// score in increasing index order.
pub open spec fn is_best_move(s: Seq<Option<Player>>, i: int) -> bool {
    &&& 0 <= i < 9
    &&& s[i] is None
    &&& forall|j: int| 0 <= j < 9 && s[j] is None ==> #[trigger] move_score(s, j) <= move_score(s, i)
    &&& forall|j: int| 0 <= j < i && s[j] is None ==> #[trigger] move_score(s, j) < move_score(s, i)
}

proof fn lemma_scan_indeterminate_not_full(s: Seq<Option<Player>>, k: int)
    requires
        state_scan(s, k) == GameState::Indeterminate,
    ensures
        !board_full(s),
    decreases 8 - k,
{
    if 0 <= k < 8 && !has_line(s, Player::O, k) && !has_line(s, Player::X, k) {
        lemma_scan_indeterminate_not_full(s, k + 1);
    }
}

/// An ongoing board always offers a free square.
pub proof fn lemma_indeterminate_has_empty(s: Seq<Option<Player>>)
    requires
        state_of(s) == GameState::Indeterminate,
    ensures
        exists|i: int| 0 <= i < 9 && s[i] is None,
{
    lemma_scan_indeterminate_not_full(s, 0);
}

proof fn lemma_best_from_bounds(s: Seq<Option<Player>>, k: int)
    requires
        s.len() == 9,
        0 <= k <= 9,
    ensures
        (exists|j: int| k <= j < 9 && s[j] is None) ==> -1 <= best_from(s, k) <= 1,
        !(exists|j: int| k <= j < 9 && s[j] is None) ==> best_from(s, k) == NEG_INF as int,
    decreases free_count(s), 9 - k,
{
    if k < 9 {
        lemma_best_from_bounds(s, k + 1);
        if s[k] is None {
            lemma_place_reduces_free(s, k, next_of(s));
            lemma_value_bounds(s.update(k, Some(next_of(s))));
        }
    }
}

/// Every score is a win, a loss or a draw: values stay within `-1..=1`.
pub proof fn lemma_value_bounds(s: Seq<Option<Player>>)
    requires
        s.len() == 9,
    ensures
        -1 <= value_of(s) <= 1,
    decreases free_count(s), 10int,
{
    if state_of(s) == GameState::Indeterminate {
        lemma_indeterminate_has_empty(s);
        lemma_best_from_bounds(s, 0);
    }
}

proof fn lemma_best_from_mono(s: Seq<Option<Player>>, i: int, j: int)
    requires
        s.len() == 9,
        0 <= i <= j <= 9,
    ensures
        best_from(s, j) <= best_from(s, i),
    decreases j - i,
{
    if i < j {
        lemma_best_from_mono(s, i + 1, j);
    }
}

proof fn lemma_best_from_ge_child(s: Seq<Option<Player>>, k: int, j: int)
    requires
        s.len() == 9,
        0 <= k <= j < 9,
        s[j] is None,
    ensures
        move_score(s, j) <= best_from(s, k),
    decreases j - k,
{
    if k < j {
        lemma_best_from_ge_child(s, k + 1, j);
    }
}

proof fn lemma_best_from_attained(s: Seq<Option<Player>>, k: int)
    requires
        s.len() == 9,
        0 <= k <= 9,
        exists|j: int| k <= j < 9 && s[j] is None,
    ensures
        exists|j: int| k <= j < 9 && s[j] is None && best_from(s, k) == move_score(s, j),
    decreases 9 - k,
{
    if s[k] is None {
        let w = move_score(s, k);
        let rest = best_from(s, k + 1);
        if w >= rest {
            assert(k <= k < 9 && s[k] is None && best_from(s, k) == move_score(s, k));
        } else {
            lemma_value_bounds(s.update(k, Some(next_of(s))));
            lemma_best_from_bounds(s, k + 1);
            assert(exists|j: int| k + 1 <= j < 9 && s[j] is None) by {
                if !(exists|j: int| k + 1 <= j < 9 && s[j] is None) {
                    assert(rest == NEG_INF as int);
                }
            }
            lemma_best_from_attained(s, k + 1);
            let j = choose|j: int|
                k + 1 <= j < 9 && s[j] is None && best_from(s, k + 1) == move_score(s, j);
            assert(k <= j < 9 && s[j] is None && best_from(s, k) == move_score(s, j));
        }
    } else {
        assert(exists|j: int| k + 1 <= j < 9 && s[j] is None) by {
            let j0 = choose|j: int| k <= j < 9 && s[j] is None;
            assert(k + 1 <= j0 < 9 && s[j0] is None);
        }
        lemma_best_from_attained(s, k + 1);
        let j = choose|j: int|
            k + 1 <= j < 9 && s[j] is None && best_from(s, k + 1) == move_score(s, j);
        assert(k <= j < 9 && s[j] is None && best_from(s, k) == move_score(s, j));
    }
}

/// Exhaustive negamax search with alpha-beta pruning over the window
/// `(alpha, beta)`. The score is from the perspective of the player about to
/// move. Pruning makes the result exact only inside the window: a score at or
/// below `alpha` is an upper bound on the true value, a score at or above
/// `beta` a lower bound, and a score strictly inside the window is the value
/// itself. The board is explored by placing and retracting marks in place and
/// is restored on every path.
fn negamax(board: &mut Board, alpha: i32, beta: i32) -> (score: i32)
    requires
        NEG_INF <= alpha,
        alpha < beta,
        beta <= POS_INF,
    ensures
        final(board)@ == old(board)@,
        -1 <= score <= 1,
        value_of(old(board)@) <= alpha as int ==> score as int <= alpha as int,
        (alpha as int) < value_of(old(board)@) ==> score as int <= value_of(old(board)@),
        beta as int <= value_of(old(board)@) ==> beta as int <= score as int,
        value_of(old(board)@) < beta as int ==> value_of(old(board)@) <= score as int,
    decreases free_count(old(board)@),
{
    broadcast use lemma_board_view_len;

    let ghost s0 = board@;
    let ghost v = value_of(s0);
    let np = board.next_player();
    let st = board.state();
    match st {
        GameState::Winner(p) => if p == np {
            1
        } else {
            -1
        },
        GameState::Draw => 0,
        GameState::Indeterminate => {
            let mut best: i32 = NEG_INF;
            let mut a: i32 = alpha;
            let mut pos: usize = 0;
            while pos < 9
                invariant
                    pos <= 9,
                    s0 == old(board)@,
                    board@ == s0,
                    s0.len() == 9,
                    v == value_of(s0),
                    np == next_of(s0),
                    state_of(s0) == GameState::Indeterminate,
                    NEG_INF <= alpha && alpha < beta && beta <= POS_INF,
                    alpha <= a && a < beta,
                    best <= a,
                    best == NEG_INF || (-1 <= best && best <= 1),
                    best <= alpha ==> a == alpha,
                    best > alpha ==> a == best,
                    best as int <= imax(alpha as int, v),
                    imin(v, beta as int) <= imax(
                        best as int,
                        imin(best_from(s0, pos as int), beta as int),
                    ),
                    best == NEG_INF ==> forall|j: int| 0 <= j < pos ==> s0[j] is Some,
                decreases 9 - pos,
            {
                if board.get_square(pos).is_none() {
                    board.set_square(pos, Some(np));
                    let ghost child = s0.update(pos as int, Some(np));
                    proof {
                        lemma_place_reduces_free(s0, pos as int, np);
                        lemma_value_bounds(child);
                    }
                    let r = negamax(board, -beta, -a);
                    let sc = -r;
                    board.set_square(pos, None);
                    let ghost c = value_of(child);
                    let ghost w = -c;
                    let ghost old_best = best as int;
                    let ghost old_a = a as int;
                    proof {
                        assert(child.update(pos as int, None::<Player>) =~= s0);
                        lemma_best_from_mono(s0, 0, pos as int);
                        assert(best_from(s0, pos as int) == imax(w, best_from(s0, pos as int + 1)));
                        assert(imin(w, beta as int) <= sc as int);
                        assert(sc as int <= imax(w, old_a));
                    }
                    if sc > best {
                        best = sc;
                    }
                    if best > a {
                        a = best;
                    }
                    proof {
                        assert(best as int == imax(old_best, sc as int));
                        assert(best as int <= imax(alpha as int, v));
                        assert(imin(v, beta as int) <= imax(
                            best as int,
                            imin(best_from(s0, pos as int + 1), beta as int),
                        ));
                    }
                    if a >= beta {
                        proof {
                            assert(a == best);
                            assert(beta as int <= best as int);
                        }
                        return best;
                    }
                }
                pos = pos + 1;
            }
            proof {
                lemma_indeterminate_has_empty(s0);
                assert(best != NEG_INF);
                assert(best_from(s0, 9) == NEG_INF as int);
                assert(imin(v, beta as int) <= best as int);
            }
            best
        },
    }
}

/// Finds the best move in a given position: the first free square, in
/// increasing index order, whose score no other free square beats. Rejects an
/// invalid board, and a finished game; on every ongoing board it returns a
/// move. The board passed in is never altered: the search works on a copy.
pub fn best_move(board: &Board) -> (r: Result<usize, Error>)
    ensures
        r is Ok <==> state_of(board@) == GameState::Indeterminate,
        r matches Ok(idx) ==> is_best_move(board@, idx as int),
        r matches Ok(idx) ==> move_score(board@, idx as int) == value_of(board@),
        r matches Err(e) ==> e == Error::GameOver,
{
    broadcast use lemma_board_view_len;

    if !board.is_valid() {
        return Err(Error::InvalidBoard);
    }
    let st = board.state();
    if !(st == GameState::Indeterminate) {
        return Err(Error::GameOver);
    }
    let mut work = board.clone();
    let ghost s0 = board@;
    let mut best_score: i32 = NEG_INF;
    let mut best: Option<usize> = None;
    let mut pos: usize = 0;
    while pos < 9
        invariant
            pos <= 9,
            work@ == s0,
            s0 == board@,
            s0.len() == 9,
            state_of(s0) == GameState::Indeterminate,
            (match best {
                None => best_score == NEG_INF && forall|j: int| 0 <= j < pos ==> s0[j] is Some,
                Some(b) => {
                    &&& b < pos
                    &&& b < 9
                    &&& s0[b as int] is None
                    &&& best_score as int == move_score(s0, b as int)
                    &&& -1 <= best_score <= 1
                    &&& forall|j: int|
                        0 <= j < pos && s0[j] is None ==> #[trigger] move_score(s0, j)
                            <= best_score as int
                    &&& forall|j: int|
                        0 <= j < b && s0[j] is None ==> #[trigger] move_score(s0, j) < (
                        best_score as int)
                },
            }),
        decreases 9 - pos,
    {
        if work.get_square(pos).is_none() {
            let np = work.next_player();
            work.set_square(pos, Some(np));
            let ghost child = s0.update(pos as int, Some(np));
            proof {
                lemma_value_bounds(child);
            }
            let r = negamax(&mut work, NEG_INF, POS_INF);
            let sc = -r;
            work.set_square(pos, None);
            proof {
                assert(child.update(pos as int, None::<Player>) =~= s0);
                assert(r as int == value_of(child));
                assert(sc as int == move_score(s0, pos as int));
            }
            if sc > best_score {
                best_score = sc;
                best = Some(pos);
            }
        }
        pos = pos + 1;
    }
    proof {
        lemma_indeterminate_has_empty(s0);
    }
    match best {
        Some(i) => {
            proof {
                lemma_best_move_value(s0, i as int);
            }
            Ok(i)
        },
        None => Err(Error::GameOver),
    }
}

/// The chosen move's score is exactly the value of the position.
pub proof fn lemma_best_move_value(s: Seq<Option<Player>>, i: int)
    requires
        s.len() == 9,
        state_of(s) == GameState::Indeterminate,
        is_best_move(s, i),
    ensures
        move_score(s, i) == value_of(s),
{
    lemma_indeterminate_has_empty(s);
    lemma_best_from_attained(s, 0);
    lemma_best_from_ge_child(s, 0, i);
}

/// The choice is deterministic: at most one square satisfies the first-best
/// characterisation, so two searches of an unchanged position agree.
pub proof fn lemma_best_move_unique(s: Seq<Option<Player>>, i: int, j: int)
    requires
        is_best_move(s, i),
        is_best_move(s, j),
    ensures
        i == j,
{
    if i < j {
        assert(move_score(s, i) < move_score(s, j));
        assert(move_score(s, j) <= move_score(s, i));
    }
    if j < i {
        assert(move_score(s, j) < move_score(s, i));
        assert(move_score(s, i) <= move_score(s, j));
    }
}

/// When a balanced ongoing board offers a square that wins the game at once,
/// the chosen move scores a win: the search never passes over a winning
/// square for anything less.
pub proof fn lemma_immediate_win_chosen(s: Seq<Option<Player>>, w: int, i: int)
    requires
        s.len() == 9,
        balanced(s),
        state_of(s) == GameState::Indeterminate,
        0 <= w < 9,
        s[w] is None,
        state_of(s.update(w, Some(next_of(s)))) == GameState::Winner(next_of(s)),
        is_best_move(s, i),
    ensures
        move_score(s, i) == 1,
{
    lemma_turn_alternates(s, w);
    assert(move_score(s, w) == 1);
    lemma_value_bounds(s.update(i, Some(next_of(s))));
}

/// When every continuation loses, the search still answers rather than fail:
/// the chosen square is free and carries the losing score, the value of the
/// position itself.
pub proof fn lemma_all_losing_chosen(s: Seq<Option<Player>>, i: int)
    requires
        s.len() == 9,
        state_of(s) == GameState::Indeterminate,
        forall|j: int| 0 <= j < 9 && s[j] is None ==> #[trigger] move_score(s, j) == -1,
        is_best_move(s, i),
    ensures
        s[i] is None,
        move_score(s, i) == -1,
        value_of(s) == -1,
{
    lemma_best_move_value(s, i);
}

} // verus!

