//! The rule of the game, over sets of cells.

use crate::point::Point;
use vstd::prelude::*;
use vstd::set_lib::lemma_len_subset;

verus! {

/// The closed 3×3 block of cells centered at `p`.
pub open spec fn block(p: Point<i32>) -> Set<Point<i32>> {
    Set::new(|q: Point<i32>| p.near(q))
}

/// How many of the eight cells around `p` are live.
pub open spec fn live_neighbors(board: Set<Point<i32>>, p: Point<i32>) -> nat {
    board.intersect(block(p).remove(p)).len()
}

/// How many cells of the block centered at `p` are live, `p` itself counted.
pub open spec fn tally(board: Set<Point<i32>>, p: Point<i32>) -> nat {
    board.intersect(block(p)).len()
}

/// Whether `p` is live in the generation after `board`: a dead cell with
/// exactly three live neighbors is born, a live cell with two or three live
/// neighbors survives, and every other cell is dead.
pub open spec fn lives_on(board: Set<Point<i32>>, p: Point<i32>) -> bool {
    if board.contains(p) {
        live_neighbors(board, p) == 2 || live_neighbors(board, p) == 3
    } else {
        live_neighbors(board, p) == 3
    }
}

/// The generation after `board`.
pub open spec fn next_board(board: Set<Point<i32>>) -> Set<Point<i32>> {
    Set::new(|p: Point<i32>| lives_on(board, p))
}

/// What a game is to its contracts: the generation count and the set of live
/// cells.
pub struct State {
    /// How many steps have been taken.
    pub generation: nat,
    /// The live cells.
    pub board: Set<Point<i32>>,
}

impl State {
    /// The state one step later.
    pub open spec fn next(self) -> State {
        State { generation: self.generation + 1, board: next_board(self.board) }
    }

    /// The state `n` steps later.
    pub open spec fn after(self, n: nat) -> State
        decreases n,
    {
        if n == 0 {
            self
        } else {
            self.after((n - 1) as nat).next()
        }
    }
}

/// The coordinate nearest to `v`.
spec fn clamp(v: int) -> i32 {
    if v < i32::MIN {
        i32::MIN
    } else if v > i32::MAX {
        i32::MAX
    } else {
        v as i32
    }
}

/// The cell nearest to the given offset from `p`.
spec fn toward(p: Point<i32>, dx: int, dy: int) -> Point<i32> {
    Point { x: clamp(p.x + dx), y: clamp(p.y + dy) }
}

/// A block holds at most nine cells.
pub proof fn lemma_block(p: Point<i32>)
    ensures
        block(p).finite(),
        block(p).len() <= 9,
{
    let s0 = Set::<Point<i32>>::empty();
    let s1 = s0.insert(toward(p, -1, -1));
    let s2 = s1.insert(toward(p, -1, 0));
    let s3 = s2.insert(toward(p, -1, 1));
    let s4 = s3.insert(toward(p, 0, -1));
    let s5 = s4.insert(toward(p, 0, 0));
    let s6 = s5.insert(toward(p, 0, 1));
    let s7 = s6.insert(toward(p, 1, -1));
    let s8 = s7.insert(toward(p, 1, 0));
    let s9 = s8.insert(toward(p, 1, 1));
    assert(s1.finite() && s1.len() <= 1);
    assert(s2.finite() && s2.len() <= 2);
    assert(s3.finite() && s3.len() <= 3);
    assert(s4.finite() && s4.len() <= 4);
    assert(s5.finite() && s5.len() <= 5);
    assert(s6.finite() && s6.len() <= 6);
    assert(s7.finite() && s7.len() <= 7);
    assert(s8.finite() && s8.len() <= 8);
    assert(s9.finite() && s9.len() <= 9);
    assert forall|q: Point<i32>| block(p).contains(q) implies s9.contains(q) by {
        assert(q == toward(p, q.x - p.x, q.y - p.y));
    }
    lemma_len_subset(block(p), s9);
}

/// No more than nine cells count toward a tally, whatever the board.
pub proof fn lemma_tally_bound(board: Set<Point<i32>>, p: Point<i32>)
    ensures
        board.intersect(block(p)).finite(),
        tally(board, p) <= 9,
{
    lemma_block(p);
    lemma_len_subset(board.intersect(block(p)), block(p));
}

/// The tally at a cell is the number of its live neighbors, and one more where
/// the cell itself is live.
pub proof fn lemma_tally(board: Set<Point<i32>>, p: Point<i32>)
    ensures
        tally(board, p) == live_neighbors(board, p) + if board.contains(p) {
            1nat
        } else {
            0nat
        },
{
    lemma_tally_bound(board, p);
    let around = board.intersect(block(p).remove(p));
    lemma_len_subset(around, board.intersect(block(p)));
    if board.contains(p) {
        assert(board.intersect(block(p)) =~= around.insert(p));
    } else {
        assert(board.intersect(block(p)) =~= around);
    }
}

/// A cell is live in the next generation where its tally is three, or where
/// its tally is four and the cell is live.
pub proof fn lemma_rule(board: Set<Point<i32>>, p: Point<i32>)
    ensures
        lives_on(board, p) <==> tally(board, p) == 3 || (tally(board, p) == 4 && board.contains(
            p,
        )),
{
    lemma_tally(board, p);
}

/// A cell that becomes live adds one to the tally of each cell of its block,
/// and to no other.
pub proof fn lemma_tally_insert(board: Set<Point<i32>>, c: Point<i32>, p: Point<i32>)
    requires
        !board.contains(c),
    ensures
        tally(board.insert(c), p) == tally(board, p) + if c.near(p) {
            1nat
        } else {
            0nat
        },
{
    lemma_tally_bound(board, p);
    if c.near(p) {
        assert(board.insert(c).intersect(block(p)) =~= board.intersect(block(p)).insert(c));
    } else {
        assert(board.insert(c).intersect(block(p)) =~= board.intersect(block(p)));
    }
}

/// Every step adds one to the generation.
pub proof fn lemma_generation(state: State, n: nat)
    ensures
        state.after(n).generation == state.generation + n,
    decreases n,
{
    if n > 0 {
        lemma_generation(state, (n - 1) as nat);
    }
}

/// An empty board stays empty, however many steps are taken.
pub proof fn lemma_empty(state: State, n: nat)
    requires
        state.board == Set::<Point<i32>>::empty(),
    ensures
        state.after(n).board == Set::<Point<i32>>::empty(),
    decreases n,
{
    if n > 0 {
        lemma_empty(state, (n - 1) as nat);
        let before = state.after((n - 1) as nat).board;
        assert forall|p: Point<i32>| !lives_on(before, p) by {
            assert(before.intersect(block(p).remove(p)) =~= Set::<Point<i32>>::empty());
        }
        assert(next_board(before) =~= Set::<Point<i32>>::empty());
    }
}

} // verus!
