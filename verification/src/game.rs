//! The game: a board and the count of the generations it has lived through.

use crate::board::{cell, cell_of, key, key_of, lemma_keys, Board};
use crate::life::{
    block, lemma_rule, lemma_tally_bound, lemma_tally_insert, next_board, tally, State,
};
use crate::point::Point;
use std::collections::HashMap;
use vstd::prelude::*;
use vstd::std_specs::hash::*;
use vstd::std_specs::iter::IteratorSpec;

verus! {

broadcast use group_hash_axioms;

/// The count that `counts` holds for the cell `p`: none is zero.
spec fn count_at(counts: Map<u64, u8>, p: Point<i32>) -> nat {
    if counts.contains_key(key_of(p)) {
        counts[key_of(p)] as nat
    } else {
        0
    }
}

/// Whether a cell with the given tally is live in the next generation.
spec fn chosen(count: u8, live: bool) -> bool {
    count == 3 || (count == 4 && live)
}

/// Whether one of the first `n` entries of `order` is the cell `p`, with a
/// count by which it is live in the next generation.
spec fn picked(order: Seq<(&u64, &u8)>, n: int, board: Set<Point<i32>>, p: Point<i32>) -> bool {
    exists|t: int|
        0 <= t < n && *(#[trigger] order[t]).0 == key_of(p) && chosen(
            *order[t].1,
            board.contains(p),
        )
}

/// Adds one to the count of each cell of `block`.
fn vote(
    counts: &mut HashMap<u64, u8>,
    block: &Vec<Point<i32>>,
    Ghost(done): Ghost<Set<Point<i32>>>,
)
    requires
        block@.no_duplicates(),
        forall|q: Point<i32>|
            count_at(old(counts)@, q) == tally(done, q) && tally(done, q) + if block@.contains(q) {
                1nat
            } else {
                0nat
            } <= 9,
    ensures
        forall|q: Point<i32>|
            #[trigger] count_at(final(counts)@, q) == tally(done, q) + if block@.contains(q) {
                1nat
            } else {
                0nat
            },
{
    let mut j: usize = 0;
    while j < block.len()
        invariant
            j <= block.len(),
            block@.no_duplicates(),
            forall|q: Point<i32>|
                tally(done, q) + if block@.contains(q) {
                    1nat
                } else {
                    0nat
                } <= 9,
            forall|q: Point<i32>|
                #[trigger] count_at(counts@, q) == tally(done, q) + if block@.take(
                    j as int,
                ).contains(q) {
                    1nat
                } else {
                    0nat
                },
        decreases block.len() - j,
    {
        let c = block[j];
        let k = key(c);
        let ghost before = counts@;
        proof {
            assert(block@.contains(c));
            assert(!block@.take(j as int).contains(c));
            assert(count_at(before, c) == tally(done, c));
        }
        let count: u8 = match counts.get(&k) {
            Some(count) => *count,
            None => 0,
        };
        counts.insert(k, count + 1);
        proof {
            let head = block@.take(j as int);
            let grown = block@.take(j + 1);
            assert(grown == head.push(c));
            assert forall|q: Point<i32>|
                #[trigger] count_at(counts@, q) == tally(done, q) + if grown.contains(q) {
                    1nat
                } else {
                    0nat
                } by {
                lemma_keys(q, 0);
                lemma_keys(c, 0);
                assert(count_at(before, q) == tally(done, q) + if head.contains(q) {
                    1nat
                } else {
                    0nat
                });
                if q == c {
                    assert(grown[j as int] == c);
                } else {
                    assert(key_of(q) != k);
                    if head.contains(q) {
                        let t = choose|t: int| 0 <= t < head.len() && head[t] == q;
                        assert(grown[t] == q);
                    }
                    if grown.contains(q) {
                        let t = choose|t: int| 0 <= t < grown.len() && grown[t] == q;
                        assert(head[t] == q);
                    }
                }
            }
        }
        j = j + 1;
    }
    assert(block@.take(block@.len() as int) == block@);
}

/// This represents the game of life at a certain generation.
#[derive(Debug)]
pub struct Game {
    generation: u32,
    board: Board,
}

impl View for Game {
    type V = State;

    closed spec fn view(&self) -> State {
        State { generation: self.generation as nat, board: self.board@ }
    }
}

impl Clone for Game {
    fn clone(&self) -> (copy: Game)
        ensures
            copy@ == self@,
    {
        Game { generation: self.generation, board: self.board.clone() }
    }
}

impl Game {
    /// Creates a new Game from a board, at generation 0.
    pub fn new(board: Board) -> (game: Game)
        ensures
            game@ == (State { generation: 0, board: board@ }),
    {
        Game { generation: 0, board }
    }

    /// Creates a Game from an empty board, at generation 0.
    pub fn empty() -> (game: Game)
        ensures
            game@ == (State { generation: 0, board: Set::empty() }),
    {
        Game::new(Board::new())
    }

    /// Gets the current generation of the game. This increases by one for each
    /// simulated tick of the cells.
    pub fn generation(&self) -> (generation: u32)
        ensures
            generation == self@.generation,
    {
        self.generation
    }

    /// Gets the currently active points, each once, in no particular order.
    pub fn active(&self) -> (cells: Vec<Point<i32>>)
        ensures
            cells@.no_duplicates(),
            cells@.to_set() == self@.board,
    {
        self.board.cells()
    }

    /// Advances the game by one generation.
    ///
    /// Every live cell adds one to the tally of each cell of its block; the
    /// cells whose tally is three, or four where the cell is live, make the
    /// next board.
    pub fn advance(&mut self)
        requires
            old(self)@.generation < u32::MAX,
        ensures
            final(self)@ == old(self)@.next(),
    {
        let live = self.board.cells();
        let mut counts: HashMap<u64, u8> = HashMap::new();
        let mut i: usize = 0;
        proof {
            assert(live@.take(0).to_set() =~= Set::<Point<i32>>::empty());
            assert forall|q: Point<i32>| #[trigger]
                count_at(counts@, q) == tally(live@.take(0).to_set(), q) by {
                let none = Set::<Point<i32>>::empty();
                assert(none.intersect(block(q)) =~= none);
            }
        }
        while i < live.len()
            invariant
                i <= live.len(),
                live@.no_duplicates(),
                forall|q: Point<i32>| #[trigger]
                    count_at(counts@, q) == tally(live@.take(i as int).to_set(), q),
            decreases live.len() - i,
        {
            let c = live[i];
            let around = c.neighbors();
            let ghost done = live@.take(i as int).to_set();
            proof {
                let head = live@.take(i as int);
                assert(!done.contains(c)) by {
                    if head.contains(c) {
                        let t = choose|t: int| 0 <= t < head.len() && head[t] == c;
                        assert(live@[t] == live@[i as int]);
                    }
                }
                assert(live@.take(i + 1) == live@.take(i as int).push(c));
                live@.take(i as int).lemma_push_to_set_commute(c);
                assert forall|a: int, b: int| 0 <= a < b < around@.len() implies around@[a]
                    != around@[b] by {
                    assert(around@[a].before(around@[b]));
                }
                assert forall|q: Point<i32>|
                    count_at(counts@, q) == tally(done, q) && tally(done, q) + if around@.contains(
                        q,
                    ) {
                        1nat
                    } else {
                        0nat
                    } <= 9 by {
                    lemma_tally_insert(done, c, q);
                    lemma_tally_bound(done.insert(c), q);
                }
            }
            vote(&mut counts, &around, Ghost(done));
            proof {
                assert forall|q: Point<i32>| #[trigger]
                    count_at(counts@, q) == tally(live@.take(i + 1).to_set(), q) by {
                    lemma_tally_insert(done, c, q);
                }
            }
            i = i + 1;
        }
        assert(live@.take(live@.len() as int) == live@);
        let mut next = Board::new();
        let ghost order = spec_hash_map_iter(&counts).remaining();
        let ghost board = self.board@;
        for entry in it: counts.iter()
            invariant
                it.seq() == order,
                board == self.board@,
                forall|q: Point<i32>| next@.contains(q) <==> picked(order, it.index(), board, q),
        {
            let k = *entry.0;
            let count = *entry.1;
            let ghost n = it.index();
            let ghost earlier = next@;
            proof {
                lemma_keys(cell_of(k), k);
            }
            if count == 3 || (count == 4 && self.board.contains(cell(k))) {
                next.insert(cell(k));
            }
            proof {
                assert forall|q: Point<i32>| next@.contains(q) <==> picked(
                    order,
                    n + 1,
                    board,
                    q,
                ) by {
                    lemma_keys(q, k);
                    assert(earlier.contains(q) <==> picked(order, n, board, q));
                    if picked(order, n, board, q) {
                        let t = choose|t: int|
                            0 <= t < n && *(#[trigger] order[t]).0 == key_of(q) && chosen(
                                *order[t].1,
                                board.contains(q),
                            );
                        assert(0 <= t < n + 1);
                    }
                    if picked(order, n + 1, board, q) {
                        let t = choose|t: int|
                            0 <= t < n + 1 && *(#[trigger] order[t]).0 == key_of(q) && chosen(
                                *order[t].1,
                                board.contains(q),
                            );
                        if t < n {
                            assert(picked(order, n, board, q));
                        }
                    }
                    if q == cell_of(k) && chosen(count, board.contains(q)) {
                        assert(*order[n].0 == key_of(q));
                    }
                }
            }
        }
        proof {
            assert forall|q: Point<i32>| next@.contains(q) <==> next_board(board).contains(q) by {
                lemma_rule(board, q);
                lemma_keys(q, 0);
                assert(count_at(counts@, q) == tally(board, q));
                if picked(order, order.len() as int, board, q) {
                    let t = choose|t: int|
                        0 <= t < order.len() && *(#[trigger] order[t]).0 == key_of(q) && chosen(
                            *order[t].1,
                            board.contains(q),
                        );
                    assert(counts@.contains_key(*order[t].0));
                }
                if next_board(board).contains(q) {
                    assert(counts@.contains_key(key_of(q)));
                    let k = key_of(q);
                    assert(order.contains((&k, &counts@[k])));
                    let t = choose|t: int| 0 <= t < order.len() && order[t] == (&k, &counts@[k]);
                    assert(*order[t].0 == key_of(q));
                }
            }
            assert(next@ =~= next_board(board));
        }
        self.board = next;
        self.generation = self.generation + 1;
    }
}

} // verus!
