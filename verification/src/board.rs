//! The set of live cells.

use crate::point::Point;
use std::collections::HashSet;
use vstd::prelude::*;
use vstd::std_specs::hash::*;
use vstd::std_specs::iter::IteratorSpec;

verus! {

broadcast use group_hash_axioms;

/// The number under which a cell is stored: its column and its row, each
/// shifted to start at zero, side by side.
pub(crate) closed spec fn key_of(p: Point<i32>) -> u64 {
    ((p.x + 0x8000_0000) * 0x1_0000_0000 + (p.y + 0x8000_0000)) as u64
}

/// The cell stored under `k`.
pub(crate) closed spec fn cell_of(k: u64) -> Point<i32> {
    Point {
        x: (k / 0x1_0000_0000 - 0x8000_0000) as i32,
        y: (k % 0x1_0000_0000 - 0x8000_0000) as i32,
    }
}

/// Cells and keys correspond one to one.
pub(crate) proof fn lemma_keys(p: Point<i32>, k: u64)
    ensures
        cell_of(key_of(p)) == p,
        key_of(cell_of(k)) == k,
{
}

pub(crate) fn key(p: Point<i32>) -> (k: u64)
    ensures
        k == key_of(p),
{
    let column: u64 = (p.x as i64 + 0x8000_0000) as u64;
    let row: u64 = (p.y as i64 + 0x8000_0000) as u64;
    column * 0x1_0000_0000 + row
}

pub(crate) fn cell(k: u64) -> (p: Point<i32>)
    ensures
        p == cell_of(k),
{
    let column: u64 = k / 0x1_0000_0000;
    let row: u64 = k % 0x1_0000_0000;
    Point { x: (column as i64 - 0x8000_0000) as i32, y: (row as i64 - 0x8000_0000) as i32 }
}

/// A set of unique cells of the lattice. A cell that is absent is dead.
#[derive(Debug)]
pub struct Board {
    keys: HashSet<u64>,
}

impl View for Board {
    type V = Set<Point<i32>>;

    closed spec fn view(&self) -> Set<Point<i32>> {
        Set::new(|p: Point<i32>| self.keys@.contains(key_of(p)))
    }
}

impl Clone for Board {
    fn clone(&self) -> (copy: Board)
        ensures
            copy@ == self@,
    {
        let cells = self.cells();
        let mut copy = Board::new();
        let mut i: usize = 0;
        while i < cells.len()
            invariant
                i <= cells.len(),
                copy@ == cells@.take(i as int).to_set(),
            decreases cells.len() - i,
        {
            copy.insert(cells[i]);
            proof {
                assert(cells@.take(i + 1) == cells@.take(i as int).push(cells@[i as int]));
                cells@.take(i as int).lemma_push_to_set_commute(cells@[i as int]);
            }
            i = i + 1;
        }
        assert(cells@.take(cells@.len() as int) == cells@);
        copy
    }
}

impl Board {
    /// The board without a live cell.
    pub fn new() -> (board: Board)
        ensures
            board@ == Set::<Point<i32>>::empty(),
    {
        let board = Board { keys: HashSet::new() };
        assert(board@ =~= Set::<Point<i32>>::empty());
        board
    }

    /// Makes the cell `p` live. Returns whether it was dead before.
    pub fn insert(&mut self, p: Point<i32>) -> (fresh: bool)
        ensures
            final(self)@ == old(self)@.insert(p),
            fresh == !old(self)@.contains(p),
    {
        let fresh = self.keys.insert(key(p));
        proof {
            assert forall|q: Point<i32>| self@.contains(q) <==> old(self)@.insert(p).contains(
                q,
            ) by {
                lemma_keys(q, 0);
                lemma_keys(p, 0);
            }
            assert(self@ =~= old(self)@.insert(p));
        }
        fresh
    }

    /// Settles the cell `p` by the outcome of a trial: a success makes it
    /// live, a failure leaves the board as it is.
    pub fn seed(&mut self, p: Point<i32>, success: bool)
        ensures
            final(self)@ == if success {
                old(self)@.insert(p)
            } else {
                old(self)@
            },
    {
        if success {
            self.insert(p);
        }
    }

    /// Whether the cell `p` is live.
    pub fn contains(&self, p: Point<i32>) -> (live: bool)
        ensures
            live == self@.contains(p),
    {
        let k = key(p);
        self.keys.contains(&k)
    }

    /// The live cells, each once, in no particular order.
    pub fn cells(&self) -> (cells: Vec<Point<i32>>)
        ensures
            cells@.no_duplicates(),
            cells@.to_set() == self@,
    {
        let mut cells: Vec<Point<i32>> = Vec::new();
        let ghost order = spec_hash_keys_iter(&self.keys).remaining();
        for k in it: self.keys.iter()
            invariant
                it.seq() == order,
                cells@.len() == it.index(),
                forall|i: int| 0 <= i < cells@.len() ==> cells@[i] == cell_of(*order[i]),
        {
            cells.push(cell(*k));
        }
        proof {
            let keys = order.unref();
            assert(keys.to_set() == self.keys@);
            assert forall|i: int, j: int| 0 <= i < j < cells@.len() implies cells@[i]
                != cells@[j] by {
                lemma_keys(cells@[i], *order[i]);
                lemma_keys(cells@[i], *order[j]);
            }
            assert forall|p: Point<i32>| cells@.to_set().contains(p) <==> self@.contains(p) by {
                lemma_keys(p, 0);
                if cells@.contains(p) {
                    let i = choose|i: int| 0 <= i < cells@.len() && cells@[i] == p;
                    lemma_keys(p, *order[i]);
                    assert(keys[i] == *order[i]);
                    assert(keys.to_set().contains(keys[i]));
                }
                if self@.contains(p) {
                    assert(keys.to_set().contains(key_of(p)));
                    let i = choose|i: int| 0 <= i < keys.len() && keys[i] == key_of(p);
                    assert(cells@[i] == p);
                }
            }
            assert(cells@.to_set() =~= self@);
        }
        cells
    }
}

} // verus!
