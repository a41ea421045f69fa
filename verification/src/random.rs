//! Boards seeded at random.

use crate::board::Board;
use crate::game::Game;
use crate::point::Point;
use rand::rngs::StdRng;
use rand::{Rng, SeedableRng};
use vstd::prelude::*;

verus! {

/// `rand::rngs::StdRng`, the generator that the cells are drawn from. Nothing
/// is known of its state.
#[verifier::external_type_specification]
#[verifier::external_body]
pub struct StdRngSpecification(StdRng);

/// Calls `StdRng::from_entropy`, which seeds a generator from the operating
/// system and panics where that has no entropy to give. Nothing is claimed of
/// the generator.
#[verifier::external_body]
fn fresh() -> StdRng {
    StdRng::from_entropy()
}

/// Calls `Rng::gen_ratio`, a Bernoulli trial that succeeds with the chance
/// `numerator / denominator`. It panics where the denominator is zero or less
/// than the numerator. Its documentation promises a failure where the
/// numerator is zero and a success where the two are equal; of any other trial
/// the contract claims nothing.
#[verifier::external_body]
fn trial(rng: &mut StdRng, numerator: u32, denominator: u32) -> (success: bool)
    requires
        0 < denominator,
        numerator <= denominator,
    ensures
        numerator == 0 ==> !success,
        numerator == denominator ==> success,
{
    rng.gen_ratio(numerator, denominator)
}

/// Whether `p` lies in the rectangle of the given extent that is centered on
/// the origin: from `-width / 2` up to, and without, `width / 2`, and likewise
/// for the rows.
pub open spec fn within(p: Point<i32>, width: u32, height: u32) -> bool {
    &&& -(width / 2) <= p.x < width / 2
    &&& -(height / 2) <= p.y < height / 2
}

impl Game {
    /// Creates a game, at generation 0, in which each cell of the rectangle of
    /// the given extent has been made live by a trial of its own, drawn from
    /// `rng`, that succeeds with the chance `numerator / denominator`.
    pub fn sprinkle(
        rng: &mut StdRng,
        width: u32,
        height: u32,
        numerator: u32,
        denominator: u32,
    ) -> (game: Game)
        requires
            0 < denominator,
            numerator <= denominator,
        ensures
            game@.generation == 0,
            forall|p: Point<i32>| game@.board.contains(p) ==> within(p, width, height),
            numerator == 0 ==> game@.board == Set::<Point<i32>>::empty(),
            numerator == denominator ==> forall|p: Point<i32>|
                within(p, width, height) ==> game@.board.contains(p),
    {
        let w: i32 = (width / 2) as i32;
        let h: i32 = (height / 2) as i32;
        let mut board = Board::new();
        let mut x: i32 = -w;
        while x < w
            invariant
                w == width / 2,
                h == height / 2,
                0 < denominator,
                numerator <= denominator,
                -w <= x <= w,
                forall|p: Point<i32>|
                    board@.contains(p) ==> within(p, width, height) && p.x < x,
                numerator == 0 ==> board@ == Set::<Point<i32>>::empty(),
                numerator == denominator ==> forall|p: Point<i32>|
                    within(p, width, height) && p.x < x ==> board@.contains(p),
            decreases w - x,
        {
            let mut y: i32 = -h;
            while y < h
                invariant
                    w == width / 2,
                    h == height / 2,
                    0 < denominator,
                    numerator <= denominator,
                    -w <= x < w,
                    -h <= y <= h,
                    forall|p: Point<i32>|
                        board@.contains(p) ==> within(p, width, height) && (p.x < x || (p.x == x
                            && p.y < y)),
                    numerator == 0 ==> board@ == Set::<Point<i32>>::empty(),
                    numerator == denominator ==> forall|p: Point<i32>|
                        within(p, width, height) && (p.x < x || (p.x == x && p.y < y))
                            ==> board@.contains(p),
                decreases h - y,
            {
                let success = trial(rng, numerator, denominator);
                board.seed(Point { x, y }, success);
                y = y + 1;
            }
            x = x + 1;
        }
        Game::new(board)
    }

    /// Creates a random game within the given dimensions from the generator
    /// `rng`: each cell of the rectangle is live with the chance 1 in 20.
    pub fn random_with(rng: &mut StdRng, width: u32, height: u32) -> (game: Game)
        ensures
            game@.generation == 0,
            forall|p: Point<i32>| game@.board.contains(p) ==> within(p, width, height),
    {
        Game::sprinkle(rng, width, height, 1, 20)
    }

    /// Creates a random game within the given dimensions.
    pub fn random(width: u32, height: u32) -> (game: Game)
        ensures
            game@.generation == 0,
            forall|p: Point<i32>| game@.board.contains(p) ==> within(p, width, height),
    {
        let mut rng = fresh();
        Game::random_with(&mut rng, width, height)
    }
}

} // verus!
