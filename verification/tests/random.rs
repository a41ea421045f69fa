use rand::rngs::StdRng;
use rand::SeedableRng;
use rslife::{Game, Point};

fn sorted(game: &Game) -> Vec<(i32, i32)> {
    let mut pairs: Vec<(i32, i32)> = game.active().iter().map(|c| (c.x, c.y)).collect();
    pairs.sort();
    pairs
}

fn inside(cell: &Point<i32>, width: u32, height: u32) -> bool {
    let w = (width / 2) as i64;
    let h = (height / 2) as i64;
    -w <= cell.x as i64 && (cell.x as i64) < w && -h <= cell.y as i64 && (cell.y as i64) < h
}

#[test]
fn random_cells_lie_within_the_rectangle() {
    for &(width, height) in &[(0u32, 0u32), (1, 1), (2, 2), (7, 3), (40, 60), (101, 99)] {
        let game = Game::random(width, height);
        assert_eq!(game.generation(), 0);
        for cell in game.active() {
            assert!(inside(&cell, width, height));
        }
    }
}

#[test]
fn a_rectangle_without_a_cell_gives_an_empty_board() {
    assert!(Game::random(1, 1).active().is_empty());
    assert!(Game::random(0, 100).active().is_empty());
    assert!(Game::random(100, 1).active().is_empty());
}

#[test]
fn the_same_seed_gives_the_same_board() {
    let mut first = StdRng::seed_from_u64(42);
    let mut second = StdRng::seed_from_u64(42);
    let a = Game::random_with(&mut first, 80, 60);
    let b = Game::random_with(&mut second, 80, 60);
    assert_eq!(sorted(&a), sorted(&b));
    assert!(!a.active().is_empty());
}

#[test]
fn seeded_cells_lie_within_the_rectangle() {
    let mut rng = StdRng::seed_from_u64(7);
    let game = Game::random_with(&mut rng, 33, 18);
    assert_eq!(game.generation(), 0);
    for cell in game.active() {
        assert!(inside(&cell, 33, 18));
    }
}

#[test]
fn about_one_cell_in_twenty_is_live() {
    let mut rng = StdRng::seed_from_u64(2024);
    let game = Game::random_with(&mut rng, 600, 500);
    let live = game.active().len();
    // 300000 trials: the mean is 15000 and the standard deviation about 119.
    assert!(13500 < live && live < 16500);
}

#[test]
fn a_chance_of_nothing_leaves_the_board_empty() {
    let mut rng = StdRng::seed_from_u64(1);
    let game = Game::sprinkle(&mut rng, 30, 30, 0, 20);
    assert!(game.active().is_empty());
}

#[test]
fn a_certain_chance_fills_the_rectangle() {
    let mut rng = StdRng::seed_from_u64(1);
    let game = Game::sprinkle(&mut rng, 5, 4, 20, 20);
    assert_eq!(
        sorted(&game),
        vec![(-2, -2), (-2, -1), (-2, 0), (-2, 1), (-1, -2), (-1, -1), (-1, 0), (-1, 1), (0, -2), (0, -1), (0, 0), (0, 1), (1, -2), (1, -1), (1, 0), (1, 1)]
    );
}

#[test]
fn an_even_chance_makes_about_half_the_cells_live() {
    let mut rng = StdRng::seed_from_u64(99);
    let game = Game::sprinkle(&mut rng, 200, 200, 1, 2);
    let live = game.active().len();
    assert!(18000 < live && live < 22000);
}
