use rslife::rle::{decode, DecodeError};
use rslife::{Game, Point};

fn cells(text: &str) -> Vec<(i32, i32)> {
    let game = Game::rle(text).unwrap();
    assert_eq!(game.generation(), 0);
    let mut pairs: Vec<(i32, i32)> = game.active().iter().map(|c| (c.x, c.y)).collect();
    pairs.sort();
    pairs
}

fn failure(text: &str) -> DecodeError {
    match Game::rle(text) {
        Ok(_) => panic!("decoded"),
        Err(error) => error,
    }
}

#[test]
fn a_blinker_is_decoded_around_the_origin() {
    assert_eq!(cells("x = 3, y = 1\n3o!"), vec![(-1, 0), (0, 0), (1, 0)]);
}

#[test]
fn a_decoded_blinker_oscillates() {
    let mut game = Game::rle("x = 3, y = 1\n3o!").unwrap();
    game.advance();
    let mut once: Vec<(i32, i32)> = game.active().iter().map(|c| (c.x, c.y)).collect();
    once.sort();
    assert_eq!(once, vec![(0, -1), (0, 0), (0, 1)]);
    game.advance();
    let mut twice: Vec<(i32, i32)> = game.active().iter().map(|c| (c.x, c.y)).collect();
    twice.sort();
    assert_eq!(twice, vec![(-1, 0), (0, 0), (1, 0)]);
    assert_eq!(game.generation(), 2);
}

#[test]
fn a_column_is_decoded_relative_to_its_anchor() {
    let column = vec![(0, -1), (0, 0), (0, 1)];
    assert_eq!(cells("x = 3, y = 3\nbo$bo$bo$!"), column);
    assert_eq!(cells("x = 3, y = 3\nbo$bo$bo$"), column);
    assert_eq!(cells("x = 3, y = 3\nbo$bo$bo$!\n"), column);
    assert_eq!(cells("x = 3, y = 3\nbo$bo$bo$ ! this is ignored 12"), column);
}

#[test]
fn text_without_a_header_is_refused() {
    assert_eq!(failure("3o!"), DecodeError::Header);
    assert_eq!(failure(""), DecodeError::Header);
    assert_eq!(failure("#C only a comment\n"), DecodeError::Header);
    assert_eq!(failure("bo$bo$bo$!"), DecodeError::Header);
}

#[test]
fn a_malformed_header_is_refused() {
    assert_eq!(failure("x = 3\n3o!"), DecodeError::Header);
    assert_eq!(failure("x = 3, y\n3o!"), DecodeError::Header);
    assert_eq!(failure("x = three, y = 1\n3o!"), DecodeError::Header);
    assert_eq!(failure("x = 3; y = 1\n3o!"), DecodeError::Header);
    assert_eq!(failure("y = 1, x = 3\n3o!"), DecodeError::Header);
    assert_eq!(failure("x 3, y = 1\n3o!"), DecodeError::Header);
    assert_eq!(failure("x = , y = 1\n3o!"), DecodeError::Header);
    assert_eq!(failure("x = -, y = 1\n3o!"), DecodeError::Header);
    assert_eq!(failure("xx = 3, y = 1\n3o!"), DecodeError::Header);
}

#[test]
fn a_header_field_that_is_no_i32_is_refused() {
    assert_eq!(failure("x = 2147483648, y = 1\n3o!"), DecodeError::Header);
    assert_eq!(failure("x = 3, y = -2147483649\n3o!"), DecodeError::Header);
    assert_eq!(failure("x = 99999999999999999999999999, y = 1\n3o!"), DecodeError::Header);
}

#[test]
fn the_largest_header_fields_are_read() {
    assert_eq!(cells("x = 2147483647, y = -2147483648\no!"), vec![(-1073741823, 1073741824)]);
    assert_eq!(cells("x = -2147483648, y = 2147483647\no!"), vec![(1073741824, -1073741823)]);
    assert_eq!(cells("x = 0000000000000000000003, y = +1\n3o!"), vec![(-1, 0), (0, 0), (1, 0)]);
}

#[test]
fn the_anchor_is_half_the_extent_rounded_toward_zero() {
    assert_eq!(cells("x = 0, y = 0\no"), vec![(0, 0)]);
    assert_eq!(cells("x = 1, y = 1\no"), vec![(0, 0)]);
    assert_eq!(cells("x = 2, y = 2\no"), vec![(-1, -1)]);
    assert_eq!(cells("x = 5, y = 4\no"), vec![(-2, -2)]);
    assert_eq!(cells("x = 7, y = 9\no"), vec![(-3, -4)]);
    assert_eq!(cells("x = -5, y = -4\no"), vec![(2, 2)]);
    assert_eq!(cells("x = -1, y = -7\no"), vec![(0, 3)]);
}

#[test]
fn comment_lines_are_passed_over() {
    let text = "#N Blinker\n#C a comment, x = 9, y = 9\n#\n  # indented\nx = 3, y = 1\n3o!";
    assert_eq!(cells(text), vec![(-1, 0), (0, 0), (1, 0)]);
}

#[test]
fn further_header_fields_are_ignored() {
    assert_eq!(cells("x = 3, y = 1, rule = B3/S23\n3o!"), vec![(-1, 0), (0, 0), (1, 0)]);
    assert_eq!(cells("x=3,y=1,rule=B3/S23 3o$3o\nb2o!"), vec![(0, 0), (1, 0)]);
}

#[test]
fn a_body_on_the_header_line_is_a_further_field() {
    assert!(cells("x = 3, y = 1 3o!").is_empty());
    assert!(cells("x = 3, y = 1").is_empty());
}

#[test]
fn lines_end_in_any_of_three_ways() {
    assert_eq!(cells("x = 3, y = 1\r\n3o!"), vec![(-1, 0), (0, 0), (1, 0)]);
    assert_eq!(cells("x = 3, y = 1\r3o!"), vec![(-1, 0), (0, 0), (1, 0)]);
    assert_eq!(cells("#c\r\n#d\rx = 3, y = 1\r\n\r\n3o!"), vec![(-1, 0), (0, 0), (1, 0)]);
}

#[test]
fn white_space_may_stand_before_any_token() {
    let text = "\n\n  x\t=\n3 ,\ty = 3\n  b o $\n 1 b 1 o $ b\u{a0}o\u{3000}$ !";
    assert_eq!(cells(text), vec![(0, -1), (0, 0), (0, 1)]);
}

#[test]
fn a_glider_is_decoded() {
    let text = "#N Glider\nx = 3, y = 3, rule = B3/S23\nbob$2bo$3o!\n";
    assert_eq!(cells(text), vec![(-1, 1), (0, -1), (0, 1), (1, 0), (1, 1)]);
}

#[test]
fn a_run_moves_the_cursor_behind_itself() {
    assert_eq!(
        cells("x = 0, y = 0\n2o3b2o$4bo"),
        vec![(0, 0), (1, 0), (4, 1), (5, 0), (6, 0)]
    );
}

#[test]
fn a_count_before_the_end_of_a_row_counts_for_nothing() {
    assert_eq!(cells("x = 0, y = 0\no3$o"), vec![(0, 0), (0, 1)]);
}

#[test]
fn a_run_of_no_cells_marks_nothing() {
    assert_eq!(cells("x = 0, y = 0\n0o0bo"), vec![(0, 0)]);
}

#[test]
fn a_negative_count_moves_the_cursor_back() {
    assert_eq!(cells("x = 0, y = 0\n5b-3bo"), vec![(2, 0)]);
    assert_eq!(cells("x = 0, y = 0\n-3oo"), vec![(-3, 0)]);
    assert_eq!(cells("x = 0, y = 0\n+2o"), vec![(0, 0), (1, 0)]);
}

#[test]
fn unknown_tags_are_passed_over() {
    assert_eq!(cells("x = 0, y = 0\noXo?3zo\u{e9}o"), vec![(0, 0), (1, 0), (2, 0), (3, 0)]);
    assert_eq!(cells("x = 0, y = 0\n-o+o"), vec![(0, 0), (1, 0)]);
}

#[test]
fn an_end_mark_ends_the_pattern_whatever_follows() {
    assert_eq!(cells("x = 0, y = 0\no!o$o"), vec![(0, 0)]);
    assert_eq!(cells("x = 0, y = 0\no3!5"), vec![(0, 0)]);
    assert_eq!(cells("x = 0, y = 0\no!2147483647b2147483647b"), vec![(0, 0)]);
}

#[test]
fn a_count_without_a_tag_is_refused() {
    assert_eq!(failure("x = 0, y = 0\no3"), DecodeError::Count);
    assert_eq!(failure("x = 0, y = 0\n3"), DecodeError::Count);
    assert_eq!(failure("x = 0, y = 0\n2o$7  \n"), DecodeError::Count);
    assert_eq!(failure("x = 0, y = 0\n-1"), DecodeError::Count);
}

#[test]
fn digits_that_write_no_i32_are_tags_one_by_one() {
    // The first two digits are passed over; the other nine are a run count.
    assert_eq!(cells("x = 0, y = 0\n99000000002bo"), vec![(2, 0)]);
    // The first digit is passed over; the other nine move the cursor.
    assert_eq!(cells("x = 0, y = 0\n2147483648bo"), vec![(147483648, 0)]);
    assert_eq!(cells("x = 0, y = 0\n-2147483649bo"), vec![(147483649, 0)]);
}

#[test]
fn a_cursor_that_leaves_the_lattice_is_refused() {
    assert_eq!(failure("x = 0, y = 0\n2147483647bb"), DecodeError::Range);
    assert_eq!(failure("x = 0, y = 0\n-2147483648b-1b"), DecodeError::Range);
    assert_eq!(failure("x = 0, y = 0\n2147483647b2o"), DecodeError::Range);
    assert_eq!(failure("x = 0, y = 0\n2147483647bo"), DecodeError::Range);
    assert_eq!(failure("x = 0, y = 0\n2000000000b2000000000b"), DecodeError::Range);
}

#[test]
fn a_cursor_on_the_last_column_marks_nothing_more() {
    assert_eq!(cells("x = 0, y = 0\n2147483646bo"), vec![(2147483646, 0)]);
    assert_eq!(cells("x = -2147483648, y = 0\n1073741823b!"), Vec::<(i32, i32)>::new());
    assert_eq!(failure("x = -2147483648, y = 0\n1073741823bo"), DecodeError::Range);
}

#[test]
fn rows_follow_the_lowest_anchor() {
    assert_eq!(
        cells("x = 0, y = -2147483648\no$o$o"),
        vec![(0, 1073741824), (0, 1073741825), (0, 1073741826)]
    );
}

#[test]
fn decode_takes_the_characters_of_a_text() {
    let text: Vec<char> = "x = 3, y = 1\n3o!".chars().collect();
    let board = decode(&text).unwrap();
    assert!(board.contains(Point { x: -1, y: 0 }));
    assert!(board.contains(Point { x: 0, y: 0 }));
    assert!(board.contains(Point { x: 1, y: 0 }));
    assert_eq!(board.cells().len(), 3);
    let none: Vec<char> = Vec::new();
    assert_eq!(decode(&none).err(), Some(DecodeError::Header));
}
