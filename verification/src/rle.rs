//! Decoder for run-length-encoded pattern text.
//!
//! A pattern is text of three parts: any number of comment lines that begin
//! with `#`; a header line `x = W, y = H`, which may go on with further fields;
//! and a body of tokens. A token is an optional run count and one tag
//! character. White space may stand before any of these.

use crate::board::Board;
use crate::game::Game;
use crate::point::Point;
use vstd::prelude::*;

verus! {

/// Why a text is not a pattern.
#[derive(Copy, Clone, Debug, PartialEq, Eq, Structural)]
pub enum DecodeError {
    /// The header line is absent or malformed.
    Header,
    /// The text ends with a run count that no tag follows.
    Count,
    /// The pattern reaches beyond the coordinates of the lattice.
    Range,
}

/// White space, as Unicode defines it.
pub open spec fn is_space(c: char) -> bool {
    let n = c as u32;
    ||| 0x09 <= n <= 0x0d
    ||| n == 0x20
    ||| n == 0x85
    ||| n == 0xa0
    ||| n == 0x1680
    ||| 0x2000 <= n <= 0x200a
    ||| n == 0x2028
    ||| n == 0x2029
    ||| n == 0x202f
    ||| n == 0x205f
    ||| n == 0x3000
}

/// A decimal digit.
pub open spec fn is_digit(c: char) -> bool {
    0x30 <= c as u32 <= 0x39
}

/// Whether `v` is a coordinate of the lattice.
pub open spec fn in_range(v: int) -> bool {
    i32::MIN <= v <= i32::MAX
}

/// The first position at or after `i` that holds no white space.
pub open spec fn after_space(text: Seq<char>, i: int) -> int
    decreases text.len() - i,
{
    if 0 <= i < text.len() && is_space(text[i]) {
        after_space(text, i + 1)
    } else {
        i
    }
}

/// The position behind the line that `i` stands in: behind the next `\n`,
/// `\r\n` or single `\r`, or at the end of the text.
pub open spec fn after_line(text: Seq<char>, i: int) -> int
    decreases text.len() - i,
{
    if i < 0 || i >= text.len() {
        i
    } else if text[i] == '\n' {
        i + 1
    } else if text[i] == '\r' && i + 1 < text.len() && text[i + 1] == '\n' {
        i + 2
    } else if text[i] == '\r' {
        i + 1
    } else {
        after_line(text, i + 1)
    }
}

/// The first position at or after `i` that holds no digit.
pub open spec fn after_digits(text: Seq<char>, i: int) -> int
    decreases text.len() - i,
{
    if 0 <= i < text.len() && is_digit(text[i]) {
        after_digits(text, i + 1)
    } else {
        i
    }
}

/// The number that the digits from `from` up to `to` write.
pub open spec fn number(text: Seq<char>, from: int, to: int) -> nat
    decreases to - from,
{
    if 0 <= from < to <= text.len() {
        10 * number(text, from, to - 1) + (text[to - 1] as u32 - 0x30) as nat
    } else {
        0
    }
}

/// An integer read from a text.
pub struct Number {
    /// Its value.
    pub value: int,
    /// The position behind its last digit.
    pub end: int,
}

/// The integer that starts at `i`: an optional sign, then as many digits as
/// follow, at least one. There is none where the value is no `i32`.
pub open spec fn integer(text: Seq<char>, i: int) -> Option<Number> {
    let signed = 0 <= i < text.len() && (text[i] == '-' || text[i] == '+');
    let from = if signed { i + 1 } else { i };
    let to = after_digits(text, from);
    let size = number(text, from, to);
    let value = if signed && text[i] == '-' { -size } else { size as int };
    if 0 <= from < to && in_range(value) {
        Some(Number { value, end: to })
    } else {
        None
    }
}

/// The position behind the character `c`, where it is the first after `i`
/// that is no white space.
pub open spec fn symbol(text: Seq<char>, i: int, c: char) -> Option<int> {
    let at = after_space(text, i);
    if 0 <= at < text.len() && text[at] == c {
        Some(at + 1)
    } else {
        None
    }
}

/// The position behind the comment lines that start at `i`.
pub open spec fn after_comments(text: Seq<char>, i: int) -> int
    decreases text.len() - i,
    when 0 <= i
    via after_comments_decreases
{
    match symbol(text, i, '#') {
        Some(at) => after_comments(text, after_line(text, at)),
        None => after_space(text, i),
    }
}

#[via_fn]
proof fn after_comments_decreases(text: Seq<char>, i: int) {
    lemma_after_space(text, i);
    match symbol(text, i, '#') {
        Some(at) => lemma_after_line(text, at),
        None => {},
    }
}

/// What a header line states.
pub struct Header {
    /// The `x` field.
    pub width: int,
    /// The `y` field.
    pub height: int,
    /// The position behind the `y` field.
    pub end: int,
}

/// The header that starts at `i`: `x`, `=`, an integer, `,`, `y`, `=`, an
/// integer.
pub open spec fn header(text: Seq<char>, i: int) -> Option<Header> {
    match symbol(text, i, 'x') {
        Some(a) => match symbol(text, a, '=') {
            Some(b) => match integer(text, after_space(text, b)) {
                Some(w) => match symbol(text, w.end, ',') {
                    Some(c) => match symbol(text, c, 'y') {
                        Some(d) => match symbol(text, d, '=') {
                            Some(e) => match integer(text, after_space(text, e)) {
                                Some(h) => Some(
                                    Header { width: w.value, height: h.value, end: h.end },
                                ),
                                None => None,
                            },
                            None => None,
                        },
                        None => None,
                    },
                    None => None,
                },
                None => None,
            },
            None => None,
        },
        None => None,
    }
}

/// Half of `-extent`, rounded toward zero: where a pattern of that extent
/// starts, to be centered on the origin.
pub open spec fn anchor(extent: int) -> int {
    if extent >= 0 {
        -(extent / 2)
    } else {
        (-extent) / 2
    }
}

/// What stands next in a body.
pub enum Item {
    /// Nothing but white space is left.
    End,
    /// A run count, and then nothing but white space.
    Dangling,
    /// A token: its run count (1 where none is written), its tag and the
    /// position behind it.
    Token { count: int, tag: char, end: int },
}

/// The item that starts at `i`. Digits that write no `i32` are no run count:
/// the first of them is a tag.
pub open spec fn item(text: Seq<char>, i: int) -> Item {
    let at = after_space(text, i);
    if at >= text.len() {
        Item::End
    } else {
        match integer(text, at) {
            Some(n) => {
                let tag = after_space(text, n.end);
                if tag >= text.len() {
                    Item::Dangling
                } else {
                    Item::Token { count: n.value, tag: text[tag], end: tag + 1 }
                }
            },
            None => Item::Token { count: 1, tag: text[at], end: at + 1 },
        }
    }
}

/// The cursor that draws a body.
pub struct Pen {
    /// The column in which each row starts.
    pub left: int,
    /// The column of the cursor.
    pub x: int,
    /// The row of the cursor.
    pub y: int,
}

/// `count` cells in a row, the first at column `x` of row `y`.
pub open spec fn run(x: int, y: int, count: int) -> Set<Point<i32>> {
    Set::new(|p: Point<i32>| p.y == y && x <= p.x < x + count)
}

/// The board that the body from `i` on leaves, drawn with `pen` onto `cells`.
///
/// `o` marks a run of live cells and moves the cursor behind it; `b` only moves
/// the cursor; `$` starts the next row; `!` ends the pattern, whatever follows;
/// any other tag is passed over. The cursor has to stay on the lattice.
pub open spec fn draw(text: Seq<char>, i: int, pen: Pen, cells: Set<Point<i32>>) -> Result<
    Set<Point<i32>>,
    DecodeError,
>
    decreases text.len() - i,
    when 0 <= i
    via draw_decreases
{
    match item(text, i) {
        Item::End => Ok(cells),
        Item::Dangling => Err(DecodeError::Count),
        Item::Token { count, tag, end } => if tag == '!' {
            Ok(cells)
        } else if tag == 'o' {
            if in_range(pen.x + count) {
                draw(
                    text,
                    end,
                    Pen { x: pen.x + count, ..pen },
                    cells.union(run(pen.x, pen.y, count)),
                )
            } else {
                Err(DecodeError::Range)
            }
        } else if tag == 'b' {
            if in_range(pen.x + count) {
                draw(text, end, Pen { x: pen.x + count, ..pen }, cells)
            } else {
                Err(DecodeError::Range)
            }
        } else if tag == '$' {
            if in_range(pen.y + 1) {
                draw(text, end, Pen { x: pen.left, y: pen.y + 1, ..pen }, cells)
            } else {
                Err(DecodeError::Range)
            }
        } else {
            draw(text, end, pen, cells)
        },
    }
}

#[via_fn]
proof fn draw_decreases(text: Seq<char>, i: int, pen: Pen, cells: Set<Point<i32>>) {
    lemma_item(text, i);
}

/// The board that a pattern text describes, or why it describes none.
///
/// The pattern is centered on the origin: the body starts on the line behind
/// the header, with the cursor at `anchor` of the header's two fields.
pub open spec fn pattern(text: Seq<char>) -> Result<Set<Point<i32>>, DecodeError> {
    match header(text, after_comments(text, 0)) {
        Some(h) => draw(
            text,
            after_line(text, h.end),
            Pen { left: anchor(h.width), x: anchor(h.width), y: anchor(h.height) },
            Set::empty(),
        ),
        None => Err(DecodeError::Header),
    }
}

/// A body is never refused for its header.
proof fn lemma_draw(text: Seq<char>, i: int, pen: Pen, cells: Set<Point<i32>>)
    requires
        0 <= i,
    ensures
        draw(text, i, pen, cells) != Err::<Set<Point<i32>>, DecodeError>(DecodeError::Header),
    decreases text.len() - i,
{
    lemma_item(text, i);
    match item(text, i) {
        Item::Token { count, tag, end } => {
            if tag == 'o' && in_range(pen.x + count) {
                lemma_draw(
                    text,
                    end,
                    Pen { x: pen.x + count, ..pen },
                    cells.union(run(pen.x, pen.y, count)),
                );
            } else if tag == 'b' && in_range(pen.x + count) {
                lemma_draw(text, end, Pen { x: pen.x + count, ..pen }, cells);
            } else if tag == '$' && in_range(pen.y + 1) {
                lemma_draw(text, end, Pen { x: pen.left, y: pen.y + 1, ..pen }, cells);
            } else if tag != '!' && tag != 'o' && tag != 'b' && tag != '$' {
                lemma_draw(text, end, pen, cells);
            }
        },
        _ => {},
    }
}

/// A text is refused for its header where, and only where, no header follows
/// its comment lines.
pub proof fn lemma_header(text: Seq<char>)
    ensures
        pattern(text) == Err::<Set<Point<i32>>, DecodeError>(DecodeError::Header) <==> header(
            text,
            after_comments(text, 0),
        ) is None,
{
    match header(text, after_comments(text, 0)) {
        Some(h) => {
            lemma_after_comments(text, 0);
            lemma_header_end(text, after_comments(text, 0));
            lemma_after_line(text, h.end);
            lemma_draw(
                text,
                after_line(text, h.end),
                Pen { left: anchor(h.width), x: anchor(h.width), y: anchor(h.height) },
                Set::empty(),
            );
        },
        None => {},
    }
}

proof fn lemma_after_comments(text: Seq<char>, i: int)
    requires
        0 <= i,
    ensures
        i <= after_comments(text, i),
    decreases text.len() - i,
{
    lemma_after_space(text, i);
    match symbol(text, i, '#') {
        Some(at) => {
            lemma_after_line(text, at);
            lemma_after_comments(text, after_line(text, at));
        },
        None => {},
    }
}

proof fn lemma_header_end(text: Seq<char>, i: int)
    requires
        0 <= i,
    ensures
        header(text, i) matches Some(h) ==> i <= h.end,
{
    match symbol(text, i, 'x') {
        Some(a) => {
            lemma_after_space(text, i);
            match symbol(text, a, '=') {
                Some(b) => {
                    lemma_after_space(text, a);
                    lemma_after_space(text, b);
                    lemma_integer(text, after_space(text, b));
                    match integer(text, after_space(text, b)) {
                        Some(w) => match symbol(text, w.end, ',') {
                            Some(c) => {
                                lemma_after_space(text, w.end);
                                match symbol(text, c, 'y') {
                                    Some(d) => {
                                        lemma_after_space(text, c);
                                        match symbol(text, d, '=') {
                                            Some(e) => {
                                                lemma_after_space(text, d);
                                                lemma_after_space(text, e);
                                                lemma_integer(text, after_space(text, e));
                                            },
                                            None => {},
                                        }
                                    },
                                    None => {},
                                }
                            },
                            None => {},
                        },
                        None => {},
                    }
                },
                None => {},
            }
        },
        None => {},
    }
}

proof fn lemma_after_space(text: Seq<char>, i: int)
    requires
        0 <= i,
    ensures
        i <= after_space(text, i),
        i <= text.len() ==> after_space(text, i) <= text.len(),
        after_space(text, i) < text.len() ==> !is_space(text[after_space(text, i)]),
    decreases text.len() - i,
{
    if i < text.len() && is_space(text[i]) {
        lemma_after_space(text, i + 1);
    }
}

proof fn lemma_after_line(text: Seq<char>, i: int)
    requires
        0 <= i,
    ensures
        i <= after_line(text, i),
        i <= text.len() ==> after_line(text, i) <= text.len(),
        i < text.len() ==> i < after_line(text, i),
    decreases text.len() - i,
{
    if i < text.len() && text[i] != '\n' && text[i] != '\r' {
        lemma_after_line(text, i + 1);
    }
}

proof fn lemma_after_digits(text: Seq<char>, i: int)
    requires
        0 <= i,
    ensures
        i <= after_digits(text, i),
        i <= text.len() ==> after_digits(text, i) <= text.len(),
    decreases text.len() - i,
{
    if i < text.len() && is_digit(text[i]) {
        lemma_after_digits(text, i + 1);
    }
}

proof fn lemma_integer(text: Seq<char>, i: int)
    requires
        0 <= i,
    ensures
        integer(text, i) matches Some(n) ==> i < n.end <= text.len() && in_range(n.value),
{
    let signed = i < text.len() && (text[i] == '-' || text[i] == '+');
    let from = if signed { i + 1 } else { i };
    lemma_after_digits(text, from);
}

proof fn lemma_item(text: Seq<char>, i: int)
    requires
        0 <= i,
    ensures
        item(text, i) matches Item::Token { count, tag, end } ==> i < end <= text.len()
            && in_range(count),
{
    lemma_after_space(text, i);
    let at = after_space(text, i);
    if at < text.len() {
        lemma_integer(text, at);
        match integer(text, at) {
            Some(n) => lemma_after_space(text, n.end),
            None => {},
        }
    }
}

/// Whether `c` is white space.
fn space(c: char) -> (yes: bool)
    ensures
        yes == is_space(c),
{
    let n: u32 = c as u32;
    (0x09 <= n && n <= 0x0d) || n == 0x20 || n == 0x85 || n == 0xa0 || n == 0x1680 || (0x2000 <= n
        && n <= 0x200a) || n == 0x2028 || n == 0x2029 || n == 0x202f || n == 0x205f || n == 0x3000
}

/// Passes over white space.
fn skip_space(text: &Vec<char>, i: usize) -> (at: usize)
    requires
        i <= text.len(),
    ensures
        at == after_space(text@, i as int),
        i <= at <= text.len(),
{
    let mut at: usize = i;
    while at < text.len() && space(text[at])
        invariant
            i <= at <= text.len(),
            after_space(text@, at as int) == after_space(text@, i as int),
        decreases text.len() - at,
    {
        at = at + 1;
    }
    at
}

/// Passes over the rest of a line and its end.
fn skip_line(text: &Vec<char>, i: usize) -> (at: usize)
    requires
        i <= text.len(),
    ensures
        at == after_line(text@, i as int),
        i <= at <= text.len(),
{
    let mut at: usize = i;
    while at < text.len() && text[at] != '\n' && text[at] != '\r'
        invariant
            i <= at <= text.len(),
            after_line(text@, at as int) == after_line(text@, i as int),
        decreases text.len() - at,
    {
        at = at + 1;
    }
    if at >= text.len() {
        at
    } else if text[at] == '\r' && at + 1 < text.len() && text[at + 1] == '\n' {
        at + 2
    } else {
        at + 1
    }
}

/// Reads the integer that starts at `i`.
fn read_integer(text: &Vec<char>, i: usize) -> (read: Option<(i32, usize)>)
    requires
        i <= text.len(),
    ensures
        match read {
            Some((value, end)) => integer(text@, i as int) == Some(
                Number { value: value as int, end: end as int },
            ) && i < end <= text.len(),
            None => integer(text@, i as int) is None,
        },
{
    let signed = i < text.len() && (text[i] == '-' || text[i] == '+');
    let from: usize = if signed { i + 1 } else { i };
    let mut at: usize = from;
    let mut size: i64 = 0;
    let mut huge = false;
    while at < text.len() && 0x30 <= text[at] as u32 && text[at] as u32 <= 0x39
        invariant
            from <= at <= text.len(),
            after_digits(text@, at as int) == after_digits(text@, from as int),
            !huge ==> size == number(text@, from as int, at as int) && size <= 0x8000_0000,
            huge ==> number(text@, from as int, at as int) > 0x8000_0000,
        decreases text.len() - at,
    {
        if !huge {
            size = size * 10 + (text[at] as u32 - 0x30) as i64;
            if size > 0x8000_0000 {
                huge = true;
            }
        }
        at = at + 1;
    }
    if at == from || huge {
        return None;
    }
    let value: i64 = if signed && text[i] == '-' { -size } else { size };
    if value > 0x7fff_ffff {
        return None;
    }
    Some((value as i32, at))
}

/// Passes over white space and the character `c`, if that is what follows.
fn skip_symbol(text: &Vec<char>, i: usize, c: char) -> (behind: Option<usize>)
    requires
        i <= text.len(),
    ensures
        match behind {
            Some(at) => symbol(text@, i as int, c) == Some(at as int) && i < at <= text.len(),
            None => symbol(text@, i as int, c) is None,
        },
{
    let at = skip_space(text, i);
    if at < text.len() && text[at] == c {
        Some(at + 1)
    } else {
        None
    }
}

/// Passes over comment lines.
fn skip_comments(text: &Vec<char>) -> (at: usize)
    ensures
        at == after_comments(text@, 0),
        at <= text.len(),
{
    let mut i: usize = 0;
    loop
        invariant
            i <= text.len(),
            after_comments(text@, i as int) == after_comments(text@, 0),
        decreases text.len() - i,
    {
        match skip_symbol(text, i, '#') {
            Some(at) => {
                proof {
                    lemma_after_line(text@, at as int);
                }
                i = skip_line(text, at);
            },
            None => {
                return skip_space(text, i);
            },
        }
    }
}

/// Reads an integer that white space may stand before.
fn read_field(text: &Vec<char>, i: usize) -> (read: Option<(i32, usize)>)
    requires
        i <= text.len(),
    ensures
        match read {
            Some((value, end)) => integer(text@, after_space(text@, i as int)) == Some(
                Number { value: value as int, end: end as int },
            ) && i < end <= text.len(),
            None => integer(text@, after_space(text@, i as int)) is None,
        },
{
    let at = skip_space(text, i);
    read_integer(text, at)
}

/// Reads the header that starts at `i`: its two fields and the position behind
/// them.
fn read_header(text: &Vec<char>, i: usize) -> (read: Option<(i32, i32, usize)>)
    requires
        i <= text.len(),
    ensures
        match read {
            Some((width, height, end)) => header(text@, i as int) == Some(
                Header { width: width as int, height: height as int, end: end as int },
            ) && end <= text.len(),
            None => header(text@, i as int) is None,
        },
{
    let Some(a) = skip_symbol(text, i, 'x') else {
        return None;
    };
    let Some(b) = skip_symbol(text, a, '=') else {
        return None;
    };
    let Some((width, c)) = read_field(text, b) else {
        return None;
    };
    let Some(d) = skip_symbol(text, c, ',') else {
        return None;
    };
    let Some(e) = skip_symbol(text, d, 'y') else {
        return None;
    };
    let Some(f) = skip_symbol(text, e, '=') else {
        return None;
    };
    let Some((height, end)) = read_field(text, f) else {
        return None;
    };
    Some((width, height, end))
}

/// Where a pattern of the given extent starts.
fn start(extent: i32) -> (at: i32)
    ensures
        at == anchor(extent as int),
{
    if extent >= 0 {
        -(extent / 2)
    } else {
        let size: i64 = -(extent as i64);
        (size / 2) as i32
    }
}

/// Makes `count` cells live, the first at column `x` of row `y`.
fn mark(board: &mut Board, x: i32, y: i32, count: i32)
    requires
        in_range(x + count),
    ensures
        final(board)@ == old(board)@.union(run(x as int, y as int, count as int)),
{
    let stop: i64 = x as i64 + count as i64;
    let mut at: i64 = x as i64;
    assert(board@ =~= old(board)@.union(run(x as int, y as int, 0)));
    while at < stop
        invariant
            x <= at,
            count > 0 ==> at <= stop,
            count <= 0 ==> at == x,
            stop == x + count,
            in_range(stop as int),
            board@ == old(board)@.union(run(x as int, y as int, at - x)),
        decreases stop - at,
    {
        board.insert(Point { x: at as i32, y });
        assert(board@ =~= old(board)@.union(run(x as int, y as int, at + 1 - x)));
        at = at + 1;
    }
    assert(board@ =~= old(board)@.union(run(x as int, y as int, count as int)));
}

/// Decodes a pattern text into the board that it describes.
pub fn decode(text: &Vec<char>) -> (decoded: Result<Board, DecodeError>)
    ensures
        match decoded {
            Ok(board) => pattern(text@) == Ok::<Set<Point<i32>>, DecodeError>(board@),
            Err(error) => pattern(text@) == Err::<Set<Point<i32>>, DecodeError>(error),
        },
        decoded == Err::<Board, DecodeError>(DecodeError::Header) <==> header(
            text@,
            after_comments(text@, 0),
        ) is None,
{
    proof {
        lemma_header(text@);
    }
    let top = skip_comments(text);
    let Some((width, height, end)) = read_header(text, top) else {
        return Err(DecodeError::Header);
    };
    let left = start(width);
    let mut x: i32 = left;
    let mut y: i32 = start(height);
    let mut board = Board::new();
    let mut i: usize = skip_line(text, end);
    loop
        invariant
            i <= text.len(),
            draw(text@, i as int, Pen { left: left as int, x: x as int, y: y as int }, board@)
                == pattern(text@),
        decreases text.len() - i,
    {
        let at = skip_space(text, i);
        if at >= text.len() {
            return Ok(board);
        }
        let (count, tag_at) = match read_integer(text, at) {
            Some((count, behind)) => (count, skip_space(text, behind)),
            None => (1i32, at),
        };
        if tag_at >= text.len() {
            return Err(DecodeError::Count);
        }
        let tag = text[tag_at];
        if tag == '!' {
            return Ok(board);
        } else if tag == 'o' || tag == 'b' {
            let moved: i64 = x as i64 + count as i64;
            if moved < -0x8000_0000 || moved > 0x7fff_ffff {
                return Err(DecodeError::Range);
            }
            if tag == 'o' {
                mark(&mut board, x, y, count);
            }
            x = moved as i32;
        } else if tag == '$' {
            if y == i32::MAX {
                return Err(DecodeError::Range);
            }
            y = y + 1;
            x = left;
        }
        i = tag_at + 1;
    }
}

/// The characters of `s`.
fn chars(s: &str) -> (text: Vec<char>)
    ensures
        text@ == s@,
{
    let mut text: Vec<char> = Vec::new();
    for c in it: s.chars()
        invariant
            it.seq() == s@,
            text@ == s@.take(it.index()),
    {
        text.push(c);
    }
    text
}

impl Game {
    /// Creates a game, at generation 0, from the text of a pattern.
    pub fn rle(contents: &str) -> (game: Result<Game, DecodeError>)
        ensures
            match game {
                Ok(game) => pattern(contents@) == Ok::<Set<Point<i32>>, DecodeError>(game@.board)
                    && game@.generation == 0,
                Err(error) => pattern(contents@) == Err::<Set<Point<i32>>, DecodeError>(error),
            },
            game matches Err(DecodeError::Header) <==> header(
                contents@,
                after_comments(contents@, 0),
            ) is None,
    {
        let text = chars(contents);
        match decode(&text) {
            Ok(board) => Ok(Game::new(board)),
            Err(error) => Err(error),
        }
    }
}

} // verus!
