//! Toroidal grid geometry: cell indices are row-major in `[0, width*width)`,
//! and movement wraps at every edge of the board.

use vstd::prelude::*;
use vstd::arithmetic::div_mod::lemma_fundamental_div_mod;
use vstd::arithmetic::div_mod::lemma_fundamental_div_mod_converse;
use vstd::arithmetic::div_mod::lemma_mod_bound;
use vstd::arithmetic::div_mod::lemma_div_pos_is_pos;
use vstd::arithmetic::div_mod::lemma_multiply_divide_lt;
use vstd::arithmetic::mul::lemma_mul_inequality;

verus! {

/// One of the four headings a snake can move in.
#[derive(Clone, Copy, PartialEq, Eq, Debug, Structural)]
pub enum Direction {
    Up,
    Down,
    Right,
    Left,
}

/// The cell one step from `head` in direction `dir`, on a toroidal
/// `width * width` board with row-major indices.
///
/// Horizontal moves wrap within the head's row; vertical moves wrap
/// within the head's column (mod is Euclidean, so the subtractions for
/// Left and Up wrap instead of going negative).
pub open spec fn next_cell_math(width: int, head: int, dir: Direction) -> int {
    let size = width * width;
    let row = head / width;
    match dir {
        Direction::Right => row * width + (head + 1) % width,
        Direction::Left => row * width + (head - 1) % width,
        Direction::Up => (head - width) % size,
        Direction::Down => (head + width) % size,
    }
}

/// Facts the geometry proofs lean on: a valid head splits into a row and a
/// column both below `width`, and the board holds at least one full row.
proof fn lemma_head_row_col(width: int, head: int)
    requires
        1 <= width,
        0 <= head < width * width,
    ensures
        0 <= head / width < width,
        0 <= head % width < width,
        head == (head / width) * width + (head % width),
        width <= width * width,
        (head / width) * width <= width * width - width,
        ((head / width) + 1) * width == (head / width) * width + width,
        ((head / width) - 1) * width == (head / width) * width - width,
{
    let row = head / width;
    lemma_fundamental_div_mod(head, width);
    lemma_mod_bound(head, width);
    lemma_div_pos_is_pos(head, width);
    lemma_multiply_divide_lt(head, width, width);
    lemma_mul_inequality(1, width, width);
    lemma_mul_inequality(row, width - 1, width);
    assert((width - 1) * width == width * width - width) by (nonlinear_arith);
    assert((row + 1) * width == row * width + width) by (nonlinear_arith);
    assert((row - 1) * width == row * width - width) by (nonlinear_arith);
    assert(head == width * row + head % width ==> head == row * width + head % width)
        by (nonlinear_arith);
}

/// The next cell is always a valid cell of the board.
pub proof fn lemma_next_cell_in_range(width: int, head: int, dir: Direction)
    requires
        1 <= width,
        0 <= head < width * width,
    ensures
        0 <= next_cell_math(width, head, dir) < width * width,
{
    let size = width * width;
    let row = head / width;
    lemma_head_row_col(width, head);
    match dir {
        Direction::Right => {
            lemma_mod_bound(head + 1, width);
        }
        Direction::Left => {
            lemma_mod_bound(head - 1, width);
        }
        Direction::Up => {
            lemma_mod_bound(head - width, size);
        }
        Direction::Down => {
            lemma_mod_bound(head + width, size);
        }
    }
}

/// Away from the grid's edges, each heading moves exactly one step with no
/// wraparound: one column right or left, one row (`width` indices) up or down.
pub proof fn lemma_next_cell_interior(width: int, head: int)
    requires
        1 <= width,
        0 <= head < width * width,
    ensures
        head % width < width - 1 ==> next_cell_math(width, head, Direction::Right) == head + 1,
        head % width > 0 ==> next_cell_math(width, head, Direction::Left) == head - 1,
        head >= width ==> next_cell_math(width, head, Direction::Up) == head - width,
        head < width * width - width ==> next_cell_math(width, head, Direction::Down) == head + width,
{
    let size = width * width;
    let row = head / width;
    let col = head % width;
    lemma_head_row_col(width, head);
    if col < width - 1 {
        lemma_fundamental_div_mod_converse(head + 1, width, row, col + 1);
    }
    if col > 0 {
        lemma_fundamental_div_mod_converse(head - 1, width, row, col - 1);
    }
    if head >= width {
        lemma_fundamental_div_mod_converse(head - width, size, 0, head - width);
    }
    if head < size - width {
        lemma_fundamental_div_mod_converse(head + width, size, 0, head + width);
    }
}

/// At the grid's edges each heading wraps toroidally: Right from the last
/// column lands in the same row's first column, Left from the first column in
/// its last column, Up from the top row in the bottom row of the same column,
/// and Down from the bottom row in the top row of the same column.
pub proof fn lemma_next_cell_wraparound(width: int, head: int)
    requires
        1 <= width,
        0 <= head < width * width,
    ensures
        head % width == width - 1 ==> next_cell_math(width, head, Direction::Right) == head - (width - 1),
        head % width == 0 ==> next_cell_math(width, head, Direction::Left) == head + (width - 1),
        head < width ==> next_cell_math(width, head, Direction::Up) == head + (width * width - width),
        head >= width * width - width ==> next_cell_math(width, head, Direction::Down)
            == head - (width * width - width),
{
    let size = width * width;
    let row = head / width;
    let col = head % width;
    lemma_head_row_col(width, head);
    if col == width - 1 {
        lemma_fundamental_div_mod_converse(head + 1, width, row + 1, 0);
    }
    if col == 0 {
        lemma_fundamental_div_mod_converse(head - 1, width, row - 1, width - 1);
    }
    if head < width {
        lemma_fundamental_div_mod_converse(head - width, size, -1, head - width + size);
    }
    if head >= size - width {
        lemma_fundamental_div_mod_converse(head + width, size, 1, head + width - size);
    }
}

/// Computes the cell one step from `head` in direction `dir`, wrapping at the
/// board's edges. The Left and Up cases rewrite the subtraction so that it
/// cannot underflow `usize` while keeping the toroidal meaning.
pub fn next_cell(width: usize, size: usize, head: usize, dir: Direction) -> (r: usize)
    requires
        1 <= width,
        size == width * width,
        head < size,
    ensures
        r == next_cell_math(width as int, head as int, dir),
        r < size,
{
    proof {
        lemma_head_row_col(width as int, head as int);
        lemma_next_cell_in_range(width as int, head as int, dir);
    }
    let row = head / width;
    let col = head % width;
    match dir {
        Direction::Right => row * width + (head + 1) % width,
        Direction::Left => {
            let new_col = if col == 0 { width - 1 } else { col - 1 };
            proof {
                lemma_fundamental_div_mod_converse(
                    head as int - 1,
                    width as int,
                    if col == 0 { row as int - 1 } else { row as int },
                    new_col as int,
                );
            }
            row * width + new_col
        }
        Direction::Up => {
            let r = if head >= width { head - width } else { head + (size - width) };
            proof {
                lemma_fundamental_div_mod_converse(
                    head as int - width as int,
                    size as int,
                    if head >= width { 0 } else { -1 },
                    r as int,
                );
            }
            r
        }
        Direction::Down => {
            let r = if head < size - width { head + width } else { head - (size - width) };
            proof {
                lemma_fundamental_div_mod_converse(
                    head as int + width as int,
                    size as int,
                    if head < size - width { 0 } else { 1 },
                    r as int,
                );
            }
            r
        }
    }
}

} // verus!
