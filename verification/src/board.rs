//! The playfield geometry: a rectangle of the frame split into a fixed grid of
//! rows and columns, each row tagged with its terrain.
//!
//! Cell boundaries are placed so that mapping a cell to its top-left corner and
//! mapping that corner back always returns the same cell: the corner of cell
//! `c` is at `left + ceil(c * width / cols)`, and a coordinate `x` lies in cell
//! `(x - left) * cols / width`.

use vstd::prelude::*;

use crate::units::{FRAME_H, FRAME_W};

verus! {

/// Terrain of one playfield row.
#[derive(Clone, Copy, PartialEq, Eq, Debug)]
pub enum RowType {
    Grass,
    Water,
}

/// The playfield rectangle and its grid, in milli-pixels.
pub struct Board {
    pub top: i64,
    pub left: i64,
    pub width: i64,
    pub height: i64,
    pub rows: Vec<RowType>,
    pub cols: u8,
}

impl Board {
    /// The rectangle sits inside the frame and every cell is at least one
    /// milli-pixel wide and high.
    pub open spec fn wf(self) -> bool {
        &&& 0 <= self.left
        &&& 0 <= self.top
        &&& self.left + self.width <= FRAME_W
        &&& self.top + self.height <= FRAME_H
        &&& 1 <= self.cols
        &&& 1 <= self.rows@.len() <= 255
        &&& self.cols as int <= self.width
        &&& self.rows@.len() as int <= self.height
    }

    pub open spec fn in_x_range(self, x: int) -> bool {
        self.left <= x < self.left + self.width
    }

    pub open spec fn in_y_range(self, y: int) -> bool {
        self.top <= y < self.top + self.height
    }

    /// Column holding the coordinate `x` (meaningful only in range).
    pub open spec fn spec_col_of(self, x: int) -> int {
        (x - self.left) * (self.cols as int) / (self.width as int)
    }

    /// Row holding the coordinate `y` (meaningful only in range).
    pub open spec fn spec_row_of(self, y: int) -> int {
        (y - self.top) * (self.rows@.len() as int) / (self.height as int)
    }

    /// Left edge of column `col`.
    pub open spec fn spec_cell_x(self, col: int) -> int {
        self.left + (col * self.width + self.cols - 1) / (self.cols as int)
    }

    /// Top edge of row `row`.
    pub open spec fn spec_cell_y(self, row: int) -> int {
        self.top + (row * self.height + self.rows@.len() - 1) / (self.rows@.len() as int)
    }

    /// Validated constructor: returns a board exactly when the given fields
    /// satisfy the well-formedness bounds.
    pub fn new(
        top: i64,
        left: i64,
        width: i64,
        height: i64,
        rows: Vec<RowType>,
        cols: u8,
    ) -> (r: Option<Board>)
        ensures
            r is Some <==> {
                &&& 0 <= left
                &&& 0 <= top
                &&& left + width <= FRAME_W
                &&& top + height <= FRAME_H
                &&& 1 <= cols
                &&& 1 <= rows@.len() <= 255
                &&& cols as int <= width
                &&& rows@.len() as int <= height
            },
            r matches Some(b) ==> b.wf() && b.top == top && b.left == left && b.width == width
                && b.height == height && b.rows@ == rows@ && b.cols == cols,
    {
        if 0 <= left && 0 <= top && width <= FRAME_W - left && height <= FRAME_H - top && 1 <= cols
            && 1 <= rows.len() && rows.len() <= 255 && cols as i64 <= width && rows.len() as i64
            <= height {
            Some(Board { top, left, width, height, rows, cols })
        } else {
            None
        }
    }

    /// Column of the playfield coordinate `x`, or none when `x` falls outside
    /// the playfield horizontally.
    pub fn coord_to_pos_x(&self, x: i64) -> (r: Option<usize>)
        requires
            self.wf(),
        ensures
            r is Some <==> self.in_x_range(x as int),
            r matches Some(c) ==> c as int == self.spec_col_of(x as int) && c < self.cols,
    {
        if x < self.left || x >= self.left + self.width {
            None
        } else {
            let diff = (x - self.left) as u64;
            proof {
                assert(diff * self.cols < self.width * self.cols <= FRAME_W * 255)
                    by (nonlinear_arith)
                    requires
                        0 <= diff < self.width <= FRAME_W,
                        0 < self.cols <= 255,
                ;
            }
            let c = diff * (self.cols as u64) / (self.width as u64);
            proof {
                vstd::arithmetic::div_mod::lemma_multiply_divide_lt(
                    diff as int * self.cols as int,
                    self.width as int,
                    self.cols as int,
                );
            }
            Some(c as usize)
        }
    }

    /// Row of the playfield coordinate `y`, or none when `y` falls outside the
    /// playfield vertically.
    pub fn coord_to_pos_y(&self, y: i64) -> (r: Option<usize>)
        requires
            self.wf(),
        ensures
            r is Some <==> self.in_y_range(y as int),
            r matches Some(w) ==> w as int == self.spec_row_of(y as int) && w < self.rows@.len(),
    {
        if y < self.top || y >= self.top + self.height {
            None
        } else {
            let diff = (y - self.top) as u64;
            let n = self.rows.len() as u64;
            proof {
                assert(diff * n < self.height * n <= FRAME_H * 255) by (nonlinear_arith)
                    requires
                        0 <= diff < self.height <= FRAME_H,
                        0 < n <= 255,
                ;
            }
            let w = diff * n / (self.height as u64);
            proof {
                vstd::arithmetic::div_mod::lemma_multiply_divide_lt(
                    diff as int * n as int,
                    self.height as int,
                    n as int,
                );
            }
            Some(w as usize)
        }
    }

    /// Left edge of column `x`; `x == cols` gives the playfield's right edge.
    pub fn pos_to_coord_x(&self, x: usize) -> (r: i64)
        requires
            self.wf(),
            x <= self.cols,
        ensures
            r as int == self.spec_cell_x(x as int),
            self.left <= r <= self.left + self.width,
    {
        proof {
            assert(0 <= (x as int) * (self.width as int) <= 255 * FRAME_W) by (nonlinear_arith)
                requires
                    0 <= x as int <= 255,
                    0 <= self.width as int <= FRAME_W,
            ;
        }
        let q = ((x as u64) * (self.width as u64) + (self.cols as u64) - 1) / (self.cols as u64);
        proof {
            let xi = x as int;
            let w = self.width as int;
            let c = self.cols as int;
            let qi = (xi * w + c - 1) / c;
            assert(qi * c <= xi * w + c - 1 && xi * w <= qi * c) by {
                vstd::arithmetic::div_mod::lemma_fundamental_div_mod(xi * w + c - 1, c);
                vstd::arithmetic::div_mod::lemma_mod_division_less_than_divisor(xi * w + c - 1, c);
            }
            assert(qi <= w) by (nonlinear_arith)
                requires
                    qi * c <= xi * w + c - 1,
                    xi <= c,
                    1 <= c <= w,
                    0 <= qi,
            ;
        }
        self.left + q as i64
    }

    /// Top edge of row `y`; `y == rows.len()` gives the playfield's bottom
    /// edge.
    pub fn pos_to_coord_y(&self, y: usize) -> (r: i64)
        requires
            self.wf(),
            y <= self.rows@.len(),
        ensures
            r as int == self.spec_cell_y(y as int),
            self.top <= r <= self.top + self.height,
    {
        let n = self.rows.len() as u64;
        proof {
            assert(0 <= (y as int) * (self.height as int) <= 255 * FRAME_H) by (nonlinear_arith)
                requires
                    0 <= y as int <= 255,
                    0 <= self.height as int <= FRAME_H,
            ;
        }
        let q = ((y as u64) * (self.height as u64) + n - 1) / n;
        proof {
            let yi = y as int;
            let h = self.height as int;
            let c = self.rows@.len() as int;
            let qi = (yi * h + c - 1) / c;
            assert(qi * c <= yi * h + c - 1 && yi * h <= qi * c) by {
                vstd::arithmetic::div_mod::lemma_fundamental_div_mod(yi * h + c - 1, c);
                vstd::arithmetic::div_mod::lemma_mod_division_less_than_divisor(yi * h + c - 1, c);
            }
            assert(qi <= h) by (nonlinear_arith)
                requires
                    qi * c <= yi * h + c - 1,
                    yi <= c,
                    1 <= c <= h,
                    0 <= qi,
            ;
        }
        self.top + q as i64
    }

    /// Height of one row, in milli-pixels.
    pub fn row_heigth(&self) -> (r: i64)
        requires
            self.wf(),
        ensures
            r as int == self.height as int / self.rows@.len() as int,
            1 <= r <= self.height,
    {
        proof {
            vstd::arithmetic::div_mod::lemma_div_is_ordered(
                self.rows@.len() as int,
                self.height as int,
                self.rows@.len() as int,
            );
            vstd::arithmetic::div_mod::lemma_div_by_self(self.rows@.len() as int);
            vstd::arithmetic::div_mod::lemma_div_nonincreasing(
                self.height as int,
                self.rows@.len() as int,
            );
        }
        self.height / (self.rows.len() as i64)
    }

    /// Width of one column, in milli-pixels.
    pub fn col_width(&self) -> (r: i64)
        requires
            self.wf(),
        ensures
            r as int == self.width as int / self.cols as int,
            1 <= r <= self.width,
    {
        proof {
            vstd::arithmetic::div_mod::lemma_div_is_ordered(
                self.cols as int,
                self.width as int,
                self.cols as int,
            );
            vstd::arithmetic::div_mod::lemma_div_by_self(self.cols as int);
            vstd::arithmetic::div_mod::lemma_div_nonincreasing(self.width as int, self.cols as int);
        }
        self.width / (self.cols as i64)
    }
}

/// A column's left edge lies inside the playfield (the edge for `col == cols`
/// is the playfield's right edge).
pub proof fn lemma_cell_x_bounds(b: Board, col: int)
    requires
        b.wf(),
        0 <= col <= b.cols,
    ensures
        b.left <= b.spec_cell_x(col) <= b.left + b.width,
{
    let w = b.width as int;
    let c = b.cols as int;
    let q = (col * w + c - 1) / c;
    assert(0 <= col * w) by (nonlinear_arith)
        requires
            0 <= col,
            0 <= w,
    ;
    assert(q * c <= col * w + c - 1 && col * w <= q * c) by {
        vstd::arithmetic::div_mod::lemma_fundamental_div_mod(col * w + c - 1, c);
        vstd::arithmetic::div_mod::lemma_mod_division_less_than_divisor(col * w + c - 1, c);
    }
    assert(q <= w) by (nonlinear_arith)
        requires
            q * c <= col * w + c - 1,
            col <= c,
            1 <= c <= w,
            0 <= q,
    ;
    assert(0 <= q) by (nonlinear_arith)
        requires
            0 <= col * w <= q * c,
            0 < c,
    ;
}

/// Law: mapping a column to its left edge and that edge back to a column is
/// the identity, for every column of a well-formed board.
pub proof fn lemma_cell_coord_inverse_x(b: Board, x: int)
    requires
        b.wf(),
        0 <= x < b.cols,
    ensures
        b.in_x_range(b.spec_cell_x(x)),
        b.spec_col_of(b.spec_cell_x(x)) == x,
{
    let w = b.width as int;
    let c = b.cols as int;
    let q = (x * w + c - 1) / c;
    assert(0 <= x * w) by (nonlinear_arith)
        requires
            0 <= x,
            0 <= w,
    ;
    assert(q * c <= x * w + c - 1 && x * w <= q * c) by {
        vstd::arithmetic::div_mod::lemma_fundamental_div_mod(x * w + c - 1, c);
        vstd::arithmetic::div_mod::lemma_mod_division_less_than_divisor(x * w + c - 1, c);
    }
    assert(q * c < c * w) by (nonlinear_arith)
        requires
            q * c <= x * w + c - 1,
            x < c,
            1 <= c <= w,
    ;
    assert(q < w) by (nonlinear_arith)
        requires
            q * c < c * w,
            0 < c,
    ;
    assert(0 <= q) by (nonlinear_arith)
        requires
            0 <= x * w <= q * c,
            0 < c,
    ;
    // q * c lies in [x * w, x * w + w), so (q * c) / w == x.
    assert((q * c) / w == x) by {
        assert(q * c - x * w < w);
        vstd::arithmetic::div_mod::lemma_fundamental_div_mod_converse(q * c, w, x, q * c - x * w);
    }
}

/// Law: mapping a row to its top edge and that edge back to a row is the
/// identity, for every row of a well-formed board.
pub proof fn lemma_cell_coord_inverse_y(b: Board, y: int)
    requires
        b.wf(),
        0 <= y < b.rows@.len(),
    ensures
        b.in_y_range(b.spec_cell_y(y)),
        b.spec_row_of(b.spec_cell_y(y)) == y,
{
    let h = b.height as int;
    let c = b.rows@.len() as int;
    let q = (y * h + c - 1) / c;
    assert(0 <= y * h) by (nonlinear_arith)
        requires
            0 <= y,
            0 <= h,
    ;
    assert(q * c <= y * h + c - 1 && y * h <= q * c) by {
        vstd::arithmetic::div_mod::lemma_fundamental_div_mod(y * h + c - 1, c);
        vstd::arithmetic::div_mod::lemma_mod_division_less_than_divisor(y * h + c - 1, c);
    }
    assert(q * c < c * h) by (nonlinear_arith)
        requires
            q * c <= y * h + c - 1,
            y < c,
            1 <= c <= h,
    ;
    assert(q < h) by (nonlinear_arith)
        requires
            q * c < c * h,
            0 < c,
    ;
    assert(0 <= q) by (nonlinear_arith)
        requires
            0 <= y * h <= q * c,
            0 < c,
    ;
    assert((q * c) / h == y) by {
        assert(q * c - y * h < h);
        vstd::arithmetic::div_mod::lemma_fundamental_div_mod_converse(q * c, h, y, q * c - y * h);
    }
}

} // verus!
