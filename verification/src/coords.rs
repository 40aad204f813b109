//! Mapping a pointer position in window pixels to a grid coordinate.

use vstd::prelude::*;

verus! {

use vstd::arithmetic::div_mod::{
    lemma_div_is_ordered,
    lemma_div_multiples_vanish,
    lemma_fundamental_div_mod_converse,
};
use vstd::arithmetic::mul::{lemma_mul_inequality, lemma_mul_is_commutative};

/// The mapped index along one axis: the pixel position scaled from a window
/// `window` pixels wide onto `cells` grid cells, then clamped so that the
/// result always lies in `[0, cells)`.
pub open spec fn map_axis(p: int, window: int, cells: int) -> int {
    if p * cells / window < cells - 1 {
        p * cells / window
    } else {
        cells - 1
    }
}

/// Scales a pixel position along one axis onto the grid cells of that axis,
/// clamped into `[0, cells)`.
fn map_axis_exec(p: usize, window: usize, cells: usize) -> (i: usize)
    requires
        window >= 1,
        cells >= 1,
        window * cells <= usize::MAX,
    ensures
        i as int == map_axis(p as int, window as int, cells as int),
        i < cells,
{
    let clamped = if p > window {
        window
    } else {
        p
    };
    proof {
        lemma_mul_inequality(clamped as int, window as int, cells as int);
        if p > window {
            lemma_mul_inequality(window as int, p as int, cells as int);
            lemma_div_is_ordered(
                window as int * cells as int,
                p as int * cells as int,
                window as int,
            );
            lemma_div_multiples_vanish(cells as int, window as int);
            lemma_mul_is_commutative(window as int, cells as int);
        }
    }
    let scaled = clamped * cells / window;
    if scaled < cells - 1 {
        scaled
    } else {
        cells - 1
    }
}

/// Maps a pointer position in window pixel space, origin at the top left,
/// onto the grid cell under it: each axis is scaled by `grid extent /
/// window extent` and rounded down, and positions at or beyond the window's
/// edge clamp to the last row or column instead of leaving the grid. The
/// result always lies inside the grid; the caller feeds it to `toggle`.
pub fn pixel_to_cell(
    px: usize,
    py: usize,
    window_width: usize,
    window_height: usize,
    grid_width: usize,
    grid_height: usize,
) -> (cell: (usize, usize))
    requires
        window_width >= 1,
        window_height >= 1,
        grid_width >= 1,
        grid_height >= 1,
        window_width * grid_width <= usize::MAX,
        window_height * grid_height <= usize::MAX,
    ensures
        cell.0 as int == map_axis(py as int, window_height as int, grid_height as int),
        cell.1 as int == map_axis(px as int, window_width as int, grid_width as int),
        cell.0 < grid_height,
        cell.1 < grid_width,
{
    let row = map_axis_exec(py, window_height, grid_height);
    let col = map_axis_exec(px, window_width, grid_width);
    (row, col)
}

/// Boundary of the pointer mapping: pixel 0 lands on cell 0, and the last
/// pixel of the window, `window - 1`, lands on the last cell, `cells - 1`.
/// The second half asks that the axis have no more cells than pixels; a
/// window narrower than the grid puts its last pixel short of the last cell.
pub proof fn lemma_map_axis_boundary(window: int, cells: int)
    requires
        1 <= cells <= window,
    ensures
        map_axis(0, window, cells) == 0,
        map_axis(window - 1, window, cells) == cells - 1,
{
    lemma_fundamental_div_mod_converse(0, window, 0, 0);
    assert((window - 1) * cells == (cells - 1) * window + (window - cells)) by (nonlinear_arith);
    lemma_fundamental_div_mod_converse(
        (window - 1) * cells,
        window,
        cells - 1,
        window - cells,
    );
}

} // verus!
