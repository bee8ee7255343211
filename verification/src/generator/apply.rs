//! The rule applied to the cells of any grid.

use super::rule::{
    applied_cell, applied_column, applied_range, intact, judge, lemma_column_stopped_early,
    lemma_range_stopped_early, Verdict,
};
use crate::cell::packed::{lemma_decode, CellError};
use crate::common::IGrid;
use crate::grid::moves::reported;
use crate::grid::torus::{cell_index, lemma_cell_index, lemma_shape_sides, lemma_wrap_shift};
use std::ops::ControlFlow;
use vstd::prelude::*;

verus! {

/// Applies the rule to the cell at column `x` and row `y` of `grid`, reading
/// `cache`. A cell whose cached byte is zero is skipped, which the result
/// reports as a break.
pub fn apply_cell<const H: usize, const W: usize, G: IGrid<H, W>>(
    cache: &G,
    grid: &mut G,
    x: usize,
    y: usize,
) -> (r: Result<ControlFlow<()>, CellError>)
    requires
        cache.ready(),
        old(grid).ready(),
    ensures
        final(grid).ready(),
        final(grid).bytes() == applied_cell(
            cache.bytes(),
            intact(old(grid).bytes()),
            cell_index(x as int, y as int, H as int, W as int),
            H as int,
            W as int,
        ).cells,
        match r {
            Ok(flow) => {
                &&& applied_cell(
                    cache.bytes(),
                    intact(old(grid).bytes()),
                    cell_index(x as int, y as int, H as int, W as int),
                    H as int,
                    W as int,
                ).error is None
                &&& flow is Break <==> cache.bytes()[cell_index(
                    x as int,
                    y as int,
                    H as int,
                    W as int,
                )] == 0
            },
            Err(e) => applied_cell(
                cache.bytes(),
                intact(old(grid).bytes()),
                cell_index(x as int, y as int, H as int, W as int),
                H as int,
                W as int,
            ).error == Some(e),
        },
{
    proof {
        cache.lemma_ready();
        lemma_shape_sides(H as int, W as int);
        lemma_cell_index(x as int, y as int, H as int, W as int);
        lemma_decode(0);
        lemma_wrap_shift(x as int, 0, W as int);
        lemma_wrap_shift(y as int, 0, H as int);
    }
    let x: isize = (x % W) as isize;
    let y: isize = (y % H) as isize;
    let byte = cache.byte_at(x, y);
    if byte == 0b0000_0000 {
        return Ok(ControlFlow::Break(()));
    }
    let moved = match judge(byte) {
        Verdict::Keep => Ok(()),
        Verdict::Kill => grid.kill(x, y),
        Verdict::Spawn => grid.spawn(x, y),
    };
    match moved {
        Ok(()) => Ok(ControlFlow::Continue(())),
        Err(e) => Err(e),
    }
}

/// Applies the rule to the columns from `x0` up to `xn` and the rows from
/// `y0` up to `yn` of `grid`, column by column, reading `cache`. The first
/// refused move ends it.
pub fn apply_range<const H: usize, const W: usize, G: IGrid<H, W>>(
    cache: &G,
    grid: &mut G,
    x0: usize,
    xn: usize,
    y0: usize,
    yn: usize,
) -> (r: Result<(), CellError>)
    requires
        cache.ready(),
        old(grid).ready(),
    ensures
        final(grid).ready(),
        final(grid).bytes() == applied_range(
            cache.bytes(),
            intact(old(grid).bytes()),
            x0 as int,
            xn as int,
            y0 as int,
            yn as int,
            H as int,
            W as int,
        ).cells,
        r == reported(
            applied_range(
                cache.bytes(),
                intact(old(grid).bytes()),
                x0 as int,
                xn as int,
                y0 as int,
                yn as int,
                H as int,
                W as int,
            ),
        ),
{
    let ghost h = H as int;
    let ghost w = W as int;
    let ghost start = intact(grid.bytes());
    let mut x: usize = x0;
    while x < xn
        invariant
            h == H as int,
            w == W as int,
            cache.ready(),
            grid.ready(),
            start == intact(old(grid).bytes()),
            x0 <= x,
            x <= xn || x == x0,
            applied_range(cache.bytes(), start, x0 as int, x as int, y0 as int, yn as int, h, w) == intact(
                grid.bytes(),
            ),
        decreases xn - x,
    {
        let ghost before = intact(grid.bytes());
        let mut y: usize = y0;
        while y < yn
            invariant
                h == H as int,
                w == W as int,
                cache.ready(),
                grid.ready(),
                start == intact(old(grid).bytes()),
                x0 <= x < xn,
                y0 <= y,
                y <= yn || y == y0,
                before == applied_range(
                    cache.bytes(),
                    start,
                    x0 as int,
                    x as int,
                    y0 as int,
                    yn as int,
                    h,
                    w,
                ),
                applied_column(cache.bytes(), before, x as int, y0 as int, y as int, h, w) == intact(grid.bytes()),
            decreases yn - y,
        {
            match apply_cell(cache, grid, x, y) {
                Ok(_) => {},
                Err(e) => {
                    proof {
                        assert(applied_column(cache.bytes(), before, x as int, y0 as int, y + 1, h, w).error
                            is Some);
                        assert(applied_range(
                            cache.bytes(),
                            start,
                            x0 as int,
                            x + 1,
                            y0 as int,
                            yn as int,
                            h,
                            w,
                        ) == applied_column(cache.bytes(), before, x as int, y0 as int, yn as int, h, w));
                        lemma_column_stopped_early(
                            cache.bytes(),
                            before,
                            x as int,
                            y0 as int,
                            y + 1,
                            yn as int,
                            h,
                            w,
                        );
                        lemma_range_stopped_early(
                            cache.bytes(),
                            start,
                            x0 as int,
                            x + 1,
                            xn as int,
                            y0 as int,
                            yn as int,
                            h,
                            w,
                        );
                    }
                    return Err(e);
                },
            }
            y += 1;
        }
        assert(applied_range(cache.bytes(), start, x0 as int, x + 1, y0 as int, yn as int, h, w)
            == applied_column(cache.bytes(), before, x as int, y0 as int, yn as int, h, w));
        x += 1;
    }
    Ok(())
}

} // verus!
