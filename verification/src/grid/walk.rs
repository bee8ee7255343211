//! The walk of a move over the cells of a grid, written once for every kind of cell.

use super::census::{consistent, lemma_move_keeps_consistent};
use super::moves::{
    blocked, in_range, lemma_move_halt, lemma_move_start, lemma_move_step,
    lemma_shape_stays_stopped, moved, progress, reported, shape_cell, shape_outcome, Outcome,
};
use super::torus::{
    cell_index, flat_index, kernel_coordinates, kernel_dx, kernel_dy, lemma_cell_index,
    lemma_index_of_parts, lemma_shape_sides, lemma_wrap_shift, neighbor_of, shape_ok, wrap,
    wrap_coordinate,
};
use crate::cell::packed::{alive_of, CellError};
use crate::common::Cell;
use vstd::prelude::*;

verus! {

/// The packed bytes of a row of cells.
pub open spec fn bytes_of<C: Cell>(cells: Seq<C>) -> Seq<u8> {
    cells.map_values(|c: C| c.byte())
}

/// Spawns (`up`) or kills the cell at column `x` and row `y` of a grid of `h`
/// rows and `w` columns: changes its flag, then lets each of its eight
/// neighbors step, in kernel order, up to the first that refuses.
pub fn turn_cells<C: Cell>(cells: &mut Vec<C>, x: isize, y: isize, up: bool, h: usize, w: usize) -> (r:
    Result<(), CellError>)
    requires
        shape_ok(h as int, w as int),
        old(cells)@.len() == h * w,
    ensures
        final(cells)@.len() == old(cells)@.len(),
        bytes_of(final(cells)@) == moved(
            bytes_of(old(cells)@),
            cell_index(x as int, y as int, h as int, w as int),
            up,
            h as int,
            w as int,
        ).cells,
        r == reported(
            moved(
                bytes_of(old(cells)@),
                cell_index(x as int, y as int, h as int, w as int),
                up,
                h as int,
                w as int,
            ),
        ),
        consistent(bytes_of(old(cells)@), h as int, w as int) && alive_of(
            bytes_of(old(cells)@)[cell_index(x as int, y as int, h as int, w as int)],
        ) != up ==> r is Ok && consistent(bytes_of(final(cells)@), h as int, w as int),
{
    proof {
        lemma_cell_index(x as int, y as int, h as int, w as int);
        if consistent(bytes_of(cells@), h as int, w as int) && alive_of(
            bytes_of(cells@)[cell_index(x as int, y as int, h as int, w as int)],
        ) != up {
            lemma_move_keeps_consistent(
                bytes_of(cells@),
                cell_index(x as int, y as int, h as int, w as int),
                up,
                h as int,
                w as int,
            );
        }
    }
    let c = flat_index(x, y, h, w);
    let ghost s = bytes_of(cells@);
    let ghost ci = c as int;
    let ghost hi = h as int;
    let ghost wi = w as int;
    if up {
        cells[c].spawn();
    } else {
        cells[c].kill();
    }
    proof {
        lemma_shape_sides(hi, wi);
        lemma_move_start(s, ci, up, hi, wi);
        assert(bytes_of(cells@) =~= progress(s, ci, 0, up, hi, wi));
        lemma_index_of_parts(ci, hi, wi);
    }
    let cx: usize = c % w;
    let cy: usize = c / w;
    let around = kernel_coordinates(cx as isize, cy as isize);
    let mut k: usize = 0;
    while k < 8
        invariant
            k <= 8,
            shape_ok(hi, wi),
            hi == h as int,
            wi == w as int,
            cells@.len() == hi * wi,
            cells@.len() == old(cells)@.len(),
            s == bytes_of(old(cells)@),
            ci == cell_index(x as int, y as int, hi, wi),
            s.len() == hi * wi,
            0 <= ci < s.len(),
            cx == ci % wi,
            cy == ci / wi,
            cx < wi <= isize::MAX,
            cy < hi <= isize::MAX,
            forall|j: int|
                0 <= j < 8 ==> #[trigger] around[j] == (
                    (cx + kernel_dx(j)) as isize,
                    (cy + kernel_dy(j)) as isize,
                ),
            bytes_of(cells@) == progress(s, ci, k as int, up, hi, wi),
            consistent(s, hi, wi) && alive_of(s[ci]) != up ==> moved(s, ci, up, hi, wi).error
                is None && consistent(moved(s, ci, up, hi, wi).cells, hi, wi),
            in_range(s, ci, k as int, up, hi, wi),
            forall|j: int| 0 <= j < k ==> !blocked(s, ci, j, up, hi, wi),
        decreases 8 - k,
    {
        let (nx, ny) = around[k];
        let i = flat_index(nx, ny, h, w);
        assert(i == neighbor_of(ci, k as int, hi, wi));
        let ghost before = bytes_of(cells@);
        let step = if up {
            cells[i].add_neighbor()
        } else {
            cells[i].remove_neighbor()
        };
        match step {
            Ok(()) => {
                proof {
                    lemma_move_step(s, ci, k as int, up, hi, wi);
                    assert(bytes_of(cells@) =~= progress(s, ci, k + 1, up, hi, wi));
                }
            },
            Err(e) => {
                proof {
                    assert(bytes_of(cells@) =~= before);
                    lemma_move_halt(s, ci, 0, k as int, up, hi, wi);
                }
                return Err(e);
            },
        }
        k += 1;
    }
    proof {
        lemma_move_halt(s, ci, 0, 8, up, hi, wi);
    }
    Ok(())
}

/// Spawns the cells at `start` plus each offset, in order, up to the first refusal.
pub fn spawn_cells<C: Cell>(
    cells: &mut Vec<C>,
    start: (isize, isize),
    offsets: &[(isize, isize)],
    h: usize,
    w: usize,
) -> (r: Result<(), CellError>)
    requires
        shape_ok(h as int, w as int),
        old(cells)@.len() == h * w,
    ensures
        final(cells)@.len() == old(cells)@.len(),
        bytes_of(final(cells)@) == shape_outcome(
            bytes_of(old(cells)@),
            start,
            offsets@,
            offsets@.len() as int,
            h as int,
            w as int,
        ).cells,
        r == reported(
            shape_outcome(
                bytes_of(old(cells)@),
                start,
                offsets@,
                offsets@.len() as int,
                h as int,
                w as int,
            ),
        ),
{
    let ghost s = bytes_of(cells@);
    proof {
        lemma_shape_sides(h as int, w as int);
    }
    let sx: usize = wrap_coordinate(start.0, w);
    let sy: usize = wrap_coordinate(start.1, h);
    let mut n: usize = 0;
    while n < offsets.len()
        invariant
            n <= offsets@.len(),
            shape_ok(h as int, w as int),
            cells@.len() == h * w,
            cells@.len() == old(cells)@.len(),
            s == bytes_of(old(cells)@),
            sx == wrap(start.0 as int, w as int),
            sy == wrap(start.1 as int, h as int),
            shape_outcome(s, start, offsets@, n as int, h as int, w as int) == (Outcome {
                cells: bytes_of(cells@),
                error: None,
            }),
        decreases offsets@.len() - n,
    {
        proof {
            lemma_shape_sides(h as int, w as int);
        }
        let (dx, dy) = offsets[n];
        let x: usize = (sx + wrap_coordinate(dx, w)) % w;
        let y: usize = (sy + wrap_coordinate(dy, h)) % h;
        proof {
            lemma_wrap_shift(dx as int, sx as int, w as int);
            lemma_wrap_shift(start.0 as int, dx as int, w as int);
            lemma_wrap_shift(dy as int, sy as int, h as int);
            lemma_wrap_shift(start.1 as int, dy as int, h as int);
            lemma_wrap_shift(start.0 + dx, 0, w as int);
            lemma_wrap_shift(start.1 + dy, 0, h as int);
            assert(cell_index(x as int, y as int, h as int, w as int) == shape_cell(
                start,
                offsets@,
                n as int,
                h as int,
                w as int,
            ));
        }
        match turn_cells(cells, x as isize, y as isize, true, h, w) {
            Ok(()) => {},
            Err(e) => {
                proof {
                    lemma_shape_stays_stopped(
                        s,
                        start,
                        offsets@,
                        n + 1,
                        offsets@.len() as int,
                        h as int,
                        w as int,
                    );
                }
                return Err(e);
            },
        }
        n += 1;
    }
    Ok(())
}

} // verus!
