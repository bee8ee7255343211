//! The picture of a grid: one colour for each cell.

use crate::cell::packed::alive_of;
use crate::grid::atomic_grid::AtomicGrid;
use crate::grid::torus::{lemma_cell_index, lemma_shape_sides, lemma_wrap_range};
use vstd::prelude::*;

verus! {

/// The colour of a live cell: white.
pub const COLOR_ALIVE: u32 = 0xFFFFFF;

/// The colour of a dead cell: black.
pub const COLOR_DEAD: u32 = 0x000000;

/// The colour of a cell with the packed byte `b`.
pub open spec fn color_of(b: u8) -> u32 {
    if alive_of(b) {
        COLOR_ALIVE
    } else {
        COLOR_DEAD
    }
}

/// The frame to show for a grid: the colours of its cells, row by row.
pub fn frame<const H: usize, const W: usize>(grid: &AtomicGrid<H, W>) -> (r: Vec<u32>)
    requires
        grid.wf(),
    ensures
        r@.len() == H * W,
        forall|i: int| 0 <= i < H * W ==> r@[i] == color_of(#[trigger] grid@[i]),
{
    proof {
        lemma_shape_sides(H as int, W as int);
    }
    let mut buffer: Vec<u32> = Vec::with_capacity(W * H);
    let mut y: usize = 0;
    while y < H
        invariant
            y <= H,
            grid.wf(),
            H <= isize::MAX,
            W <= isize::MAX,
            buffer@.len() == y * W,
            forall|i: int| 0 <= i < y * W ==> buffer@[i] == color_of(#[trigger] grid@[i]),
        decreases H - y,
    {
        let mut x: usize = 0;
        while x < W
            invariant
                x <= W,
                y < H,
                grid.wf(),
                H <= isize::MAX,
                W <= isize::MAX,
                buffer@.len() == y * W + x,
                forall|i: int| 0 <= i < y * W + x ==> buffer@[i] == color_of(#[trigger] grid@[i]),
            decreases W - x,
        {
            proof {
                lemma_cell_index(x as int, y as int, H as int, W as int);
                lemma_wrap_range(x as int, W as int);
                lemma_wrap_range(y as int, H as int);
            }
            let color = if grid.get(x as isize, y as isize).alive() {
                COLOR_ALIVE
            } else {
                COLOR_DEAD
            };
            buffer.push(color);
            x += 1;
        }
        assert(y * W + W == (y + 1) * W) by (nonlinear_arith);
        y += 1;
    }
    buffer
}

} // verus!
