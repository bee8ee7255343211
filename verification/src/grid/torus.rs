//! The geometry of a torus of `h` rows and `w` columns, stored row by row.

use vstd::arithmetic::div_mod::{
    lemma_add_mod_noop, lemma_fundamental_div_mod, lemma_fundamental_div_mod_converse,
    lemma_mod_multiples_vanish, lemma_small_mod,
};
use vstd::prelude::*;

verus! {

/// A torus needs at least one row and one column, and no more cells than a vector can hold.
pub open spec fn shape_ok(h: int, w: int) -> bool {
    0 < h && 0 < w && h * w <= isize::MAX
}

/// The coordinate `x` brought into `[0, n)` by floor-modulo.
pub open spec fn wrap(x: int, n: int) -> int {
    x % n
}

/// The flat index of the cell at column `x` and row `y`, both wrapped.
pub open spec fn cell_index(x: int, y: int, h: int, w: int) -> int {
    wrap(y, h) * w + wrap(x, w)
}

/// The column offset of the `k`-th entry of the neighbor kernel
/// (NW, N, NE, W, E, SW, S, SE).
pub open spec fn kernel_dx(k: int) -> int {
    if k == 0 || k == 3 || k == 5 {
        -1
    } else if k == 1 || k == 6 {
        0
    } else {
        1
    }
}

/// The row offset of the `k`-th entry of the neighbor kernel.
pub open spec fn kernel_dy(k: int) -> int {
    if k < 3 {
        -1
    } else if k < 5 {
        0
    } else {
        1
    }
}

/// The flat index of the `k`-th neighbor of the cell with flat index `c`.
pub open spec fn neighbor_of(c: int, k: int, h: int, w: int) -> int {
    cell_index(c % w + kernel_dx(k), c / w + kernel_dy(k), h, w)
}

/// How many of the first `k` kernel entries lead from cell `c` to cell `i`.
/// On a torus with fewer than three rows or columns one cell can be the
/// neighbor of another several times over.
pub open spec fn hits(c: int, i: int, k: int, h: int, w: int) -> nat
    decreases k,
{
    if k <= 0 {
        0
    } else {
        hits(c, i, k - 1, h, w) + if neighbor_of(c, k - 1, h, w) == i {
            1nat
        } else {
            0nat
        }
    }
}

/// Neither side of a torus is longer than the whole of it.
pub proof fn lemma_shape_sides(h: int, w: int)
    requires
        shape_ok(h, w),
    ensures
        h <= h * w <= isize::MAX,
        w <= h * w,
{
    assert(h <= h * w && w <= h * w) by (nonlinear_arith)
        requires
            0 < h,
            0 < w,
    ;
}

/// A wrapped coordinate lies in `[0, n)`, and a coordinate already there is its own wrap.
pub proof fn lemma_wrap_range(x: int, n: int)
    requires
        0 < n,
    ensures
        0 <= wrap(x, n) < n,
        0 <= x < n ==> wrap(x, n) == x,
{
    if 0 <= x < n {
        lemma_small_mod(x as nat, n as nat);
    }
}

/// Moving a coordinate by whole turns around the torus does not change its wrap.
pub proof fn lemma_wrap_periodic(x: int, k: int, n: int)
    requires
        0 < n,
    ensures
        wrap(x + k * n, n) == wrap(x, n),
{
    lemma_mod_multiples_vanish(k, x, n);
    assert(n * k + x == x + k * n) by (nonlinear_arith);
}

/// Wrapping before an offset is added changes nothing.
pub proof fn lemma_wrap_shift(x: int, d: int, n: int)
    requires
        0 < n,
    ensures
        wrap(wrap(x, n) + d, n) == wrap(x + d, n),
{
    lemma_add_mod_noop(x, d, n);
    lemma_add_mod_noop(x % n, d, n);
    lemma_wrap_range(x, n);
    lemma_small_mod((x % n) as nat, n as nat);
}

/// A flat index lies in the grid, and its column and row can be read back from it.
pub proof fn lemma_cell_index(x: int, y: int, h: int, w: int)
    requires
        0 < h,
        0 < w,
    ensures
        0 <= cell_index(x, y, h, w) < h * w,
        cell_index(x, y, h, w) % w == wrap(x, w),
        cell_index(x, y, h, w) / w == wrap(y, h),
{
    lemma_wrap_range(x, w);
    lemma_wrap_range(y, h);
    let r = wrap(y, h);
    let c = wrap(x, w);
    assert(r * w + c < h * w) by (nonlinear_arith)
        requires
            0 <= r < h,
            0 <= c < w,
    ;
    assert(0 <= r * w + c) by (nonlinear_arith)
        requires
            0 <= r,
            0 <= c,
            0 < w,
    ;
    assert(r * w + c == r * w + c);
    lemma_fundamental_div_mod_converse(r * w + c, w, r, c);
}

/// A flat index inside the grid is the index of its own column and row.
pub proof fn lemma_index_of_parts(c: int, h: int, w: int)
    requires
        0 < h,
        0 < w,
        0 <= c < h * w,
    ensures
        0 <= c % w < w,
        0 <= c / w < h,
        cell_index(c % w, c / w, h, w) == c,
{
    lemma_fundamental_div_mod(c, w);
    let q = c / w;
    let r = c % w;
    assert(0 <= r < w);
    assert(0 <= q < h) by (nonlinear_arith)
        requires
            c == w * q + r,
            0 <= r < w,
            0 <= c < h * w,
            0 < w,
    ;
    lemma_wrap_range(r, w);
    lemma_wrap_range(q, h);
    assert(q * w + r == c) by (nonlinear_arith)
        requires
            c == w * q + r,
    ;
}

/// Spawning at `(x, y)` and reading at `(x + kx * w, y + ky * h)` meet the same cell.
pub proof fn lemma_toroidal_wraparound(x: int, y: int, kx: int, ky: int, h: int, w: int)
    requires
        0 < h,
        0 < w,
    ensures
        cell_index(x + kx * w, y + ky * h, h, w) == cell_index(x, y, h, w),
{
    lemma_wrap_periodic(x, kx, w);
    lemma_wrap_periodic(y, ky, h);
}

/// The neighbors of the cell at `(x, y)` are the cells at the eight offsets from `(x, y)`.
pub proof fn lemma_neighbor_by_offset(x: int, y: int, k: int, h: int, w: int)
    requires
        0 < h,
        0 < w,
    ensures
        neighbor_of(cell_index(x, y, h, w), k, h, w) == cell_index(
            x + kernel_dx(k),
            y + kernel_dy(k),
            h,
            w,
        ),
        0 <= neighbor_of(cell_index(x, y, h, w), k, h, w) < h * w,
{
    lemma_cell_index(x, y, h, w);
    lemma_wrap_shift(x, kernel_dx(k), w);
    lemma_wrap_shift(y, kernel_dy(k), h);
    lemma_cell_index(x + kernel_dx(k), y + kernel_dy(k), h, w);
}

/// Every neighbor of a cell of the grid is a cell of the grid.
pub proof fn lemma_neighbor_in_grid(c: int, k: int, h: int, w: int)
    requires
        0 < h,
        0 < w,
    ensures
        0 <= neighbor_of(c, k, h, w) < h * w,
{
    lemma_cell_index(c % w + kernel_dx(k), c / w + kernel_dy(k), h, w);
}

/// An offset leads from `a` to `b` exactly when its opposite leads from `b` to `a`.
proof fn lemma_wrap_inverse(a: int, b: int, d: int, n: int)
    requires
        0 < n,
        0 <= a < n,
        0 <= b < n,
    ensures
        wrap(a + d, n) == b <==> wrap(b - d, n) == a,
{
    lemma_wrap_range(a, n);
    lemma_wrap_range(b, n);
    if wrap(a + d, n) == b {
        lemma_wrap_shift(a + d, -d, n);
    }
    if wrap(b - d, n) == a {
        lemma_wrap_shift(b - d, d, n);
    }
}

/// The kernel is symmetric: `i` is the `k`-th neighbor of `c` exactly when `c`
/// is the `(7 - k)`-th neighbor of `i`.
pub proof fn lemma_neighbor_symmetric(c: int, i: int, k: int, h: int, w: int)
    requires
        0 < h,
        0 < w,
        0 <= c < h * w,
        0 <= i < h * w,
        0 <= k < 8,
    ensures
        neighbor_of(c, k, h, w) == i <==> neighbor_of(i, 7 - k, h, w) == c,
{
    lemma_index_of_parts(c, h, w);
    lemma_index_of_parts(i, h, w);
    let (cx, cy) = (c % w, c / w);
    let (ix, iy) = (i % w, i / w);
    let (dx, dy) = (kernel_dx(k), kernel_dy(k));
    assert(kernel_dx(7 - k) == -dx && kernel_dy(7 - k) == -dy);
    lemma_cell_index(cx + dx, cy + dy, h, w);
    lemma_cell_index(ix - dx, iy - dy, h, w);
    lemma_wrap_inverse(cx, ix, dx, w);
    lemma_wrap_inverse(cy, iy, dy, h);
    lemma_wrap_range(cx, w);
    lemma_wrap_range(cy, h);
    lemma_wrap_range(ix, w);
    lemma_wrap_range(iy, h);
    assert(cy * w + cx == c);
    assert(iy * w + ix == i);
    assert(neighbor_of(c, k, h, w) == wrap(cy + dy, h) * w + wrap(cx + dx, w));
    assert(neighbor_of(i, 7 - k, h, w) == wrap(iy - dy, h) * w + wrap(ix - dx, w));
    if neighbor_of(c, k, h, w) == i {
        assert(wrap(cx + dx, w) == ix && wrap(cy + dy, h) == iy);
    }
    if neighbor_of(i, 7 - k, h, w) == c {
        assert(wrap(ix - dx, w) == cx && wrap(iy - dy, h) == cy);
    }
}

/// A cell counts among the neighbors of another as often as the other counts among its own.
pub proof fn lemma_hits_symmetric(c: int, i: int, h: int, w: int)
    requires
        0 < h,
        0 < w,
        0 <= c < h * w,
        0 <= i < h * w,
    ensures
        hits(c, i, 8, h, w) == hits(i, c, 8, h, w),
{
    reveal_with_fuel(hits, 9);
    lemma_neighbor_symmetric(c, i, 0, h, w);
    lemma_neighbor_symmetric(c, i, 1, h, w);
    lemma_neighbor_symmetric(c, i, 2, h, w);
    lemma_neighbor_symmetric(c, i, 3, h, w);
    lemma_neighbor_symmetric(c, i, 4, h, w);
    lemma_neighbor_symmetric(c, i, 5, h, w);
    lemma_neighbor_symmetric(c, i, 6, h, w);
    lemma_neighbor_symmetric(c, i, 7, h, w);
}

/// No cell is hit more often than kernel entries were walked.
pub proof fn lemma_hits_bound(c: int, i: int, k: int, h: int, w: int)
    requires
        0 <= k,
    ensures
        hits(c, i, k, h, w) <= k,
    decreases k,
{
    if k > 0 {
        lemma_hits_bound(c, i, k - 1, h, w);
    }
}

/// Two offsets from one coordinate that differ by less than a turn lead to different places.
pub proof fn lemma_wrap_apart(a: int, d1: int, d2: int, n: int)
    requires
        0 < n,
        d1 != d2,
        -n < d1 - d2 < n,
    ensures
        wrap(a + d1, n) != wrap(a + d2, n),
{
    lemma_fundamental_div_mod(a + d1, n);
    lemma_fundamental_div_mod(a + d2, n);
    let q1 = (a + d1) / n;
    let q2 = (a + d2) / n;
    if wrap(a + d1, n) == wrap(a + d2, n) {
        assert(d1 - d2 == n * (q1 - q2)) by (nonlinear_arith)
            requires
                a + d1 == n * q1 + (a + d1) % n,
                a + d2 == n * q2 + (a + d2) % n,
                (a + d1) % n == (a + d2) % n,
        ;
        assert(q1 == q2) by (nonlinear_arith)
            requires
                d1 - d2 == n * (q1 - q2),
                -n < d1 - d2 < n,
                0 < n,
        ;
    }
}

/// On a torus with at least three rows and three columns the eight neighbors
/// of a cell are eight different cells, and none of them is the cell itself.
pub proof fn lemma_neighbors_distinct(c: int, j: int, k: int, h: int, w: int)
    requires
        3 <= h,
        3 <= w,
        0 <= c < h * w,
        0 <= j < 8,
        0 <= k < 8,
    ensures
        neighbor_of(c, k, h, w) != c,
        j != k ==> neighbor_of(c, j, h, w) != neighbor_of(c, k, h, w),
{
    lemma_index_of_parts(c, h, w);
    let (cx, cy) = (c % w, c / w);
    lemma_cell_index(cx + kernel_dx(k), cy + kernel_dy(k), h, w);
    lemma_cell_index(cx + kernel_dx(j), cy + kernel_dy(j), h, w);
    lemma_cell_index(cx, cy, h, w);
    if kernel_dx(k) != 0 {
        lemma_wrap_apart(cx, kernel_dx(k), 0, w);
    } else {
        lemma_wrap_apart(cy, kernel_dy(k), 0, h);
    }
    if j != k {
        if kernel_dx(j) != kernel_dx(k) {
            lemma_wrap_apart(cx, kernel_dx(j), kernel_dx(k), w);
        } else {
            lemma_wrap_apart(cy, kernel_dy(j), kernel_dy(k), h);
        }
    }
}

/// On a torus with at least three rows and three columns a cell is hit once
/// if it is one of the first `k` neighbors, and not at all otherwise.
pub proof fn lemma_hits_at_most_once(c: int, i: int, k: int, h: int, w: int)
    requires
        3 <= h,
        3 <= w,
        0 <= c < h * w,
        0 <= k <= 8,
    ensures
        hits(c, i, k, h, w) == if exists|j: int| 0 <= j < k && neighbor_of(c, j, h, w) == i {
            1nat
        } else {
            0nat
        },
        hits(c, c, k, h, w) == 0,
    decreases k,
{
    if k > 0 {
        lemma_hits_at_most_once(c, i, k - 1, h, w);
        lemma_neighbors_distinct(c, 0, k - 1, h, w);
        if neighbor_of(c, k - 1, h, w) == i {
            assert forall|j: int| 0 <= j < k - 1 implies neighbor_of(c, j, h, w) != i by {
                lemma_neighbors_distinct(c, j, k - 1, h, w);
            }
        } else {
            if exists|j: int| 0 <= j < k && neighbor_of(c, j, h, w) == i {
                let j = choose|j: int| 0 <= j < k && neighbor_of(c, j, h, w) == i;
                assert(0 <= j < k - 1 && neighbor_of(c, j, h, w) == i);
            }
        }
    }
}

/// Whether `h` rows and `w` columns are the shape of a torus.
pub fn shape_fits(h: usize, w: usize) -> (r: bool)
    ensures
        r == shape_ok(h as int, w as int),
{
    if h == 0 || w == 0 {
        return false;
    }
    let most: usize = (isize::MAX as usize) / h;
    proof {
        let q = (isize::MAX as int) / (h as int);
        lemma_fundamental_div_mod(isize::MAX as int, h as int);
        if w <= q {
            assert(h * w <= isize::MAX) by (nonlinear_arith)
                requires
                    isize::MAX == h * q + (isize::MAX as int) % (h as int),
                    0 <= (isize::MAX as int) % (h as int),
                    0 <= w <= q,
                    0 < h,
            ;
        } else {
            assert(h * w > isize::MAX) by (nonlinear_arith)
                requires
                    isize::MAX == h * q + (isize::MAX as int) % (h as int),
                    (isize::MAX as int) % (h as int) < h,
                    w >= q + 1,
                    0 < h,
            ;
        }
    }
    w <= most
}

/// Wraps one coordinate into `[0, n)`.
pub fn wrap_coordinate(x: isize, n: usize) -> (r: usize)
    requires
        0 < n <= isize::MAX,
    ensures
        r == wrap(x as int, n as int),
        r < n,
{
    let w: isize = n as isize;
    let m: isize = x % w;
    proof {
        lemma_wrap_range(x as int, n as int);
        if x < 0 {
            let a = (-(x as int)) % (w as int);
            let q = (-(x as int)) / (w as int);
            lemma_fundamental_div_mod(-(x as int), w as int);
            if a == 0 {
                assert(x as int == (-q) * (w as int) + 0) by (nonlinear_arith)
                    requires
                        -(x as int) == (w as int) * q + a,
                        a == 0,
                ;
                lemma_fundamental_div_mod_converse(x as int, w as int, -q, 0);
            } else {
                assert(x as int == (-q - 1) * (w as int) + (w - a)) by (nonlinear_arith)
                    requires
                        -(x as int) == (w as int) * q + a,
                ;
                lemma_fundamental_div_mod_converse(x as int, w as int, -q - 1, w - a);
            }
        }
    }
    if m < 0 {
        (m + w) as usize
    } else {
        m as usize
    }
}

/// The flat index of the cell at column `x` and row `y`.
pub fn flat_index(x: isize, y: isize, h: usize, w: usize) -> (r: usize)
    requires
        shape_ok(h as int, w as int),
    ensures
        r == cell_index(x as int, y as int, h as int, w as int),
        r < h * w,
{
    proof {
        lemma_cell_index(x as int, y as int, h as int, w as int);
        assert(h <= h * w && w <= h * w) by (nonlinear_arith)
            requires
                0 < h,
                0 < w,
        ;
    }
    let wrapped_x = wrap_coordinate(x, w);
    let wrapped_y = wrap_coordinate(y, h);
    assert(wrapped_y * w + wrapped_x < h * w) by (nonlinear_arith)
        requires
            wrapped_y < h,
            wrapped_x < w,
    ;
    wrapped_y * w + wrapped_x
}

/// The coordinates at the eight kernel offsets from `(x, y)`, in kernel order.
/// At the ends of the integer range an offset wraps to the other end.
pub fn kernel_coordinates(x: isize, y: isize) -> (r: [(isize, isize); 8])
    ensures
        r[0] == (x.wrapping_sub(1), y.wrapping_sub(1)),
        r[1] == (x, y.wrapping_sub(1)),
        r[2] == (x.wrapping_add(1), y.wrapping_sub(1)),
        r[3] == (x.wrapping_sub(1), y),
        r[4] == (x.wrapping_add(1), y),
        r[5] == (x.wrapping_sub(1), y.wrapping_add(1)),
        r[6] == (x, y.wrapping_add(1)),
        r[7] == (x.wrapping_add(1), y.wrapping_add(1)),
        isize::MIN < x < isize::MAX && isize::MIN < y < isize::MAX ==> forall|k: int|
            0 <= k < 8 ==> #[trigger] r[k] == ((x + kernel_dx(k)) as isize, (y + kernel_dy(k)) as isize),
{
    [
        (x.wrapping_sub(1), y.wrapping_sub(1)),
        (x, y.wrapping_sub(1)),
        (x.wrapping_add(1), y.wrapping_sub(1)),
        (x.wrapping_sub(1), y),
        (x.wrapping_add(1), y),
        (x.wrapping_sub(1), y.wrapping_add(1)),
        (x, y.wrapping_add(1)),
        (x.wrapping_add(1), y.wrapping_add(1)),
    ]
}

} // verus!
