//! Seeding a grid: from coin flips, and from the text of a seed file.

use crate::cell::packed::{alive_of, lemma_decode, CellError};
use crate::common::IGrid;
use crate::grid::atomic_grid::AtomicGrid;
use crate::grid::census::{consistent, lemma_empty_consistent, lemma_move_keeps_consistent};
use crate::grid::moves::{reported, spawn_outcome, Outcome};
use crate::grid::torus::{
    cell_index, lemma_cell_index, lemma_index_of_parts, lemma_shape_sides, lemma_wrap_range,
    shape_ok,
};
use vstd::prelude::*;

verus! {

/// Why a seed was refused.
#[derive(Clone, Copy, Debug, PartialEq, Eq, Structural)]
pub enum SeedError {
    /// The text is not a table of comma-separated fields, one row to a line,
    /// all rows of one length.
    Malformed,
    /// The table has not one row for each row of the grid and one field for each column.
    DimensionMismatch,
}

/// The error type of the `csv` crate, `csv::Error`. The library only carries
/// it from the reader to the place where it becomes `SeedError::Malformed`.
#[verifier::external_type_specification]
#[verifier::external_body]
pub struct ExCsvError(csv::Error);

/// The rows of fields that the `csv` reader, told that there is no header
/// row, finds in a text; `None` where it reports an error.
pub uninterp spec fn csv_records(contents: Seq<u8>) -> Option<Seq<Seq<Seq<u8>>>>;

/// The outcome of spawning, in the order of their flat index, the cells among
/// the first `n` for which the coin says so, up to the first refusal.
pub open spec fn seeded(s: Seq<u8>, coins: Seq<bool>, n: int, h: int, w: int) -> Outcome
    decreases n,
{
    if n <= 0 {
        Outcome { cells: s, error: None }
    } else {
        let before = seeded(s, coins, n - 1, h, w);
        if before.error is Some || !coins[n - 1] {
            before
        } else {
            spawn_outcome(before.cells, n - 1, h, w)
        }
    }
}

/// The field that says "alive": the single character `1`.
pub open spec fn is_one(field: Seq<u8>) -> bool {
    field.len() == 1 && field[0] == 0x31
}

/// A table fits a grid when it has `h` rows of `w` fields.
pub open spec fn table_fits(rows: Seq<Seq<Seq<u8>>>, h: int, w: int) -> bool {
    rows.len() == h && forall|y: int| 0 <= y < h ==> (#[trigger] rows[y]).len() == w
}

/// The grid that a table of fields describes: a consistent grid in which
/// exactly the cells whose field is `1` are alive. The cell with flat index
/// `i` has the field `i % w` of the row `i / w`.
pub open spec fn drawn(rows: Seq<Seq<Seq<u8>>>, s: Seq<u8>, h: int, w: int) -> bool {
    &&& consistent(s, h, w)
    &&& forall|i: int| 0 <= i < h * w ==> alive_of(#[trigger] s[i]) == is_one(rows[i / w][i % w])
}

/// A fair coin. Calls `rand::random::<bool>()`, which draws a boolean from
/// the thread's random number generator; nothing is claimed of the outcome.
#[verifier::external_body]
fn coin() -> (r: bool) {
    rand::random()
}

/// Reads a text as comma-separated rows without a header row. Calls the
/// `csv` crate: `ReaderBuilder::new().has_headers(false).from_reader(..)`
/// and `Reader::records`, and copies the bytes of every field. The result is
/// what `csv_records` names for the text.
#[verifier::external_body]
fn read_records(contents: &[u8]) -> (r: Result<Vec<Vec<Vec<u8>>>, csv::Error>)
    ensures
        match r {
            Ok(rows) => csv_records(contents@) == Some(rows.deep_view()),
            Err(_) => csv_records(contents@) is None,
        },
{
    let mut reader = csv::ReaderBuilder::new().has_headers(false).from_reader(contents);
    let mut rows = Vec::new();
    for record in reader.records() {
        let record = record?;
        let mut fields = Vec::new();
        for field in record.iter() {
            fields.push(field.as_bytes().to_vec());
        }
        rows.push(fields);
    }
    Ok(rows)
}

/// Once a seeding has been refused, the cells that follow are not spawned.
pub proof fn lemma_seeded_stays_stopped(s: Seq<u8>, coins: Seq<bool>, n: int, m: int, h: int, w: int)
    requires
        0 <= n <= m,
        seeded(s, coins, n, h, w).error is Some,
    ensures
        seeded(s, coins, m, h, w) == seeded(s, coins, n, h, w),
    decreases m - n,
{
    if n < m {
        lemma_seeded_stays_stopped(s, coins, n, m - 1, h, w);
    }
}

/// Seeding a consistent grid whose first `n` cells are dead is never
/// refused: the grid stays consistent, and of those cells exactly the ones
/// picked by the coins are alive.
pub proof fn lemma_seeded_consistent(s: Seq<u8>, coins: Seq<bool>, n: int, h: int, w: int)
    requires
        0 < h,
        0 < w,
        consistent(s, h, w),
        0 <= n <= s.len(),
        forall|i: int| 0 <= i < n ==> !alive_of(#[trigger] s[i]),
    ensures
        seeded(s, coins, n, h, w).error is None,
        consistent(seeded(s, coins, n, h, w).cells, h, w),
        forall|i: int|
            0 <= i < s.len() ==> alive_of(#[trigger] seeded(s, coins, n, h, w).cells[i]) == if i
                < n {
                coins[i]
            } else {
                alive_of(s[i])
            },
    decreases n,
{
    if n > 0 {
        lemma_seeded_consistent(s, coins, n - 1, h, w);
        let before = seeded(s, coins, n - 1, h, w);
        if coins[n - 1] {
            assert(!alive_of(before.cells[n - 1]));
            lemma_move_keeps_consistent(before.cells, n - 1, true, h, w);
        }
    }
}

/// Spawns, in the order of their flat index, the cells for which the coin
/// says so, up to the first refusal. There is to be one coin for each cell.
pub fn seed_cells<const H: usize, const W: usize, G: IGrid<H, W>>(grid: &mut G, coins: &[bool]) -> (r:
    Result<(), CellError>)
    requires
        old(grid).ready(),
        coins@.len() == H * W,
    ensures
        final(grid).ready(),
        final(grid).bytes() == seeded(
            old(grid).bytes(),
            coins@,
            H * W,
            H as int,
            W as int,
        ).cells,
        r == reported(seeded(old(grid).bytes(), coins@, H * W, H as int, W as int)),
        consistent(old(grid).bytes(), H as int, W as int) && (forall|i: int|
            0 <= i < H * W ==> !alive_of(#[trigger] old(grid).bytes()[i])) ==> {
            &&& r is Ok
            &&& consistent(final(grid).bytes(), H as int, W as int)
            &&& forall|i: int|
                0 <= i < H * W ==> alive_of(#[trigger] final(grid).bytes()[i]) == coins@[i]
        },
{
    proof {
        grid.lemma_ready();
        lemma_shape_sides(H as int, W as int);
        if consistent(grid.bytes(), H as int, W as int) && (forall|i: int|
            0 <= i < H * W ==> !alive_of(#[trigger] grid.bytes()[i])) {
            lemma_seeded_consistent(grid.bytes(), coins@, H * W, H as int, W as int);
        }
    }
    let ghost s = grid.bytes();
    let mut i: usize = 0;
    while i < coins.len()
        invariant
            i <= coins@.len(),
            coins@.len() == H * W,
            shape_ok(H as int, W as int),
            H * W <= isize::MAX,
            H <= isize::MAX,
            W <= isize::MAX,
            grid.ready(),
            s == old(grid).bytes(),
            consistent(s, H as int, W as int) && (forall|i: int|
                0 <= i < H * W ==> !alive_of(#[trigger] s[i])) ==> {
                &&& seeded(s, coins@, H * W, H as int, W as int).error is None
                &&& consistent(seeded(s, coins@, H * W, H as int, W as int).cells, H as int, W as int)
                &&& forall|i: int|
                    0 <= i < H * W ==> alive_of(
                        #[trigger] seeded(s, coins@, H * W, H as int, W as int).cells[i],
                    ) == coins@[i]
            },
            seeded(s, coins@, i as int, H as int, W as int) == (Outcome {
                cells: grid.bytes(),
                error: None,
            }),
        decreases coins@.len() - i,
    {
        if coins[i] {
            proof {
                lemma_index_of_parts(i as int, H as int, W as int);
            }
            let x: usize = i % W;
            let y: usize = i / W;
            match grid.spawn(x as isize, y as isize) {
                Ok(()) => {},
                Err(e) => {
                    proof {
                        lemma_seeded_stays_stopped(s, coins@, i + 1, H * W, H as int, W as int);
                    }
                    return Err(e);
                },
            }
        }
        i += 1;
    }
    Ok(())
}

/// Flips `n` coins.
pub(crate) fn flip_coins(n: usize) -> (r: Vec<bool>)
    ensures
        r@.len() == n,
{
    let mut coins: Vec<bool> = Vec::with_capacity(n);
    let mut i: usize = 0;
    while i < n
        invariant
            i <= n,
            coins@.len() == i,
        decreases n - i,
    {
        coins.push(coin());
        i += 1;
    }
    coins
}

/// Spawns each cell of the grid with a probability of one half, each cell on
/// a coin of its own: the grid is seeded with some sequence of coins.
pub fn randomize_grid<const H: usize, const W: usize>(grid: &mut AtomicGrid<H, W>) -> (r: Result<
    (),
    CellError,
>)
    requires
        old(grid).wf(),
    ensures
        final(grid).wf(),
        exists|coins: Seq<bool>|
            {
                &&& coins.len() == H * W
                &&& final(grid)@ == (#[trigger] seeded(
                    old(grid)@,
                    coins,
                    H * W,
                    H as int,
                    W as int,
                )).cells
                &&& r == reported(seeded(old(grid)@, coins, H * W, H as int, W as int))
            },
        consistent(old(grid)@, H as int, W as int) && (forall|i: int|
            0 <= i < H * W ==> !alive_of(#[trigger] old(grid)@[i])) ==> r is Ok && consistent(
            final(grid)@,
            H as int,
            W as int,
        ),
{
    let coins = flip_coins(H * W);
    seed_cells(grid, coins.as_slice())
}

/// The grid that a table of fields describes: the cell at column `x` and row
/// `y` is alive exactly when the field `x` of row `y` is `1`. The table is to
/// have one row for each row of the grid and one field for each column.
pub fn grid_from_records<const H: usize, const W: usize>(rows: &Vec<Vec<Vec<u8>>>) -> (r: Result<
    AtomicGrid<H, W>,
    SeedError,
>)
    requires
        shape_ok(H as int, W as int),
    ensures
        match r {
            Ok(grid) => {
                &&& table_fits(rows.deep_view(), H as int, W as int)
                &&& grid.wf()
                &&& drawn(rows.deep_view(), grid@, H as int, W as int)
            },
            Err(e) => e == SeedError::DimensionMismatch && !table_fits(
                rows.deep_view(),
                H as int,
                W as int,
            ),
        },
{
    let ghost table = rows.deep_view();
    let ghost h = H as int;
    let ghost w = W as int;
    proof {
        lemma_shape_sides(h, w);
    }
    if rows.len() != H {
        return Err(SeedError::DimensionMismatch);
    }
    let mut y: usize = 0;
    while y < H
        invariant
            y <= H,
            rows@.len() == H,
            table == rows.deep_view(),
            forall|j: int| 0 <= j < y ==> (#[trigger] table[j]).len() == W,
        decreases H - y,
    {
        assert(table[y as int] == rows@[y as int].deep_view());
        if rows[y].len() != W {
            return Err(SeedError::DimensionMismatch);
        }
        y += 1;
    }
    let mut grid = AtomicGrid::<H, W>::new();
    proof {
        lemma_empty_consistent(grid@, h, w);
        lemma_decode(0);
    }
    let mut y: usize = 0;
    while y < H
        invariant
            y <= H,
            h == H as int,
            w == W as int,
            shape_ok(h, w),
            H <= isize::MAX,
            W <= isize::MAX,
            table == rows.deep_view(),
            table_fits(table, h, w),
            grid.wf(),
            consistent(grid@, h, w),
            forall|i: int|
                0 <= i < h * w ==> alive_of(#[trigger] grid@[i]) == (i < y * w && is_one(
                    table[i / w][i % w],
                )),
        decreases H - y,
    {
        let mut x: usize = 0;
        while x < W
            invariant
                x <= W,
                y < H,
                h == H as int,
                w == W as int,
                shape_ok(h, w),
                H <= isize::MAX,
                W <= isize::MAX,
                table == rows.deep_view(),
                table_fits(table, h, w),
                grid.wf(),
                consistent(grid@, h, w),
                forall|i: int|
                    0 <= i < h * w ==> alive_of(#[trigger] grid@[i]) == (i < y * w + x && is_one(
                        table[i / w][i % w],
                    )),
            decreases W - x,
        {
            assert(table[y as int] == rows@[y as int].deep_view());
            assert(table[y as int][x as int] == rows@[y as int]@[x as int]@);
            let ghost c = y * w + x;
            proof {
                lemma_cell_index(x as int, y as int, h, w);
                lemma_wrap_range(x as int, w);
                lemma_wrap_range(y as int, h);
                assert(cell_index(x as int, y as int, h, w) == c);
                assert(c / w == y && c % w == x);
            }
            let field = &rows[y][x];
            if field.len() == 1 && field[0] == 0x31 {
                proof {
                    assert(!alive_of(grid@[c]));
                    lemma_move_keeps_consistent(grid@, c, true, h, w);
                }
                let spawned = grid.spawn(x as isize, y as isize);
                assert(spawned is Ok);
            }
            x += 1;
        }
        assert(y * w + w == (y + 1) * w) by (nonlinear_arith);
        y += 1;
    }
    Ok(grid)
}

/// What reading a seed gives for the table that the text holds, if it holds one.
pub open spec fn seed_result<const H: usize, const W: usize>(
    table: Option<Seq<Seq<Seq<u8>>>>,
    r: Result<AtomicGrid<H, W>, SeedError>,
) -> bool {
    match r {
        Ok(grid) => {
            &&& table is Some
            &&& table_fits(table->0, H as int, W as int)
            &&& grid.wf()
            &&& drawn(table->0, grid@, H as int, W as int)
        },
        Err(e) => match table {
            None => e == SeedError::Malformed,
            Some(rows) => e == SeedError::DimensionMismatch && !table_fits(
                rows,
                H as int,
                W as int,
            ),
        },
    }
}

/// The grid that the text of a seed file describes: one row to a line,
/// fields separated by commas, a field `1` for a live cell and anything else
/// for a dead one.
pub fn create_atomic_grid_from_file<const H: usize, const W: usize>(contents: &[u8]) -> (r: Result<
    AtomicGrid<H, W>,
    SeedError,
>)
    requires
        shape_ok(H as int, W as int),
    ensures
        seed_result(csv_records(contents@), r),
{
    match read_records(contents) {
        Ok(rows) => grid_from_records(&rows),
        Err(_) => Err(SeedError::Malformed),
    }
}

} // verus!
