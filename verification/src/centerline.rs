use vstd::prelude::*;
use crate::geom::{
    SCALE, Vec2, clamp_spec, clamp64, dist_sq, dist_sq_spec, div_floor128, is_isqrt, isqrt128,
    isqrt_s, lemma_div_bounds, lemma_isqrt_exists, lemma_isqrt_unique, lemma_mul_bounds,
    mul_div_floor, mul64, mul128, narrow64,
};
use crate::grid::TrackGrid;
use crate::tile::TilePart;
use crate::trig::{
    ANGLE_HALF_TURN, atan2_fp, atan2_fp_spec, cos_fp, cos_fp_spec, sin_fp, sin_fp_spec,
    wrap_angle, wrap_angle_spec,
};

verus! {

/// Cardinal directions in grid space.
#[derive(Clone, Copy, Debug, PartialEq, Eq, Hash, Structural)]
pub enum GridDir {
    North,
    South,
    East,
    West,
}

impl GridDir {
    pub open spec fn opposite_spec(self) -> GridDir {
        match self {
            GridDir::North => GridDir::South,
            GridDir::South => GridDir::North,
            GridDir::East => GridDir::West,
            GridDir::West => GridDir::East,
        }
    }

    /// Returns the opposite direction.
    pub fn opposite(self) -> (r: GridDir)
        ensures
            r == self.opposite_spec(),
    {
        match self {
            GridDir::North => GridDir::South,
            GridDir::South => GridDir::North,
            GridDir::East => GridDir::West,
            GridDir::West => GridDir::East,
        }
    }

    /// The `(d_row, d_col)` offset for this direction, as mathematical
    /// integers. Row indices grow southward.
    pub open spec fn delta_spec(self) -> (int, int) {
        match self {
            GridDir::North => (-1, 0),
            GridDir::South => (1, 0),
            GridDir::East => (0, 1),
            GridDir::West => (0, -1),
        }
    }

    /// Returns the `(d_row, d_col)` offset for this direction.
    pub fn delta(self) -> (r: (isize, isize))
        ensures
            (r.0 as int, r.1 as int) == self.delta_spec(),
    {
        match self {
            GridDir::North => (-1, 0),
            GridDir::South => (1, 0),
            GridDir::East => (0, 1),
            GridDir::West => (0, -1),
        }
    }
}

/// Errors that can occur while constructing a centerline from a tile grid.
/// Every variant is a structural defect in the authored track, detected once
/// at compile time and fatal: no session may run on a failed build.
#[derive(Clone, Debug)]
pub enum CenterlineBuildError {
    /// The start cell was out of bounds or not a road tile.
    InvalidStartCell { row: usize, col: usize },
    /// A road tile did not provide a valid next step.
    DeadEnd { row: usize, col: usize },
    /// A road tile provided multiple next-step options (branching track).
    AmbiguousBranch { row: usize, col: usize, options: Vec<GridDir> },
    /// The traversal failed to close back to the start.
    NotClosedLoop,
    /// The computed loop was too short to be meaningful.
    TooShort,
}

/// Mathematical outcome of the grid traversal: either the ordered cells and
/// step directions of the closed loop, or the defect that stopped it.
pub enum TraversalOutcome {
    Closed { cells: Seq<(int, int)>, dirs: Seq<GridDir> },
    BadStart,
    Blocked { row: int, col: int },
    Branching { row: int, col: int, options: Seq<GridDir> },
    Reentered,
    OutOfFuel,
}

/// The open directions of `tile` excluding `incoming`, in the fixed order
/// north, south, east, west.
pub open spec fn dir_options(tile: TilePart, incoming: GridDir) -> Seq<GridDir> {
    let oe = tile.open_edges_spec();
    (if oe.0 && incoming != GridDir::North {
        seq![GridDir::North]
    } else {
        seq![]
    }) + (if oe.1 && incoming != GridDir::South {
        seq![GridDir::South]
    } else {
        seq![]
    }) + (if oe.2 && incoming != GridDir::East {
        seq![GridDir::East]
    } else {
        seq![]
    }) + (if oe.3 && incoming != GridDir::West {
        seq![GridDir::West]
    } else {
        seq![]
    })
}

/// The cell reached by one step in `dir` (may leave the grid, or go
/// negative).
pub open spec fn step_cell_spec(cell: (int, int), dir: GridDir) -> (int, int) {
    (cell.0 + dir.delta_spec().0, cell.1 + dir.delta_spec().1)
}

/// One traversal state: standing on `current` having entered against
/// `incoming`, with the visited `cells` and the step `dirs` so far. At each
/// cell exactly one open direction (other than the one just arrived from)
/// must remain; stepping into the start closes the loop, stepping into a
/// visited cell is a re-entry, and stepping off the road is a dead end.
pub open spec fn traverse_rec(
    grid: TrackGrid,
    current: (int, int),
    incoming: GridDir,
    cells: Seq<(int, int)>,
    dirs: Seq<GridDir>,
    start: (int, int),
    fuel: nat,
) -> TraversalOutcome
    decreases fuel,
{
    if fuel == 0 {
        TraversalOutcome::OutOfFuel
    } else {
        let opts = dir_options(grid.tile_at_spec(current.0, current.1), incoming);
        if opts.len() == 0 {
            TraversalOutcome::Blocked { row: current.0, col: current.1 }
        } else if opts.len() > 1 {
            TraversalOutcome::Branching { row: current.0, col: current.1, options: opts }
        } else {
            let d = opts[0];
            let next = step_cell_spec(current, d);
            if next.0 < 0 || next.1 < 0 {
                TraversalOutcome::Blocked { row: current.0, col: current.1 }
            } else {
                let dirs2 = dirs.push(d);
                if next == start {
                    TraversalOutcome::Closed { cells: cells, dirs: dirs2 }
                } else if cells.contains(next) {
                    TraversalOutcome::Reentered
                } else if grid.tile_at_spec(next.0, next.1) == TilePart::Empty {
                    TraversalOutcome::Blocked { row: current.0, col: current.1 }
                } else {
                    traverse_rec(
                        grid,
                        next,
                        d.opposite_spec(),
                        cells.push(next),
                        dirs2,
                        start,
                        (fuel - 1) as nat,
                    )
                }
            }
        }
    }
}

/// Outcome of the whole traversal from `start` stepping first in
/// `start_dir`. The first step takes `start_dir` on trust; every later step
/// must be the unique remaining open direction.
pub open spec fn traverse_outcome(grid: TrackGrid, start: (int, int), start_dir: GridDir)
    -> TraversalOutcome {
    if grid.tile_at_spec(start.0, start.1) == TilePart::Empty {
        TraversalOutcome::BadStart
    } else {
        let next = step_cell_spec(start, start_dir);
        if next.0 < 0 || next.1 < 0 {
            TraversalOutcome::Blocked { row: start.0, col: start.1 }
        } else if next == start {
            TraversalOutcome::Closed { cells: seq![start], dirs: seq![start_dir] }
        } else if grid.tile_at_spec(next.0, next.1) == TilePart::Empty {
            TraversalOutcome::Blocked { row: start.0, col: start.1 }
        } else {
            traverse_rec(
                grid,
                next,
                start_dir.opposite_spec(),
                seq![start, next],
                seq![start_dir],
                start,
                (grid.rows_spec() * grid.cols_spec() + 1) as nat,
            )
        }
    }
}

/// The executable cell list matches the mathematical one, pointwise.
pub open spec fn cells_correspond(v: Seq<(usize, usize)>, s: Seq<(int, int)>) -> bool {
    &&& v.len() == s.len()
    &&& forall|i: int| 0 <= i < v.len() ==> #[trigger] s[i] == (v[i].0 as int, v[i].1 as int)
}

/// How many entries of `s` are `true`.
pub open spec fn count_true(s: Seq<bool>) -> int
    decreases s.len(),
{
    if s.len() == 0 {
        0
    } else {
        count_true(s.drop_last()) + (if s.last() {
            1int
        } else {
            0int
        })
    }
}

proof fn lemma_count_true_le(s: Seq<bool>)
    ensures
        0 <= count_true(s) <= s.len(),
    decreases s.len(),
{
    if s.len() > 0 {
        lemma_count_true_le(s.drop_last());
    }
}

proof fn lemma_count_true_all_false(s: Seq<bool>)
    requires
        forall|i: int| 0 <= i < s.len() ==> !(#[trigger] s[i]),
    ensures
        count_true(s) == 0,
    decreases s.len(),
{
    if s.len() > 0 {
        assert(forall|i: int| 0 <= i < s.drop_last().len() ==> !(#[trigger] s.drop_last()[i]));
        lemma_count_true_all_false(s.drop_last());
    }
}

proof fn lemma_count_true_update(s: Seq<bool>, i: int)
    requires
        0 <= i < s.len(),
        !s[i],
    ensures
        count_true(s.update(i, true)) == count_true(s) + 1,
    decreases s.len(),
{
    let t = s.update(i, true);
    if i == s.len() - 1 {
        assert(t.drop_last() =~= s.drop_last());
    } else {
        assert(t.drop_last() =~= s.drop_last().update(i, true));
        lemma_count_true_update(s.drop_last(), i);
    }
}

proof fn lemma_seq_push_contains<A>(s: Seq<A>, x: A, y: A)
    ensures
        s.push(x).contains(y) <==> (s.contains(y) || y == x),
{
    if s.contains(y) {
        let i = choose|i: int| 0 <= i < s.len() && s[i] == y;
        assert(s.push(x)[i] == y);
    }
    assert(s.push(x)[s.len() as int] == x);
    if s.push(x).contains(y) {
        let i = choose|i: int| 0 <= i < s.push(x).len() && s.push(x)[i] == y;
        if i < s.len() {
            assert(s[i] == y);
        }
    }
}

proof fn lemma_cell_index_distinct(r1: int, c1: int, r2: int, c2: int, ncols: int)
    by (nonlinear_arith)
    requires
        0 <= c1 < ncols,
        0 <= c2 < ncols,
        0 <= r1,
        0 <= r2,
        (r1, c1) != (r2, c2),
    ensures
        r1 * ncols + c1 != r2 * ncols + c2,
{
}

/// The occupancy array marks exactly the cells listed in `gcells`.
pub open spec fn visited_matches(visited: Seq<bool>, gcells: Seq<(int, int)>, nrows: int, ncols: int)
    -> bool {
    forall|rr: int, cc: int|
        0 <= rr < nrows && 0 <= cc < ncols ==> (visited[rr * ncols + cc] <==> #[trigger]
        gcells.contains((rr, cc)))
}

/// Every listed cell lies inside the grid.
pub open spec fn cells_in_bounds(gcells: Seq<(int, int)>, nrows: int, ncols: int) -> bool {
    forall|p: (int, int)| #[trigger] gcells.contains(p) ==> 0 <= p.0 < nrows && 0 <= p.1 < ncols
}

proof fn lemma_visited_init(
    base: Seq<bool>,
    s: (int, int),
    n: (int, int),
    nrows: int,
    ncols: int,
)
    requires
        base.len() == nrows * ncols,
        forall|i: int| 0 <= i < base.len() ==> !(#[trigger] base[i]),
        0 <= s.0 < nrows,
        0 <= s.1 < ncols,
        0 <= n.0 < nrows,
        0 <= n.1 < ncols,
        s != n,
        nrows <= 4096,
        ncols <= 4096,
    ensures
        visited_matches(
            base.update(s.0 * ncols + s.1, true).update(n.0 * ncols + n.1, true),
            seq![s, n],
            nrows,
            ncols,
        ),
        cells_in_bounds(seq![s, n], nrows, ncols),
{
    assert(0 <= s.0 * ncols + s.1 < nrows * ncols && 0 <= n.0 * ncols + n.1 < nrows * ncols)
        by (nonlinear_arith)
        requires
            0 <= s.0 < nrows,
            0 <= s.1 < ncols,
            0 <= n.0 < nrows,
            0 <= n.1 < ncols,
    ;
    let v = base.update(s.0 * ncols + s.1, true).update(n.0 * ncols + n.1, true);
    let g: Seq<(int, int)> = seq![s, n];
    assert(g[0] == s && g[1] == n);
    assert forall|p: (int, int)| #[trigger] g.contains(p) implies p == s || p == n by {
        let i = choose|i: int| 0 <= i < g.len() && g[i] == p;
    }
    lemma_cell_index_distinct(s.0, s.1, n.0, n.1, ncols);
    assert forall|rr: int, cc: int| 0 <= rr < nrows && 0 <= cc < ncols implies (v[rr * ncols + cc]
        <==> #[trigger] g.contains((rr, cc))) by {
        assert(0 <= rr * ncols + cc < nrows * ncols) by (nonlinear_arith)
            requires
                0 <= rr < nrows,
                0 <= cc < ncols,
        ;
        if (rr, cc) == s || (rr, cc) == n {
            assert(g.contains((rr, cc)));
        } else {
            lemma_cell_index_distinct(rr, cc, s.0, s.1, ncols);
            lemma_cell_index_distinct(rr, cc, n.0, n.1, ncols);
            assert(!v[rr * ncols + cc]);
        }
    }
}

proof fn lemma_visited_insert(
    visited: Seq<bool>,
    gcells: Seq<(int, int)>,
    nrows: int,
    ncols: int,
    n: (int, int),
)
    requires
        visited.len() == nrows * ncols,
        visited_matches(visited, gcells, nrows, ncols),
        cells_in_bounds(gcells, nrows, ncols),
        0 <= n.0 < nrows,
        0 <= n.1 < ncols,
        !gcells.contains(n),
        nrows <= 4096,
        ncols <= 4096,
    ensures
        visited_matches(visited.update(n.0 * ncols + n.1, true), gcells.push(n), nrows, ncols),
        cells_in_bounds(gcells.push(n), nrows, ncols),
        !visited[n.0 * ncols + n.1],
{
    assert(0 <= n.0 * ncols + n.1 < nrows * ncols) by (nonlinear_arith)
        requires
            0 <= n.0 < nrows,
            0 <= n.1 < ncols,
    ;
    let v = visited.update(n.0 * ncols + n.1, true);
    let g = gcells.push(n);
    assert forall|p: (int, int)| #[trigger] g.contains(p) implies 0 <= p.0 < nrows && 0 <= p.1
        < ncols by {
        lemma_seq_push_contains(gcells, n, p);
    }
    assert forall|rr: int, cc: int| 0 <= rr < nrows && 0 <= cc < ncols implies (v[rr * ncols + cc]
        <==> #[trigger] g.contains((rr, cc))) by {
        assert(0 <= rr * ncols + cc < nrows * ncols) by (nonlinear_arith)
            requires
                0 <= rr < nrows,
                0 <= cc < ncols,
        ;
        lemma_seq_push_contains(gcells, n, (rr, cc));
        if (rr, cc) != n {
            lemma_cell_index_distinct(rr, cc, n.0, n.1, ncols);
        }
    }
}

/// Row-major index of a cell in a flattened occupancy array.
fn cell_index(row: usize, col: usize, nrows: usize, ncols: usize) -> (idx: usize)
    requires
        row < nrows,
        col < ncols,
        nrows <= 4096,
        ncols <= 4096,
    ensures
        idx == row * ncols + col,
        idx < nrows * ncols,
{
    proof {
        assert((row as int) * (ncols as int) + (col as int) < (nrows as int) * (ncols as int)
            && (nrows as int) * (ncols as int) <= 0x100_0000) by (nonlinear_arith)
            requires
                0 <= (row as int) < (nrows as int) <= 4096,
                0 <= (col as int) < (ncols as int) <= 4096,
        ;
    }
    row * ncols + col
}

/// The open directions of `tile` other than `incoming`, in the fixed order
/// north, south, east, west.
fn dir_options_exec(tile: TilePart, incoming: GridDir) -> (r: Vec<GridDir>)
    ensures
        r@ == dir_options(tile, incoming),
{
    let (open_n, open_s, open_e, open_w) = tile.open_edges();
    let mut options: Vec<GridDir> = Vec::new();
    if open_n && incoming != GridDir::North {
        options.push(GridDir::North);
    }
    if open_s && incoming != GridDir::South {
        options.push(GridDir::South);
    }
    if open_e && incoming != GridDir::East {
        options.push(GridDir::East);
    }
    if open_w && incoming != GridDir::West {
        options.push(GridDir::West);
    }
    proof {
        assert(options@ =~= dir_options(tile, incoming));
    }
    options
}

/// One grid step from `cell` in `dir`; `None` when the step would leave the
/// index space toward negative row or column.
fn step_cell(cell: (usize, usize), dir: GridDir) -> (r: Option<(usize, usize)>)
    requires
        cell.0 <= 4096,
        cell.1 <= 4096,
    ensures
        match r {
            Some(n) => step_cell_spec((cell.0 as int, cell.1 as int), dir) == (
                n.0 as int,
                n.1 as int,
            ),
            None => step_cell_spec((cell.0 as int, cell.1 as int), dir).0 < 0
                || step_cell_spec((cell.0 as int, cell.1 as int), dir).1 < 0,
        },
{
    match dir {
        GridDir::North => if cell.0 == 0 {
            None
        } else {
            Some((cell.0 - 1, cell.1))
        },
        GridDir::South => Some((cell.0 + 1, cell.1)),
        GridDir::East => Some((cell.0, cell.1 + 1)),
        GridDir::West => if cell.1 == 0 {
            None
        } else {
            Some((cell.0, cell.1 - 1))
        },
    }
}

/// Walks the grid cell-to-cell from `start_cell`, first in `start_dir`,
/// Walks the grid cell-to-cell from `start_cell`, first in `start_dir`,
/// requiring a unique continuation at every cell, until the walk steps back
/// into the start cell. Returns the ordered cells and step directions of the
/// closed loop, or the first defect found.
#[verifier::rlimit(80)]
pub(crate) fn traverse_cells(
    grid: &TrackGrid,
    start_cell: (usize, usize),
    start_dir: GridDir,
) -> (r: Result<(Vec<(usize, usize)>, Vec<GridDir>), CenterlineBuildError>)
    requires
        grid.wf(),
    ensures
        ({
            let o = traverse_outcome(*grid, (start_cell.0 as int, start_cell.1 as int), start_dir);
            match r {
                Ok(cd) => {
                    &&& o matches TraversalOutcome::Closed { cells, dirs }
                    &&& cells_correspond(cd.0@, cells)
                    &&& cd.1@ == dirs
                    &&& cd.0@.len() == cd.1@.len()
                    &&& 1 <= cd.0@.len() <= grid.rows_spec() * grid.cols_spec()
                    &&& forall|i: int|
                        0 <= i < cd.0@.len() ==> ((#[trigger] cd.0@[i]).0 < grid.rows_spec()
                            && cd.0@[i].1 < grid.cols_spec())
                },
                Err(e) => match e {
                    CenterlineBuildError::InvalidStartCell { row, col } => o
                        == TraversalOutcome::BadStart && row == start_cell.0 && col
                        == start_cell.1,
                    CenterlineBuildError::DeadEnd { row, col } => o == (TraversalOutcome::Blocked {
                        row: row as int,
                        col: col as int,
                    }),
                    CenterlineBuildError::AmbiguousBranch { row, col, options } => o == (
                    TraversalOutcome::Branching {
                        row: row as int,
                        col: col as int,
                        options: options@,
                    }),
                    CenterlineBuildError::NotClosedLoop => o == TraversalOutcome::Reentered,
                    CenterlineBuildError::TooShort => false,
                },
            }
        }),
{
    let ghost gstart: (int, int) = (start_cell.0 as int, start_cell.1 as int);
    let ghost outcome = traverse_outcome(*grid, gstart, start_dir);
    let t0 = grid.tile_at(start_cell.0, start_cell.1);
    if t0 == TilePart::Empty {
        return Err(CenterlineBuildError::InvalidStartCell { row: start_cell.0, col: start_cell.1 });
    }
    let nrows = grid.rows();
    let ncols = grid.cols();
    let next0 = match step_cell(start_cell, start_dir) {
        None => {
            return Err(CenterlineBuildError::DeadEnd { row: start_cell.0, col: start_cell.1 });
        },
        Some(n) => n,
    };
    if next0.0 == start_cell.0 && next0.1 == start_cell.1 {
        let mut cells: Vec<(usize, usize)> = Vec::new();
        cells.push(start_cell);
        let mut dirs: Vec<GridDir> = Vec::new();
        dirs.push(start_dir);
        proof {
            assert(cells@ =~= seq![start_cell]);
            assert(dirs@ =~= seq![start_dir]);
            assert(0 <= (start_cell.0 as int) < grid.rows_spec());
            assert(0 <= (start_cell.1 as int) < grid.cols_spec());
            assert(1 <= grid.rows_spec() * grid.cols_spec()) by (nonlinear_arith)
                requires
                    1 <= grid.rows_spec(),
                    1 <= grid.cols_spec(),
            ;
        }
        return Ok((cells, dirs));
    }
    let t1 = grid.tile_at(next0.0, next0.1);
    if t1 == TilePart::Empty {
        return Err(CenterlineBuildError::DeadEnd { row: start_cell.0, col: start_cell.1 });
    }
    let ghost gnext0: (int, int) = (next0.0 as int, next0.1 as int);
    proof {
        assert(0 <= gstart.0 < nrows && 0 <= gstart.1 < ncols);
        assert(0 <= gnext0.0 < nrows && 0 <= gnext0.1 < ncols);
        assert((nrows as int) * (ncols as int) <= 0x100_0000) by (nonlinear_arith)
            requires
                0 <= (nrows as int) <= 4096,
                0 <= (ncols as int) <= 4096,
        ;
    }
    let total = nrows * ncols;
    let mut visited: Vec<bool> = vec![false; total];
    proof {
        lemma_count_true_all_false(visited@);
        lemma_visited_init(visited@, gstart, gnext0, nrows as int, ncols as int);
    }
    let i_start = cell_index(start_cell.0, start_cell.1, nrows, ncols);
    proof {
        lemma_count_true_update(visited@, i_start as int);
    }
    visited[i_start] = true;
    let i_next = cell_index(next0.0, next0.1, nrows, ncols);
    proof {
        lemma_cell_index_distinct(gstart.0, gstart.1, gnext0.0, gnext0.1, ncols as int);
        lemma_count_true_update(visited@, i_next as int);
    }
    visited[i_next] = true;
    let mut cells: Vec<(usize, usize)> = Vec::new();
    cells.push(start_cell);
    cells.push(next0);
    let mut dirs: Vec<GridDir> = Vec::new();
    dirs.push(start_dir);
    let ghost mut gcells: Seq<(int, int)> = seq![gstart, gnext0];
    let mut current = next0;
    let mut incoming = start_dir.opposite();
    proof {
        lemma_count_true_le(visited@);
        assert(dirs@ =~= seq![start_dir]);
    }
    loop
        invariant
            grid.wf(),
            nrows == grid.rows_spec(),
            ncols == grid.cols_spec(),
            nrows <= 4096,
            ncols <= 4096,
            visited@.len() == (nrows as int) * (ncols as int),
            2 <= gcells.len() <= (nrows as int) * (ncols as int),
            count_true(visited@) == gcells.len(),
            cells@.len() == gcells.len(),
            dirs@.len() == gcells.len() - 1,
            forall|i: int|
                0 <= i < gcells.len() ==> #[trigger] gcells[i] == (
                    cells@[i].0 as int,
                    cells@[i].1 as int,
                ),
            cells_in_bounds(gcells, nrows as int, ncols as int),
            visited_matches(visited@, gcells, nrows as int, ncols as int),
            current.0 < nrows,
            current.1 < ncols,
            gstart == (start_cell.0 as int, start_cell.1 as int),
            outcome == traverse_outcome(*grid, gstart, start_dir),
            traverse_rec(
                *grid,
                (current.0 as int, current.1 as int),
                incoming,
                gcells,
                dirs@,
                gstart,
                ((nrows as int) * (ncols as int) + 3 - gcells.len()) as nat,
            ) == outcome,
        decreases (nrows as int) * (ncols as int) + 3 - gcells.len(),
    {
        let ghost fuel: nat = ((nrows as int) * (ncols as int) + 3 - gcells.len()) as nat;
        let ghost gcur: (int, int) = (current.0 as int, current.1 as int);
        let opts = dir_options_exec(grid.tile_at(current.0, current.1), incoming);
        if opts.len() == 0 {
            return Err(CenterlineBuildError::DeadEnd { row: current.0, col: current.1 });
        }
        if opts.len() > 1 {
            return Err(
                CenterlineBuildError::AmbiguousBranch {
                    row: current.0,
                    col: current.1,
                    options: opts,
                },
            );
        }
        let d = opts[0];
        let next = match step_cell(current, d) {
            None => {
                return Err(CenterlineBuildError::DeadEnd { row: current.0, col: current.1 });
            },
            Some(n) => n,
        };
        let ghost gnext: (int, int) = (next.0 as int, next.1 as int);
        let ghost gdirs0 = dirs@;
        dirs.push(d);
        if next.0 == start_cell.0 && next.1 == start_cell.1 {
            proof {
                assert(gnext == gstart);
                assert(outcome == (TraversalOutcome::Closed { cells: gcells, dirs: dirs@ }));
                assert forall|i: int| 0 <= i < cells@.len() implies ((#[trigger] cells@[i]).0
                    < nrows && cells@[i].1 < ncols) by {
                    assert(gcells.contains(gcells[i]));
                }
            }
            return Ok((cells, dirs));
        }
        if next.0 < nrows && next.1 < ncols {
            let idx = cell_index(next.0, next.1, nrows, ncols);
            if visited[idx] {
                proof {
                    assert(gcells.contains(gnext));
                }
                return Err(CenterlineBuildError::NotClosedLoop);
            }
        }
        let t = grid.tile_at(next.0, next.1);
        if t == TilePart::Empty {
            proof {
                if 0 <= gnext.0 < nrows && 0 <= gnext.1 < ncols {
                    assert(!visited@[gnext.0 * (ncols as int) + gnext.1]);
                    assert(!gcells.contains(gnext));
                } else {
                    assert(!gcells.contains(gnext));
                }
            }
            return Err(CenterlineBuildError::DeadEnd { row: current.0, col: current.1 });
        }
        proof {
            assert(0 <= gnext.0 < nrows && 0 <= gnext.1 < ncols);
            assert(!visited@[gnext.0 * (ncols as int) + gnext.1]);
            assert(!gcells.contains(gnext));
            assert(dirs@ == gdirs0.push(d));
            assert(traverse_rec(*grid, gcur, incoming, gcells, gdirs0, gstart, fuel)
                == traverse_rec(
                *grid,
                gnext,
                d.opposite_spec(),
                gcells.push(gnext),
                gdirs0.push(d),
                gstart,
                (fuel - 1) as nat,
            ));
        }
        let idx = cell_index(next.0, next.1, nrows, ncols);
        proof {
            lemma_count_true_update(visited@, idx as int);
            lemma_visited_insert(visited@, gcells, nrows as int, ncols as int, gnext);
        }
        visited[idx] = true;
        cells.push(next);
        proof {
            gcells = gcells.push(gnext);
            lemma_count_true_le(visited@);
        }
        incoming = d.opposite();
        current = next;
    }
}


/// Number of samples used to approximate each quarter-circle centerline arc.
pub const CENTERLINE_ARC_SAMPLES: i64 = 8;

/// Squared distance at or under which two consecutive polyline points are
/// collapsed into one.
pub const DUP_EPS_SQ: i128 = 2;

/// Every centerline point of a well-formed grid fits well under this.
pub const POINT_LIMIT: i64 = 0x4_0000_0000;

/// A `Vec2` from mathematical integers known to be in range.
pub open spec fn vec2_of(x: int, y: int) -> Vec2 {
    Vec2 { x: x as i64, y: y as i64 }
}

/// World-space unit offset of a grid direction: world y grows northward.
pub open spec fn dir_unit_spec(dir: GridDir) -> (int, int) {
    match dir {
        GridDir::North => (0, 1),
        GridDir::South => (0, -1),
        GridDir::East => (1, 0),
        GridDir::West => (-1, 0),
    }
}

/// Two points close enough to be treated as one polyline vertex.
pub open spec fn near_spec(a: Vec2, b: Vec2) -> bool {
    dist_sq_spec(a, b) <= DUP_EPS_SQ
}

/// Append `p` unless it nearly coincides with the last point.
pub open spec fn push_unique_spec(pts: Seq<Vec2>, p: Vec2) -> Seq<Vec2> {
    if pts.len() > 0 && near_spec(pts.last(), p) {
        pts
    } else {
        pts.push(p)
    }
}

/// All points lie within the coordinate budget of centerline geometry.
pub open spec fn points_bounded(pts: Seq<Vec2>) -> bool {
    forall|i: int|
        0 <= i < pts.len() ==> -POINT_LIMIT <= (#[trigger] pts[i]).x <= POINT_LIMIT
            && -POINT_LIMIT <= pts[i].y <= POINT_LIMIT
}

/// Consecutive points are farther apart than the collapse threshold.
pub open spec fn points_separated(pts: Seq<Vec2>) -> bool {
    forall|i: int| 0 <= i < pts.len() - 1 ==> dist_sq_spec(#[trigger] pts[i], pts[i + 1]) > DUP_EPS_SQ
}

/// Center of the centerline arc of a corner tile: the cell corner diagonally
/// opposite the open-edge pair. Non-corner tiles give the cell center.
pub open spec fn arc_center_spec(tile: TilePart, cx: int, cy: int, half: int) -> (int, int) {
    match tile {
        TilePart::CornerNW => (cx + half, cy - half),
        TilePart::CornerNE => (cx - half, cy - half),
        TilePart::CornerSW => (cx + half, cy + half),
        TilePart::CornerSE => (cx - half, cy + half),
        _ => (cx, cy),
    }
}

/// The sample point on a circle of `radius` around `(cx, cy)` at angle `a`.
pub open spec fn arc_point_spec(cx: int, cy: int, radius: int, a: int) -> Vec2 {
    vec2_of(
        cx + (cos_fp_spec(a) * radius) / (SCALE as int),
        cy + (sin_fp_spec(a) * radius) / (SCALE as int),
    )
}

/// Push arc samples `i..=n` at evenly swept angles from `a0`, collapsing
/// near-duplicates.
pub open spec fn push_arc_samples_spec(
    pts: Seq<Vec2>,
    cx: int,
    cy: int,
    radius: int,
    a0: int,
    delta: int,
    i: int,
    n: int,
) -> Seq<Vec2>
    decreases n + 1 - i,
{
    if i > n || n < i {
        pts
    } else {
        let a = a0 + (delta * i) / n;
        push_arc_samples_spec(
            push_unique_spec(pts, arc_point_spec(cx, cy, radius, a)),
            cx,
            cy,
            radius,
            a0,
            delta,
            i + 1,
            n,
        )
    }
}

/// The polyline contribution of one traversed cell: its entry-edge midpoint,
/// then either sampled quarter-circle arc points (corner tiles) or the
/// exit-edge midpoint.
pub open spec fn cell_polyline_step(
    grid: TrackGrid,
    acc: Seq<Vec2>,
    cell: (int, int),
    prev_dir: GridDir,
    exit_dir: GridDir,
) -> Seq<Vec2> {
    let c = grid.cell_center_spec(cell.0, cell.1);
    let half = grid.tile_size / 2;
    let entry_dir = prev_dir.opposite_spec();
    let entry = vec2_of(
        c.0 + dir_unit_spec(entry_dir).0 * half,
        c.1 + dir_unit_spec(entry_dir).1 * half,
    );
    let exit = vec2_of(
        c.0 + dir_unit_spec(exit_dir).0 * half,
        c.1 + dir_unit_spec(exit_dir).1 * half,
    );
    let pts1 = push_unique_spec(acc, entry);
    let tile = grid.tile_at_spec(cell.0, cell.1);
    if tile.is_corner_spec() {
        let a = arc_center_spec(tile, c.0, c.1, half);
        let a0 = atan2_fp_spec(entry.y - a.1, entry.x - a.0);
        let a1 = atan2_fp_spec(exit.y - a.1, exit.x - a.0);
        let delta = wrap_angle_spec(a1 - a0);
        push_arc_samples_spec(pts1, a.0, a.1, half, a0, delta, 1, CENTERLINE_ARC_SAMPLES as int)
    } else {
        push_unique_spec(pts1, exit)
    }
}

/// Fold `cell_polyline_step` over the traversed cells from index `i` on.
pub open spec fn polyline_rec(
    grid: TrackGrid,
    cells: Seq<(int, int)>,
    dirs: Seq<GridDir>,
    i: int,
    acc: Seq<Vec2>,
) -> Seq<Vec2>
    decreases cells.len() - i,
{
    if i < 0 || i >= cells.len() {
        acc
    } else {
        let prev_dir = if i == 0 {
            dirs[dirs.len() - 1]
        } else {
            dirs[i - 1]
        };
        polyline_rec(grid, cells, dirs, i + 1, cell_polyline_step(grid, acc, cells[i], prev_dir, dirs[i]))
    }
}

/// The world-space polyline of a traversed closed loop: per-cell entry, arc
/// or exit points with near-duplicates collapsed, and the final point
/// dropped when it nearly coincides with the first.
pub open spec fn polyline_spec(grid: TrackGrid, cells: Seq<(int, int)>, dirs: Seq<GridDir>)
    -> Seq<Vec2> {
    let pts = polyline_rec(grid, cells, dirs, 0, seq![]);
    if pts.len() >= 1 && near_spec(pts.last(), pts[0]) {
        pts.drop_last()
    } else {
        pts
    }
}

/// Length of polyline segment `i` (from point `i` to the next point, with
/// wraparound): the integer square root of the squared distance.
pub open spec fn seg_len_spec(points: Seq<Vec2>, i: int) -> int {
    isqrt_s(dist_sq_spec(points[i], points[(i + 1) % (points.len() as int)]))
}

/// Sum of the lengths of segments `0..i`.
pub open spec fn cum_lengths_spec(points: Seq<Vec2>, i: int) -> int
    decreases i,
{
    if i <= 0 {
        0
    } else {
        cum_lengths_spec(points, i - 1) + seg_len_spec(points, i - 1)
    }
}

proof fn lemma_seg_nonneg(points: Seq<Vec2>, k: int)
    requires
        0 <= k < points.len(),
    ensures
        seg_len_spec(points, k) >= 0,
{
    let a = points[k];
    let b = points[(k + 1) % (points.len() as int)];
    assert(dist_sq_spec(a, b) >= 0) by (nonlinear_arith);
    lemma_isqrt_exists(dist_sq_spec(a, b));
}

/// Cumulative lengths are nondecreasing in the segment index.
proof fn lemma_cum_monotone(points: Seq<Vec2>, i: int, j: int)
    requires
        0 <= i <= j,
        j <= points.len(),
    ensures
        cum_lengths_spec(points, i) <= cum_lengths_spec(points, j),
    decreases j - i,
{
    if i < j {
        lemma_cum_monotone(points, i, j - 1);
        lemma_seg_nonneg(points, j - 1);
    }
}

/// Append `p` unless it nearly coincides with the current last point.
fn push_unique(points: &mut Vec<Vec2>, p: Vec2)
    requires
        points_bounded(old(points)@),
        points_separated(old(points)@),
        -POINT_LIMIT <= p.x <= POINT_LIMIT,
        -POINT_LIMIT <= p.y <= POINT_LIMIT,
    ensures
        final(points)@ == push_unique_spec(old(points)@, p),
        points_bounded(final(points)@),
        points_separated(final(points)@),
        old(points)@.len() <= final(points)@.len() <= old(points)@.len() + 1,
{
    if points.len() > 0 {
        let last = points[points.len() - 1];
        let d2 = dist_sq(last, p);
        if d2 <= 2 {
            return ;
        }
    }
    points.push(p);
}

/// The midpoint of the cell edge in direction `dir` from the cell center.
fn edge_point(c: Vec2, dir: GridDir, half: i64) -> (v: Vec2)
    requires
        -0x3_0000_0000 <= c.x <= 0x3_0000_0000,
        -0x3_0000_0000 <= c.y <= 0x3_0000_0000,
        0 <= half <= 0x80_0000,
    ensures
        v.x == c.x + dir_unit_spec(dir).0 * half,
        v.y == c.y + dir_unit_spec(dir).1 * half,
        -POINT_LIMIT <= v.x <= POINT_LIMIT,
        -POINT_LIMIT <= v.y <= POINT_LIMIT,
{
    match dir {
        GridDir::North => Vec2 { x: c.x, y: c.y + half },
        GridDir::South => Vec2 { x: c.x, y: c.y - half },
        GridDir::East => Vec2 { x: c.x + half, y: c.y },
        GridDir::West => Vec2 { x: c.x - half, y: c.y },
    }
}

/// The centerline arc center of a corner tile around `center`.
fn corner_arc_center(tile: TilePart, center: Vec2, half: i64) -> (v: Vec2)
    requires
        -0x3_0000_0000 <= center.x <= 0x3_0000_0000,
        -0x3_0000_0000 <= center.y <= 0x3_0000_0000,
        0 <= half <= 0x80_0000,
    ensures
        v.x == arc_center_spec(tile, center.x as int, center.y as int, half as int).0,
        v.y == arc_center_spec(tile, center.x as int, center.y as int, half as int).1,
        -0x3_0080_0000 <= v.x <= 0x3_0080_0000,
        -0x3_0080_0000 <= v.y <= 0x3_0080_0000,
{
    match tile {
        TilePart::CornerNW => Vec2 { x: center.x + half, y: center.y - half },
        TilePart::CornerNE => Vec2 { x: center.x - half, y: center.y - half },
        TilePart::CornerSW => Vec2 { x: center.x + half, y: center.y + half },
        TilePart::CornerSE => Vec2 { x: center.x - half, y: center.y + half },
        _ => center,
    }
}

/// Push evenly swept quarter-circle samples from the entry point around
/// `center` to the exit point, excluding the entry (already pushed) and
/// including the exit.
#[verifier::rlimit(60)]
fn push_corner_arc_samples(
    points: &mut Vec<Vec2>,
    center: Vec2,
    radius: i64,
    entry: Vec2,
    exit: Vec2,
)
    requires
        points_bounded(old(points)@),
        points_separated(old(points)@),
        -0x3_0080_0000 <= center.x <= 0x3_0080_0000,
        -0x3_0080_0000 <= center.y <= 0x3_0080_0000,
        -POINT_LIMIT <= entry.x <= POINT_LIMIT,
        -POINT_LIMIT <= entry.y <= POINT_LIMIT,
        -POINT_LIMIT <= exit.x <= POINT_LIMIT,
        -POINT_LIMIT <= exit.y <= POINT_LIMIT,
        0 <= radius <= 0x80_0000,
    ensures
        final(points)@ == ({
            let a0 = atan2_fp_spec(entry.y - center.y as int, entry.x - center.x as int);
            let a1 = atan2_fp_spec(exit.y - center.y as int, exit.x - center.x as int);
            let delta = wrap_angle_spec(a1 - a0);
            push_arc_samples_spec(
                old(points)@,
                center.x as int,
                center.y as int,
                radius as int,
                a0,
                delta,
                1,
                CENTERLINE_ARC_SAMPLES as int,
            )
        }),
        points_bounded(final(points)@),
        points_separated(final(points)@),
        old(points)@.len() <= final(points)@.len() <= old(points)@.len()
            + CENTERLINE_ARC_SAMPLES,
{
    let a0 = atan2_fp(entry.y - center.y, entry.x - center.x);
    let a1 = atan2_fp(exit.y - center.y, exit.x - center.x);
    let delta = wrap_angle(a1 - a0);
    let ghost pts0 = points@;
    let mut i: i64 = 1;
    while i <= CENTERLINE_ARC_SAMPLES
        invariant
            1 <= i <= CENTERLINE_ARC_SAMPLES + 1,
            -ANGLE_HALF_TURN <= a0 <= ANGLE_HALF_TURN,
            -ANGLE_HALF_TURN < delta <= ANGLE_HALF_TURN,
            -0x3_0080_0000 <= center.x <= 0x3_0080_0000,
            -0x3_0080_0000 <= center.y <= 0x3_0080_0000,
            0 <= radius <= 0x80_0000,
            points_bounded(points@),
            points_separated(points@),
            pts0.len() <= points@.len() <= pts0.len() + i - 1,
            push_arc_samples_spec(
                pts0,
                center.x as int,
                center.y as int,
                radius as int,
                a0 as int,
                delta as int,
                1,
                CENTERLINE_ARC_SAMPLES as int,
            ) == push_arc_samples_spec(
                points@,
                center.x as int,
                center.y as int,
                radius as int,
                a0 as int,
                delta as int,
                i as int,
                CENTERLINE_ARC_SAMPLES as int,
            ),
        decreases CENTERLINE_ARC_SAMPLES + 1 - i,
    {
        let prod = mul64(delta, i);
        proof {
            crate::geom::lemma_mul_bounds(delta as int, i as int, ANGLE_HALF_TURN as int, 8);
        }
        let off = div_floor128(prod as i128, CENTERLINE_ARC_SAMPLES as i128);
        proof {
            lemma_div_bounds(prod as int, CENTERLINE_ARC_SAMPLES as int, 0x80_0000);
        }
        let a = a0 + narrow64(off);
        let ca = cos_fp(a);
        let sa = sin_fp(a);
        let cr = mul64(ca, radius);
        let sr = mul64(sa, radius);
        proof {
            crate::geom::lemma_mul_bounds(ca as int, radius as int, SCALE as int, 0x80_0000);
            crate::geom::lemma_mul_bounds(sa as int, radius as int, SCALE as int, 0x80_0000);
            lemma_div_bounds(cr as int, SCALE as int, 0x80_0000_0000);
            lemma_div_bounds(sr as int, SCALE as int, 0x80_0000_0000);
        }
        let px = center.x + narrow64(div_floor128(cr, SCALE as i128));
        let py = center.y + narrow64(div_floor128(sr, SCALE as i128));
        let p = Vec2 { x: px, y: py };
        let ghost before = points@;
        proof {
            assert(p == arc_point_spec(center.x as int, center.y as int, radius as int, a as int));
            assert(a as int == a0 + (delta as int * i as int) / (CENTERLINE_ARC_SAMPLES as int));
            assert(push_arc_samples_spec(
                before,
                center.x as int,
                center.y as int,
                radius as int,
                a0 as int,
                delta as int,
                i as int,
                CENTERLINE_ARC_SAMPLES as int,
            ) == push_arc_samples_spec(
                push_unique_spec(before, p),
                center.x as int,
                center.y as int,
                radius as int,
                a0 as int,
                delta as int,
                i as int + 1,
                CENTERLINE_ARC_SAMPLES as int,
            ));
        }
        push_unique(points, p);
        i = i + 1;
    }
}

/// Builds the world-space polyline of a traversed closed loop: each cell
/// contributes its entry-edge midpoint and then either quarter-circle arc
/// samples (corners) or its exit-edge midpoint; near-duplicate consecutive
/// points are collapsed, and a final point that nearly coincides with the
/// first is dropped.
#[verifier::rlimit(100)]
fn build_polyline_points(
    grid: &TrackGrid,
    cells: &Vec<(usize, usize)>,
    dirs: &Vec<GridDir>,
    Ghost(gcells): Ghost<Seq<(int, int)>>,
) -> (r: Vec<Vec2>)
    requires
        grid.wf(),
        cells@.len() == dirs@.len(),
        1 <= cells@.len(),
        cells_correspond(cells@, gcells),
        forall|i: int|
            0 <= i < cells@.len() ==> ((#[trigger] cells@[i]).0 < grid.rows_spec()
                && cells@[i].1 < grid.cols_spec()),
    ensures
        r@ == polyline_spec(*grid, gcells, dirs@),
        points_bounded(r@),
        points_separated(r@),
        r@.len() <= 9 * cells@.len(),
{
    let n = cells.len();
    let mut points: Vec<Vec2> = Vec::new();
    let mut i: usize = 0;
    while i < n
        invariant
            grid.wf(),
            n == cells@.len(),
            cells@.len() == dirs@.len(),
            1 <= n,
            cells_correspond(cells@, gcells),
            forall|k: int|
                0 <= k < cells@.len() ==> ((#[trigger] cells@[k]).0 < grid.rows_spec()
                    && cells@[k].1 < grid.cols_spec()),
            0 <= i <= n,
            points_bounded(points@),
            points_separated(points@),
            points@.len() <= 9 * i,
            polyline_rec(*grid, gcells, dirs@, 0, seq![]) == polyline_rec(
                *grid,
                gcells,
                dirs@,
                i as int,
                points@,
            ),
        decreases n - i,
    {
        let cell = cells[i];
        let tile = grid.tile_at(cell.0, cell.1);
        let center = grid.cell_center(cell.0, cell.1);
        let half = grid.tile_size / 2;
        let prev_dir = if i == 0 {
            dirs[n - 1]
        } else {
            dirs[i - 1]
        };
        let entry_dir = prev_dir.opposite();
        let exit_dir = dirs[i];
        let entry = edge_point(center, entry_dir, half);
        let exit = edge_point(center, exit_dir, half);
        let ghost before = points@;
        let ghost gc = grid.cell_center_spec(gcells[i as int].0, gcells[i as int].1);
        proof {
            assert(gcells[i as int] == (cell.0 as int, cell.1 as int));
            assert(entry == vec2_of(
                gc.0 + dir_unit_spec(entry_dir).0 * (half as int),
                gc.1 + dir_unit_spec(entry_dir).1 * (half as int),
            ));
            assert(exit == vec2_of(
                gc.0 + dir_unit_spec(exit_dir).0 * (half as int),
                gc.1 + dir_unit_spec(exit_dir).1 * (half as int),
            ));
        }
        push_unique(&mut points, entry);
        if tile.is_corner() {
            let ac = corner_arc_center(tile, center, half);
            push_corner_arc_samples(&mut points, ac, half, entry, exit);
        } else {
            push_unique(&mut points, exit);
        }
        proof {
            assert(points@ == cell_polyline_step(
                *grid,
                before,
                gcells[i as int],
                prev_dir,
                dirs@[i as int],
            ));
            assert(polyline_rec(*grid, gcells, dirs@, i as int, before) == polyline_rec(
                *grid,
                gcells,
                dirs@,
                i as int + 1,
                points@,
            ));
        }
        i += 1;
    }
    let ghost pts = points@;
    proof {
        assert(polyline_rec(*grid, gcells, dirs@, n as int, pts) == pts);
    }
    if points.len() >= 1 {
        let first = points[0];
        let last = points[points.len() - 1];
        let d2 = dist_sq(last, first);
        if d2 <= 2 {
            points.pop();
            proof {
                assert(points@ =~= pts.drop_last());
            }
        }
    }
    points
}

/// Cumulative arc length at each polyline point, and the total loop length.
fn compute_lengths(points: &Vec<Vec2>) -> (r: (Vec<i64>, i64))
    requires
        1 <= points@.len() <= 0x40_0000,
        points_bounded(points@),
    ensures
        r.0@.len() == points@.len(),
        forall|i: int| 0 <= i < points@.len() ==> #[trigger] r.0@[i] == cum_lengths_spec(
            points@,
            i,
        ),
        r.1 == cum_lengths_spec(points@, points@.len() as int),
{
    let n = points.len();
    let mut cumulative: Vec<i64> = Vec::new();
    let mut total: i64 = 0;
    let mut i: usize = 0;
    while i < n
        invariant
            n == points@.len(),
            1 <= n <= 0x40_0000,
            points_bounded(points@),
            0 <= i <= n,
            cumulative@.len() == i,
            forall|k: int| 0 <= k < i ==> #[trigger] cumulative@[k] == cum_lengths_spec(
                points@,
                k,
            ),
            total == cum_lengths_spec(points@, i as int),
            0 <= total <= (i as int) * 0x10_0000_0000,
        decreases n - i,
    {
        cumulative.push(total);
        let j = if i + 1 == n {
            0
        } else {
            i + 1
        };
        let d2 = dist_sq(points[i], points[j]);
        proof {
            assert(0 <= d2 < 0x100_0000_0000_0000_0000) by (nonlinear_arith)
                requires
                    d2 == dist_sq_spec(points@[i as int], points@[j as int]),
                    -POINT_LIMIT <= points@[i as int].x <= POINT_LIMIT,
                    -POINT_LIMIT <= points@[i as int].y <= POINT_LIMIT,
                    -POINT_LIMIT <= points@[j as int].x <= POINT_LIMIT,
                    -POINT_LIMIT <= points@[j as int].y <= POINT_LIMIT,
            ;
        }
        let seg = isqrt128(d2);
        proof {
            assert((i as int + 1) % (n as int) == j as int) by (nonlinear_arith)
                requires
                    0 <= (i as int) < (n as int),
                    j as int == (if i as int + 1 == n as int { 0int } else { i as int + 1 }),
            ;
            assert(seg == seg_len_spec(points@, i as int));
            assert(0 <= seg < 0x10_0000_0000) by (nonlinear_arith)
                requires
                    is_isqrt(d2 as int, seg as int),
                    0 <= d2 < 0x100_0000_0000_0000_0000,
            ;
        }
        total = total + seg;
        i += 1;
    }
    (cumulative, total)
}

/// A closed polyline centerline for progress measurement.
///
/// The centerline is an ordered sequence of world-space points in traversal
/// order; segment `i` connects point `i` to point `(i + 1) % N`. It carries
/// a cumulative arc-length table and the total loop length, derived once
/// from a grid and immutable afterwards.
pub struct TrackCenterline {
    /// World-space polyline points, in traversal order.
    pub points: Vec<Vec2>,
    /// Cumulative arc length from the loop start to each point; filled by
    /// the builder and read-only afterwards.
    pub cumulative_lengths: Vec<i64>,
    /// Total arc length of the closed loop; filled by the builder.
    pub total_length: i64,
}

impl TrackCenterline {
    /// The cumulative arc-length table: entry `i` is the arc length from the
    /// start of the loop to point `i`.
    pub open spec fn cum_seq(self) -> Seq<i64> {
        self.cumulative_lengths@
    }

    /// The total arc length of the closed loop.
    pub open spec fn total_spec(self) -> int {
        self.total_length as int
    }

    /// Well-formedness: at least three bounded, pairwise-separated points,
    /// a cumulative table that matches the segment lengths, and a positive
    /// total length.
    pub open spec fn wf(self) -> bool {
        &&& 3 <= self.points@.len() <= 0x40_0000
        &&& points_bounded(self.points@)
        &&& points_separated(self.points@)
        &&& self.cum_seq().len() == self.points@.len()
        &&& forall|i: int| 0 <= i < self.points@.len() ==> #[trigger] self.cum_seq()[i]
            == cum_lengths_spec(self.points@, i)
        &&& self.total_spec() == cum_lengths_spec(self.points@, self.points@.len() as int)
        &&& self.total_spec() > 0
    }

    /// Total arc length of the closed polyline.
    pub fn total_length(&self) -> (r: i64)
        ensures
            r == self.total_spec(),
    {
        self.total_length
    }

    /// Builds a closed centerline by traversing grid connectivity from
    /// `start_cell`, stepping first in `start_dir`.
    ///
    /// The track must form a single closed degree-2 loop: junction tiles
    /// that leave more than one way forward are rejected as ambiguous rather
    /// than guessed through. On success the centerline follows the midline
    /// of each tile: straights as segments between open-edge midpoints,
    /// corners as sampled quarter-circle arcs.
    pub fn build_closed_loop(grid: &TrackGrid, start_cell: (usize, usize), start_dir: GridDir)
        -> (r: Result<TrackCenterline, CenterlineBuildError>)
        requires
            grid.wf(),
        ensures
            ({
                let o = traverse_outcome(
                    *grid,
                    (start_cell.0 as int, start_cell.1 as int),
                    start_dir,
                );
                match r {
                    Ok(c) => {
                        &&& o matches TraversalOutcome::Closed { cells, dirs }
                        &&& c.points@ == polyline_spec(*grid, cells, dirs)
                        &&& c.wf()
                    },
                    Err(e) => match e {
                        CenterlineBuildError::InvalidStartCell { row, col } => o
                            == TraversalOutcome::BadStart && row == start_cell.0 && col
                            == start_cell.1,
                        CenterlineBuildError::DeadEnd { row, col } => o == (
                        TraversalOutcome::Blocked { row: row as int, col: col as int }),
                        CenterlineBuildError::AmbiguousBranch { row, col, options } => o == (
                        TraversalOutcome::Branching {
                            row: row as int,
                            col: col as int,
                            options: options@,
                        }),
                        CenterlineBuildError::NotClosedLoop => o == TraversalOutcome::Reentered,
                        CenterlineBuildError::TooShort => {
                            &&& o matches TraversalOutcome::Closed { cells, dirs }
                            &&& polyline_spec(*grid, cells, dirs).len() < 3
                        },
                    },
                }
            }),
    {
        let (cells, dirs) = match traverse_cells(grid, start_cell, start_dir) {
            Err(e) => {
                return Err(e);
            },
            Ok(cd) => cd,
        };
        let ghost o = traverse_outcome(*grid, (start_cell.0 as int, start_cell.1 as int), start_dir);
        let ghost gcells = o->Closed_cells;
        let points = build_polyline_points(grid, &cells, &dirs, Ghost(gcells));
        if points.len() < 3 {
            return Err(CenterlineBuildError::TooShort);
        }
        proof {
            assert(9 * cells@.len() <= 9 * (grid.rows_spec() * grid.cols_spec())
                <= 0x40_0000) by (nonlinear_arith)
                requires
                    cells@.len() <= grid.rows_spec() * grid.cols_spec(),
                    0 <= grid.rows_spec() <= 512,
                    0 <= grid.cols_spec() <= 512,
            ;
        }
        let (cumulative_lengths, total_length) = compute_lengths(&points);
        proof {
            lemma_cum_monotone(points@, 1, points@.len() as int);
            assert((0int + 1) % (points@.len() as int) == 1int) by (nonlinear_arith)
                requires
                    3 <= points@.len(),
            ;
            let d2 = dist_sq_spec(points@[0], points@[1]);
            lemma_isqrt_exists(d2);
            assert(d2 > 2);
            assert(isqrt_s(d2) >= 1) by (nonlinear_arith)
                requires
                    is_isqrt(d2, isqrt_s(d2)),
                    d2 > 2,
            ;
            assert(seg_len_spec(points@, 0) == isqrt_s(d2));
            assert(cum_lengths_spec(points@, 0) == 0);
            assert(cum_lengths_spec(points@, 1) == seg_len_spec(points@, 0));
        }
        Ok(TrackCenterline { points, cumulative_lengths, total_length })
    }
}

/// Result of projecting a point onto a centerline.
#[derive(Clone, Copy, Debug, PartialEq, Eq, Structural)]
pub struct CenterlineProjection {
    /// Closest point on the centerline polyline.
    pub closest_point: Vec2,
    /// Tangent of the closest segment, as a `SCALE`-scaled unit vector.
    pub tangent: Vec2,
    /// Arc-length distance along the track from the start point.
    pub s: i64,
    /// `s / total_length`, `SCALE`-scaled, in `[0, SCALE]`.
    pub fraction: i64,
    /// Euclidean distance from the query point to `closest_point`.
    pub distance: i64,
}

/// The vector along polyline segment `i` (wrapping around at the end).
pub open spec fn proj_cand_delta(points: Seq<Vec2>, i: int) -> (int, int) {
    let n = points.len() as int;
    (points[(i + 1) % n].x - points[i].x, points[(i + 1) % n].y - points[i].y)
}

/// Squared length of segment `i`.
pub open spec fn proj_cand_len2(points: Seq<Vec2>, i: int) -> int {
    let d = proj_cand_delta(points, i);
    d.0 * d.0 + d.1 * d.1
}

/// Segments of zero length are skipped as degenerate.
pub open spec fn proj_cand_valid(points: Seq<Vec2>, i: int) -> bool {
    proj_cand_len2(points, i) > 0
}

/// The projection parameter of `w` onto segment `i`, as the dot product
/// clamped into `[0, len2]` (so the parameter `t = dot / len2` lies in
/// `[0, 1]`).
pub open spec fn proj_cand_dot(points: Seq<Vec2>, i: int, w: Vec2) -> int {
    let a = points[i];
    let d = proj_cand_delta(points, i);
    clamp_spec((w.x - a.x) * d.0 + (w.y - a.y) * d.1, 0, proj_cand_len2(points, i))
}

/// The clamped projection of `w` onto segment `i`, rounded to the lattice.
pub open spec fn proj_cand_point(points: Seq<Vec2>, i: int, w: Vec2) -> Vec2 {
    let a = points[i];
    let d = proj_cand_delta(points, i);
    let t = proj_cand_dot(points, i, w);
    let len2 = proj_cand_len2(points, i);
    vec2_of(a.x + (d.0 * t) / len2, a.y + (d.1 * t) / len2)
}

/// Squared distance from `w` to its projection onto segment `i`.
pub open spec fn proj_cand_dist_sq(points: Seq<Vec2>, i: int, w: Vec2) -> int {
    dist_sq_spec(w, proj_cand_point(points, i, w))
}

/// The first segment among `0..n` at minimal projection distance from `w`
/// (`-1` when no segment is valid): later segments win only strictly.
pub open spec fn best_seg_upto(points: Seq<Vec2>, w: Vec2, n: int) -> int
    decreases n,
{
    if n <= 0 {
        -1
    } else {
        let prev = best_seg_upto(points, w, n - 1);
        if !proj_cand_valid(points, n - 1) {
            prev
        } else if prev == -1 {
            n - 1
        } else if proj_cand_dist_sq(points, n - 1, w) < proj_cand_dist_sq(points, prev, w) {
            n - 1
        } else {
            prev
        }
    }
}

/// The segment a projection of `w` lands on.
pub open spec fn best_seg_spec(cl: TrackCenterline, w: Vec2) -> int {
    best_seg_upto(cl.points@, w, cl.points@.len() as int)
}

/// Arc length along the track of the projection of `w` onto segment `i`.
pub open spec fn proj_s_spec(cl: TrackCenterline, w: Vec2, i: int) -> int {
    cl.cum_seq()[i] + (seg_len_spec(cl.points@, i) * proj_cand_dot(cl.points@, i, w))
        / proj_cand_len2(cl.points@, i)
}

/// `SCALE`-scaled progress fraction of the projection of `w` onto segment
/// `i`.
pub open spec fn proj_fraction_spec(cl: TrackCenterline, w: Vec2, i: int) -> int {
    clamp_spec((proj_s_spec(cl, w, i) * SCALE) / cl.total_spec(), 0, SCALE as int)
}

/// `SCALE`-scaled unit tangent of segment `i`.
pub open spec fn proj_tangent_spec(points: Seq<Vec2>, i: int) -> Vec2 {
    let d = proj_cand_delta(points, i);
    let seg = seg_len_spec(points, i);
    vec2_of((d.0 * SCALE) / seg, (d.1 * SCALE) / seg)
}

/// The chosen segment is at minimal distance among all valid segments, and
/// among equally distant ones it is the first.
proof fn lemma_best_upto_shape(points: Seq<Vec2>, w: Vec2, n: int)
    requires
        n >= 0,
    ensures
        best_seg_upto(points, w, n) == -1 || (0 <= best_seg_upto(points, w, n) < n
            && proj_cand_valid(points, best_seg_upto(points, w, n))),
    decreases n,
{
    if n > 0 {
        lemma_best_upto_shape(points, w, n - 1);
    }
}

proof fn lemma_best_upto_min(points: Seq<Vec2>, w: Vec2, n: int, j: int)
    requires
        0 <= j < n,
        proj_cand_valid(points, j),
    ensures
        0 <= best_seg_upto(points, w, n) < n,
        proj_cand_valid(points, best_seg_upto(points, w, n)),
        proj_cand_dist_sq(points, best_seg_upto(points, w, n), w) <= proj_cand_dist_sq(
            points,
            j,
            w,
        ),
    decreases n,
{
    lemma_best_upto_shape(points, w, n - 1);
    let prev = best_seg_upto(points, w, n - 1);
    if j == n - 1 {
        if prev != -1 && !(proj_cand_dist_sq(points, n - 1, w) < proj_cand_dist_sq(
            points,
            prev,
            w,
        )) {
            assert(best_seg_upto(points, w, n) == prev);
        }
    } else {
        lemma_best_upto_min(points, w, n - 1, j);
    }
}

impl TrackCenterline {
    /// Projects a world position onto the centerline polyline.
    ///
    /// Every closed-loop segment is considered: the projection parameter of
    /// `world` is clamped to the segment, and the candidate at minimal
    /// distance wins, the first such segment on exact ties (stable polyline
    /// order). Degenerate zero-length segments are skipped. The result
    /// carries the closest point, the segment tangent, the arc length `s`,
    /// the progress fraction `s / total_length`, and the distance to the
    /// centerline.
    #[verifier::rlimit(100)]
    pub fn project(&self, world: Vec2) -> (r: CenterlineProjection)
        requires
            self.wf(),
            -POINT_LIMIT <= world.x <= POINT_LIMIT,
            -POINT_LIMIT <= world.y <= POINT_LIMIT,
        ensures
            ({
                let b = best_seg_spec(*self, world);
                &&& 0 <= b < self.points@.len()
                &&& proj_cand_valid(self.points@, b)
                &&& forall|j: int|
                    0 <= j < self.points@.len() && proj_cand_valid(self.points@, j)
                        ==> proj_cand_dist_sq(self.points@, b, world) <= #[trigger]
                        proj_cand_dist_sq(self.points@, j, world)
                &&& r.closest_point == proj_cand_point(self.points@, b, world)
                &&& r.distance == isqrt_s(proj_cand_dist_sq(self.points@, b, world))
                &&& r.s == proj_s_spec(*self, world, b)
                &&& r.fraction == proj_fraction_spec(*self, world, b)
                &&& r.tangent == proj_tangent_spec(self.points@, b)
                &&& 0 <= r.s <= self.total_spec()
                &&& 0 <= r.fraction <= SCALE
                &&& r.distance >= 0
            }),
    {
        let n = self.points.len();
        let ghost pts = self.points@;
        let mut best: usize = 0;
        let mut have: bool = false;
        let mut i: usize = 0;
        while i < n
            invariant
                self.wf(),
                n == pts.len(),
                pts == self.points@,
                -POINT_LIMIT <= world.x <= POINT_LIMIT,
                -POINT_LIMIT <= world.y <= POINT_LIMIT,
                0 <= i <= n,
                if have {
                    best_seg_upto(pts, world, i as int) == best as int && best < n
                        && proj_cand_valid(pts, best as int)
                } else {
                    best_seg_upto(pts, world, i as int) == -1
                },
            decreases n - i,
        {
            let (valid, d2c) = self.candidate_dist_sq(world, i);
            if valid {
                if !have {
                    best = i;
                    have = true;
                } else {
                    let (_, d2b) = self.candidate_dist_sq(world, best);
                    if d2c < d2b {
                        best = i;
                    }
                }
            }
            proof {
                assert(best_seg_upto(pts, world, i as int + 1) == ({
                    let prev = best_seg_upto(pts, world, i as int);
                    if !proj_cand_valid(pts, i as int) {
                        prev
                    } else if prev == -1 {
                        i as int
                    } else if proj_cand_dist_sq(pts, i as int, world) < proj_cand_dist_sq(
                        pts,
                        prev,
                        world,
                    ) {
                        i as int
                    } else {
                        prev
                    }
                }));
            }
            i += 1;
        }
        proof {
            assert((0int + 1) % (pts.len() as int) == 1int) by (nonlinear_arith)
                requires
                    3 <= pts.len(),
            ;
            assert(proj_cand_delta(pts, 0) == (pts[1].x - pts[0].x, pts[1].y - pts[0].y));
            assert(proj_cand_len2(pts, 0) == dist_sq_spec(pts[0], pts[1])) by (nonlinear_arith)
                requires
                    proj_cand_delta(pts, 0) == (pts[1].x - pts[0].x, pts[1].y - pts[0].y),
                    proj_cand_len2(pts, 0) == ({
                        let d = proj_cand_delta(pts, 0);
                        d.0 * d.0 + d.1 * d.1
                    }),
                    dist_sq_spec(pts[0], pts[1]) == (pts[0].x - pts[1].x) * (pts[0].x
                        - pts[1].x) + (pts[0].y - pts[1].y) * (pts[0].y - pts[1].y),
            ;
            assert(dist_sq_spec(pts[0], pts[1]) > 2);
            lemma_best_upto_min(pts, world, n as int, 0);
            assert forall|j: int|
                0 <= j < pts.len() && proj_cand_valid(pts, j) implies proj_cand_dist_sq(
                pts,
                best_seg_upto(pts, world, pts.len() as int),
                world,
            ) <= #[trigger] proj_cand_dist_sq(pts, j, world) by {
                lemma_best_upto_min(pts, world, pts.len() as int, j);
            }
            assert(have);
        }
        let b = best;
        let ghost gb = b as int;
        let (_, d2b) = self.candidate_dist_sq(world, b);
        let j = if b + 1 == n {
            0
        } else {
            b + 1
        };
        let a = self.points[b];
        let q = self.points[j];
        proof {
            assert(pts[gb] == a && pts[j as int] == q);
        }
        let dx = q.x - a.x;
        let dy = q.y - a.y;
        let len2 = dist_sq(a, q);
        proof {
            assert((gb + 1) % (pts.len() as int) == j as int) by (nonlinear_arith)
                requires
                    0 <= gb < pts.len() as int,
                    j as int == (if gb + 1 == pts.len() as int { 0int } else { gb + 1 }),
            ;
            assert(len2 == proj_cand_len2(pts, gb)) by (nonlinear_arith)
                requires
                    len2 == dist_sq_spec(pts[gb], pts[(gb + 1) % (pts.len() as int)]),
                    proj_cand_len2(pts, gb) == ({
                        let d = proj_cand_delta(pts, gb);
                        d.0 * d.0 + d.1 * d.1
                    }),
                    proj_cand_delta(pts, gb) == (
                        pts[(gb + 1) % (pts.len() as int)].x - pts[gb].x,
                        pts[(gb + 1) % (pts.len() as int)].y - pts[gb].y,
                    ),
            ;
            assert(0 <= len2 <= 0x100_0000_0000_0000_0000) by (nonlinear_arith)
                requires
                    len2 == dist_sq_spec(pts[gb], pts[(gb + 1) % (pts.len() as int)]),
                    -POINT_LIMIT <= pts[gb].x <= POINT_LIMIT,
                    -POINT_LIMIT <= pts[gb].y <= POINT_LIMIT,
                    -POINT_LIMIT <= pts[(gb + 1) % (pts.len() as int)].x <= POINT_LIMIT,
                    -POINT_LIMIT <= pts[(gb + 1) % (pts.len() as int)].y <= POINT_LIMIT,
            ;
        }
        let wax = mul64(world.x - a.x, dx);
        let way = mul64(world.y - a.y, dy);
        proof {
            lemma_mul_bounds((world.x - a.x) as int, dx as int, 0x10_0000_0000,
                0x10_0000_0000);
            lemma_mul_bounds((world.y - a.y) as int, dy as int, 0x10_0000_0000,
                0x10_0000_0000);
        }
        let dot_raw = wax + way;
        let dotc = if dot_raw < 0 {
            0
        } else if dot_raw > len2 {
            len2
        } else {
            dot_raw
        };
        let seg = isqrt128(len2);
        proof {
            assert(seg >= 1) by (nonlinear_arith)
                requires
                    is_isqrt(len2 as int, seg as int),
                    len2 >= 1,
            ;
            assert(seg == seg_len_spec(pts, gb));
            assert(seg <= 0x40_0000_0000) by (nonlinear_arith)
                requires
                    is_isqrt(len2 as int, seg as int),
                    len2 <= 0x100_0000_0000_0000_0000,
            ;
        }
        let px = a.x + narrow64(mul_div_floor(dx, dotc, len2));
        let py = a.y + narrow64(mul_div_floor(dy, dotc, len2));
        let p = Vec2 { x: px, y: py };
        proof {
            assert(p == proj_cand_point(pts, gb, world));
        }
        let soff = narrow64(mul_div_floor(seg, dotc, len2));
        proof {
            lemma_cum_monotone(pts, 0, gb);
            lemma_cum_monotone(pts, gb + 1, pts.len() as int);
            assert(cum_lengths_spec(pts, gb + 1) == cum_lengths_spec(pts, gb) + seg_len_spec(
                pts,
                gb,
            ));
            lemma_seg_nonneg(pts, gb);
            assert(0 <= ((seg as int) * (dotc as int)) / (len2 as int)) by (nonlinear_arith)
                requires
                    len2 >= 1,
                    0 <= seg as int,
                    0 <= dotc,
            ;
        }
        let s = self.cumulative_lengths[b] + soff;
        proof {
            lemma_mul_bounds(s as int, SCALE as int, 0x8000_0000_0000_0000, SCALE as int);
            assert(0 <= ((s as int) * (SCALE as int)) / (self.total_length as int)
                <= 0x10_0000_0000) by (nonlinear_arith)
                requires
                    1 <= self.total_length as int,
                    0 <= s as int,
                    s as int <= self.total_length as int,
            ;
        }
        let frac_raw = narrow64(mul128(s as i128, SCALE as i128) / (self.total_length as i128));
        let fraction = clamp64(frac_raw, 0, SCALE);
        proof {
            assert(-(seg as int) <= dx as int <= seg as int && -(seg as int) <= dy as int
                <= seg as int) by (nonlinear_arith)
                requires
                    is_isqrt(len2 as int, seg as int),
                    len2 == (dx as int) * (dx as int) + (dy as int) * (dy as int),
                    seg >= 1,
            ;
            lemma_mul_bounds(dx as int, SCALE as int, seg as int, SCALE as int);
            lemma_mul_bounds(dy as int, SCALE as int, seg as int, SCALE as int);
            lemma_div_bounds((dx as int) * (SCALE as int), seg as int,
                (seg as int) * (SCALE as int));
            lemma_div_bounds((dy as int) * (SCALE as int), seg as int,
                (seg as int) * (SCALE as int));
            assert(((seg as int) * (SCALE as int)) / (seg as int) == SCALE as int)
                by (nonlinear_arith)
                requires
                    seg >= 1,
            ;
        }
        let txp = mul64(dx, SCALE);
        let typ = mul64(dy, SCALE);
        let tx = narrow64(div_floor128(txp, seg as i128));
        let ty = narrow64(div_floor128(typ, seg as i128));
        let dist = isqrt128(d2b);
        CenterlineProjection {
            closest_point: p,
            tangent: Vec2 { x: tx, y: ty },
            s,
            fraction,
            distance: dist,
        }
    }

    /// Whether segment `i` is non-degenerate, and the squared distance from
    /// `world` to the clamped projection onto it.
    fn candidate_dist_sq(&self, world: Vec2, i: usize) -> (r: (bool, i128))
        requires
            self.wf(),
            -POINT_LIMIT <= world.x <= POINT_LIMIT,
            -POINT_LIMIT <= world.y <= POINT_LIMIT,
            i < self.points@.len(),
        ensures
            r.0 == proj_cand_valid(self.points@, i as int),
            r.0 ==> r.1 == proj_cand_dist_sq(self.points@, i as int, world)
                && 0 <= r.1 <= 0x2000_0000_0000_0000_0000,
    {
        let ghost pts = self.points@;
        let ghost gi = i as int;
        let n = self.points.len();
        let j = if i + 1 == n {
            0
        } else {
            i + 1
        };
        let a = self.points[i];
        let q = self.points[j];
        proof {
            assert(pts[gi] == a && pts[j as int] == q);
        }
        let dx = q.x - a.x;
        let dy = q.y - a.y;
        let len2 = dist_sq(a, q);
        proof {
            assert((gi + 1) % (pts.len() as int) == j as int) by (nonlinear_arith)
                requires
                    0 <= gi < pts.len() as int,
                    j as int == (if gi + 1 == pts.len() as int { 0int } else { gi + 1 }),
            ;
            assert(len2 == proj_cand_len2(pts, gi)) by (nonlinear_arith)
                requires
                    len2 == dist_sq_spec(pts[gi], pts[(gi + 1) % (pts.len() as int)]),
                    proj_cand_len2(pts, gi) == ({
                        let d = proj_cand_delta(pts, gi);
                        d.0 * d.0 + d.1 * d.1
                    }),
                    proj_cand_delta(pts, gi) == (
                        pts[(gi + 1) % (pts.len() as int)].x - pts[gi].x,
                        pts[(gi + 1) % (pts.len() as int)].y - pts[gi].y,
                    ),
            ;
            assert(0 <= len2 <= 0x100_0000_0000_0000_0000) by (nonlinear_arith)
                requires
                    len2 == dist_sq_spec(pts[gi], pts[(gi + 1) % (pts.len() as int)]),
                    -POINT_LIMIT <= pts[gi].x <= POINT_LIMIT,
                    -POINT_LIMIT <= pts[gi].y <= POINT_LIMIT,
                    -POINT_LIMIT <= pts[(gi + 1) % (pts.len() as int)].x <= POINT_LIMIT,
                    -POINT_LIMIT <= pts[(gi + 1) % (pts.len() as int)].y <= POINT_LIMIT,
            ;
        }
        if len2 <= 0 {
            return (false, 0);
        }
        let wax = mul64(world.x - a.x, dx);
        let way = mul64(world.y - a.y, dy);
        proof {
            lemma_mul_bounds((world.x - a.x) as int, dx as int, 0x10_0000_0000,
                0x10_0000_0000);
            lemma_mul_bounds((world.y - a.y) as int, dy as int, 0x10_0000_0000,
                0x10_0000_0000);
        }
        let dot_raw = wax + way;
        let dotc = if dot_raw < 0 {
            0
        } else if dot_raw > len2 {
            len2
        } else {
            dot_raw
        };
        let px = a.x + narrow64(mul_div_floor(dx, dotc, len2));
        let py = a.y + narrow64(mul_div_floor(dy, dotc, len2));
        let p = Vec2 { x: px, y: py };
        proof {
            assert(p == proj_cand_point(pts, gi, world));
        }
        let d2 = dist_sq(world, p);
        proof {
            assert(0 <= d2 <= 0x2000_0000_0000_0000_0000) by (nonlinear_arith)
                requires
                    d2 == dist_sq_spec(world, p),
                    -0x20_0000_0000 <= world.x - p.x <= 0x20_0000_0000,
                    -0x20_0000_0000 <= world.y - p.y <= 0x20_0000_0000,
            ;
        }
        (true, d2)
    }
}

/// Projection idempotence: a lattice point lying exactly on a
/// non-degenerate centerline segment (collinear with it and between its
/// endpoints) projects to itself, at distance zero.
pub proof fn lemma_projection_idempotent(cl: TrackCenterline, w: Vec2, i: int)
    requires
        cl.wf(),
        0 <= i < cl.points@.len(),
        proj_cand_valid(cl.points@, i),
        (w.x - cl.points@[i].x) * proj_cand_delta(cl.points@, i).1 == (w.y - cl.points@[i].y)
            * proj_cand_delta(cl.points@, i).0,
        0 <= (w.x - cl.points@[i].x) * proj_cand_delta(cl.points@, i).0 + (w.y
            - cl.points@[i].y) * proj_cand_delta(cl.points@, i).1 <= proj_cand_len2(
            cl.points@,
            i,
        ),
    ensures
        proj_cand_point(cl.points@, i, w) == w,
        proj_cand_dist_sq(cl.points@, i, w) == 0,
        proj_cand_dist_sq(cl.points@, best_seg_spec(cl, w), w) == 0,
        proj_cand_point(cl.points@, best_seg_spec(cl, w), w) == w,
        isqrt_s(proj_cand_dist_sq(cl.points@, best_seg_spec(cl, w), w)) == 0,
{
    let pts = cl.points@;
    let a = pts[i];
    let d = proj_cand_delta(pts, i);
    let len2 = proj_cand_len2(pts, i);
    let dot = (w.x - a.x) * d.0 + (w.y - a.y) * d.1;
    assert(proj_cand_dot(pts, i, w) == dot);
    assert(d.0 * dot == (w.x - a.x) * len2 && d.1 * dot == (w.y - a.y) * len2)
        by (nonlinear_arith)
        requires
            dot == (w.x - a.x) * d.0 + (w.y - a.y) * d.1,
            len2 == d.0 * d.0 + d.1 * d.1,
            (w.x - a.x) * d.1 == (w.y - a.y) * d.0,
    ;
    assert((d.0 * dot) / len2 == w.x - a.x && (d.1 * dot) / len2 == w.y - a.y)
        by (nonlinear_arith)
        requires
            len2 > 0,
            d.0 * dot == (w.x - a.x) * len2,
            d.1 * dot == (w.y - a.y) * len2,
    ;
    assert(proj_cand_point(pts, i, w) == w);
    assert(proj_cand_dist_sq(pts, i, w) == 0);
    lemma_best_upto_min(pts, w, pts.len() as int, i);
    let b = best_seg_spec(cl, w);
    assert(proj_cand_dist_sq(pts, b, w) >= 0) by (nonlinear_arith)
        requires
            proj_cand_dist_sq(pts, b, w) == dist_sq_spec(w, proj_cand_point(pts, b, w)),
    ;
    assert(proj_cand_dist_sq(pts, b, w) == 0);
    let pb = proj_cand_point(pts, b, w);
    assert(pb.x == w.x && pb.y == w.y) by (nonlinear_arith)
        requires
            dist_sq_spec(w, pb) == 0,
            dist_sq_spec(w, pb) == (w.x - pb.x) * (w.x - pb.x) + (w.y - pb.y) * (w.y - pb.y),
    ;
    assert(is_isqrt(0, 0));
    lemma_isqrt_exists(0);
    lemma_isqrt_unique(0, isqrt_s(0), 0);
}

/// Progress monotonicity modulo wraparound: between two query points whose
/// projections land on the same lap — on segments in polyline order, and in
/// forward order within a shared segment — the arc length `s` and the
/// progress fraction never decrease. Wrapping past the loop start leaves
/// these premises, which is exactly the allowed drop from near the total
/// length back to near zero.
pub proof fn lemma_progress_monotone(cl: TrackCenterline, w1: Vec2, w2: Vec2)
    requires
        cl.wf(),
        0 <= best_seg_spec(cl, w1),
        best_seg_spec(cl, w1) <= best_seg_spec(cl, w2),
        best_seg_spec(cl, w2) < cl.points@.len(),
        proj_cand_valid(cl.points@, best_seg_spec(cl, w1)),
        proj_cand_valid(cl.points@, best_seg_spec(cl, w2)),
        best_seg_spec(cl, w1) == best_seg_spec(cl, w2) ==> proj_cand_dot(
            cl.points@,
            best_seg_spec(cl, w1),
            w1,
        ) <= proj_cand_dot(cl.points@, best_seg_spec(cl, w2), w2),
    ensures
        proj_s_spec(cl, w1, best_seg_spec(cl, w1)) <= proj_s_spec(cl, w2, best_seg_spec(cl, w2)),
        proj_fraction_spec(cl, w1, best_seg_spec(cl, w1)) <= proj_fraction_spec(
            cl,
            w2,
            best_seg_spec(cl, w2),
        ),
{
    let pts = cl.points@;
    let b1 = best_seg_spec(cl, w1);
    let b2 = best_seg_spec(cl, w2);
    let seg1 = seg_len_spec(pts, b1);
    let seg2 = seg_len_spec(pts, b2);
    let l1 = proj_cand_len2(pts, b1);
    let l2 = proj_cand_len2(pts, b2);
    let t1 = proj_cand_dot(pts, b1, w1);
    let t2 = proj_cand_dot(pts, b2, w2);
    lemma_seg_nonneg(pts, b1);
    lemma_seg_nonneg(pts, b2);
    let s1 = proj_s_spec(cl, w1, b1);
    let s2 = proj_s_spec(cl, w2, b2);
    assert(0 <= (seg2 * t2) / l2) by (nonlinear_arith)
        requires
            l2 > 0,
            0 <= t2,
            0 <= seg2,
    ;
    assert((seg1 * t1) / l1 <= seg1) by (nonlinear_arith)
        requires
            l1 > 0,
            0 <= seg1,
            t1 <= l1,
    ;
    if b1 == b2 {
        assert((seg1 * t1) / l1 <= (seg2 * t2) / l2) by (nonlinear_arith)
            requires
                l1 == l2,
                seg1 == seg2,
                l1 > 0,
                0 <= seg1,
                t1 <= t2,
        ;
    } else {
        assert(cum_lengths_spec(pts, b1 + 1) == cum_lengths_spec(pts, b1) + seg1);
        lemma_cum_monotone(pts, b1 + 1, b2);
    }
    assert(s1 <= s2);
    assert((s1 * SCALE) / cl.total_spec() <= (s2 * SCALE) / cl.total_spec())
        by (nonlinear_arith)
        requires
            cl.total_spec() > 0,
            s1 <= s2,
    ;
}
} // verus!
