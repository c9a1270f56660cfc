use vstd::prelude::*;
use crate::geom::{Vec2, dist_sq, mul64, narrow64};
use crate::tile::TilePart;

verus! {

/// Most rows or columns a grid may have.
pub const GRID_DIM_MAX: usize = 512;

/// Largest permitted cell side length, in world units.
pub const TILE_SIZE_MAX: i64 = 16777216;

/// Largest permitted magnitude of an origin coordinate, in world units.
pub const ORIGIN_LIMIT: i64 = 1073741824;

/// Every cell-center coordinate of a well-formed grid fits well under this.
pub const CELL_CENTER_LIMIT: i64 = 0x3_0000_0000;

/// A grid-based track definition.
///
/// Tiles are stored row-major as `tiles[row][col]`. Row 0 is the topmost row
/// (highest world y); the row index increases downward. The world position of
/// the top-left corner of cell `[0][0]` is `origin`. The driveable area of
/// each tile is inset by half of `wall_thickness` on every closed edge, so
/// the inner faces of the walls of two adjacent closed edges leave a full
/// wall-thickness dead zone at the boundary.
pub struct TrackGrid {
    /// Row-major tile array, indexed as `tiles[row][col]`.
    pub tiles: Vec<Vec<TilePart>>,
    /// World-space side length of each square cell.
    pub tile_size: i64,
    /// World-space position of the top-left corner of cell `[0][0]`.
    pub origin: Vec2,
    /// Thickness of the boundary walls, in world units.
    pub wall_thickness: i64,
}

impl TrackGrid {
    pub open spec fn rows_spec(self) -> int {
        self.tiles@.len() as int
    }

    pub open spec fn cols_spec(self) -> int {
        if self.tiles@.len() == 0 {
            0
        } else {
            self.tiles@[0]@.len() as int
        }
    }

    /// Well-formedness: all rows have the same length, and the sizes are
    /// small enough that every derived coordinate fits comfortably in 64
    /// bits.
    pub open spec fn wf(self) -> bool {
        &&& self.tiles@.len() <= GRID_DIM_MAX
        &&& self.cols_spec() <= GRID_DIM_MAX
        &&& forall|i: int|
            #![trigger self.tiles@[i]]
            0 <= i < self.tiles@.len() ==> self.tiles@[i]@.len() == self.cols_spec()
        &&& 0 < self.tile_size <= TILE_SIZE_MAX
        &&& -ORIGIN_LIMIT <= self.origin.x <= ORIGIN_LIMIT
        &&& -ORIGIN_LIMIT <= self.origin.y <= ORIGIN_LIMIT
        &&& 0 <= self.wall_thickness <= self.tile_size
    }

    /// The tile at `(row, col)`, or `Empty` when out of bounds.
    pub open spec fn tile_at_spec(self, row: int, col: int) -> TilePart {
        if 0 <= row < self.rows_spec() && 0 <= col < self.tiles@[row]@.len() {
            self.tiles@[row]@[col]
        } else {
            TilePart::Empty
        }
    }

    /// World-space center of cell `(row, col)`, as mathematical integers.
    pub open spec fn cell_center_spec(self, row: int, col: int) -> (int, int) {
        (
            self.origin.x + col * self.tile_size + self.tile_size / 2,
            self.origin.y - row * self.tile_size - self.tile_size / 2,
        )
    }

    /// Which cell a world point falls in: floor division of the offset from
    /// the origin, `None` outside the grid.
    pub open spec fn world_to_cell_spec(self, world: Vec2) -> Option<(int, int)> {
        let relx = world.x - self.origin.x;
        let rely = self.origin.y - world.y;
        if relx < 0 || rely < 0 {
            None
        } else {
            let col = relx / (self.tile_size as int);
            let row = rely / (self.tile_size as int);
            if row < self.rows_spec() && col < self.cols_spec() {
                Some((row, col))
            } else {
                None
            }
        }
    }

    /// Center of the wall arc of a corner tile: the cell corner diagonally
    /// opposite the tile's open-edge pair. For non-corner tiles, the cell
    /// center itself.
    pub open spec fn corner_center_spec(self, tile: TilePart, row: int, col: int) -> (int, int) {
        let c = self.cell_center_spec(row, col);
        let half = self.tile_size / 2;
        match tile {
            TilePart::CornerNW => (c.0 + half, c.1 - half),
            TilePart::CornerNE => (c.0 - half, c.1 - half),
            TilePart::CornerSW => (c.0 + half, c.1 + half),
            TilePart::CornerSE => (c.0 - half, c.1 + half),
            _ => c,
        }
    }

    /// Road membership of a world point.
    ///
    /// The point must fall in a road cell; for non-corner tiles it must
    /// respect a half-wall inset on every closed edge, and for corner tiles
    /// it must lie within `tile_size - wall_thickness / 2` of the arc
    /// center. Points outside the grid are never road.
    pub open spec fn is_road_at_spec(self, world: Vec2) -> bool {
        match self.world_to_cell_spec(world) {
            None => false,
            Some(rc) => {
                let tile = self.tile_at_spec(rc.0, rc.1);
                if !tile.is_road_spec() {
                    false
                } else {
                    let c = self.cell_center_spec(rc.0, rc.1);
                    let half = self.tile_size / 2;
                    let margin = self.wall_thickness / 2;
                    if tile.is_corner_spec() {
                        let a = self.corner_center_spec(tile, rc.0, rc.1);
                        let rad = self.tile_size - margin;
                        (world.x - a.0) * (world.x - a.0) + (world.y - a.1) * (world.y - a.1)
                            <= rad * rad
                    } else {
                        let oe = tile.open_edges_spec();
                        &&& (oe.0 || world.y <= c.1 + half - margin)
                        &&& (oe.1 || world.y >= c.1 - half + margin)
                        &&& (oe.2 || world.x <= c.0 + half - margin)
                        &&& (oe.3 || world.x >= c.0 - half + margin)
                    }
                }
            },
        }
    }

    /// `SpawnPoint` sits at `(row, col)`.
    pub open spec fn spawn_at(self, row: int, col: int) -> bool {
        self.tile_at_spec(row, col) == TilePart::SpawnPoint
    }

    /// Constructs a new grid. All rows must have the same length; `origin`
    /// is the world-space top-left corner of cell `[0][0]`.
    pub fn new(tiles: Vec<Vec<TilePart>>, tile_size: i64, origin: Vec2, wall_thickness: i64) -> (
        g: TrackGrid)
        requires
            tiles@.len() <= GRID_DIM_MAX,
            forall|i: int|
                #![trigger tiles@[i]]
                0 <= i < tiles@.len() ==> tiles@[i]@.len() == tiles@[0]@.len(),
            tiles@.len() == 0 || tiles@[0]@.len() <= GRID_DIM_MAX,
            0 < tile_size <= TILE_SIZE_MAX,
            -ORIGIN_LIMIT <= origin.x <= ORIGIN_LIMIT,
            -ORIGIN_LIMIT <= origin.y <= ORIGIN_LIMIT,
            0 <= wall_thickness <= tile_size,
        ensures
            g.wf(),
            g.tiles == tiles,
            g.tile_size == tile_size,
            g.origin == origin,
            g.wall_thickness == wall_thickness,
    {
        TrackGrid { tiles, tile_size, origin, wall_thickness }
    }

    /// Number of rows in the grid.
    pub fn rows(&self) -> (r: usize)
        ensures
            r == self.rows_spec(),
    {
        self.tiles.len()
    }

    /// Number of columns (from the first row; 0 if the grid is empty).
    pub fn cols(&self) -> (r: usize)
        ensures
            r == self.cols_spec(),
    {
        if self.tiles.len() == 0 {
            0
        } else {
            self.tiles[0].len()
        }
    }

    /// Returns the tile at `(row, col)`, or `Empty` when out of bounds.
    pub fn tile_at(&self, row: usize, col: usize) -> (t: TilePart)
        ensures
            t == self.tile_at_spec(row as int, col as int),
    {
        if row < self.tiles.len() {
            let r = &self.tiles[row];
            if col < r.len() {
                r[col]
            } else {
                TilePart::Empty
            }
        } else {
            TilePart::Empty
        }
    }

    /// Returns the world-space center of cell `(row, col)`.
    pub fn cell_center(&self, row: usize, col: usize) -> (v: Vec2)
        requires
            self.wf(),
            row < GRID_DIM_MAX,
            col < GRID_DIM_MAX,
        ensures
            v.x == self.cell_center_spec(row as int, col as int).0,
            v.y == self.cell_center_spec(row as int, col as int).1,
            -CELL_CENTER_LIMIT <= v.x <= CELL_CENTER_LIMIT,
            -CELL_CENTER_LIMIT <= v.y <= CELL_CENTER_LIMIT,
    {
        let cts = mul64(col as i64, self.tile_size);
        let rts = mul64(row as i64, self.tile_size);
        proof {
            assert(0 <= (col as int) * (self.tile_size as int) <= 0x2_0000_0000
                && 0 <= (row as int) * (self.tile_size as int) <= 0x2_0000_0000)
                by (nonlinear_arith)
                requires
                    0 <= col < 512,
                    0 <= row < 512,
                    0 < self.tile_size <= 16777216,
            ;
        }
        let x = narrow64((self.origin.x as i128) + cts + (self.tile_size / 2) as i128);
        let y = narrow64((self.origin.y as i128) - rts - (self.tile_size / 2) as i128);
        Vec2 { x, y }
    }

    /// Converts a world-space position to `(row, col)`; `None` if the
    /// position lies outside the grid.
    pub fn world_to_cell(&self, world: Vec2) -> (r: Option<(usize, usize)>)
        requires
            self.wf(),
        ensures
            match r {
                Some(rc) => self.world_to_cell_spec(world) == Some((rc.0 as int, rc.1 as int))
                    && rc.0 < self.rows_spec() && rc.1 < self.cols_spec(),
                None => self.world_to_cell_spec(world) is None,
            },
    {
        let relx = (world.x as i128) - (self.origin.x as i128);
        let rely = (self.origin.y as i128) - (world.y as i128);
        if relx < 0 || rely < 0 {
            return None;
        }
        let ts = self.tile_size as i128;
        let col = relx / ts;
        let row = rely / ts;
        let nrows = self.tiles.len();
        let ncols = self.cols();
        if row < nrows as i128 && col < ncols as i128 {
            Some((row as usize, col as usize))
        } else {
            None
        }
    }

    /// Returns `true` if `world` lies within the driveable area of a road
    /// tile: the cell minus a half-wall inset on closed edges, or the
    /// quarter-disc of a corner tile.
    pub fn is_road_at(&self, world: Vec2) -> (r: bool)
        requires
            self.wf(),
        ensures
            r == self.is_road_at_spec(world),
    {
        let cell = match self.world_to_cell(world) {
            None => {
                return false;
            },
            Some(rc) => rc,
        };
        let (row, col) = cell;
        let tile = self.tile_at(row, col);
        if !tile.is_road() {
            return false;
        }
        let c = self.cell_center(row, col);
        let half = self.tile_size / 2;
        let margin = self.wall_thickness / 2;
        proof {
            let relx: int = world.x - self.origin.x;
            let rely: int = self.origin.y - world.y;
            assert((col as int) * self.tile_size <= relx < (col as int + 1) * self.tile_size
                && (row as int) * self.tile_size <= rely < (row as int + 1) * self.tile_size)
                by (nonlinear_arith)
                requires
                    self.tile_size > 0,
                    relx >= 0,
                    rely >= 0,
                    col as int == relx / (self.tile_size as int),
                    row as int == rely / (self.tile_size as int),
            ;
            assert(0 <= (col as int) * self.tile_size <= 0x1000_0000_0000
                && (col as int + 1) * self.tile_size <= 0x1000_0000_0000
                && 0 <= (row as int) * self.tile_size <= 0x1000_0000_0000
                && (row as int + 1) * self.tile_size <= 0x1000_0000_0000) by (nonlinear_arith)
                requires
                    0 <= (col as int) < 4096,
                    0 <= (row as int) < 4096,
                    0 < self.tile_size <= 16777216,
            ;
        }
        if tile.is_corner() {
            let a = self.corner_center(tile, row, col);
            let d2 = dist_sq(world, a);
            let rad = self.tile_size - margin;
            let r2 = mul64(rad, rad);
            d2 <= r2
        } else {
            let (open_n, open_s, open_e, open_w) = tile.open_edges();
            if !open_n && world.y > c.y + half - margin {
                return false;
            }
            if !open_s && world.y < c.y - half + margin {
                return false;
            }
            if !open_e && world.x > c.x + half - margin {
                return false;
            }
            if !open_w && world.x < c.x - half + margin {
                return false;
            }
            true
        }
    }

    /// Returns the wall-arc center of a corner tile at `(row, col)`.
    fn corner_center(&self, tile: TilePart, row: usize, col: usize) -> (v: Vec2)
        requires
            self.wf(),
            row < GRID_DIM_MAX,
            col < GRID_DIM_MAX,
        ensures
            v.x == self.corner_center_spec(tile, row as int, col as int).0,
            v.y == self.corner_center_spec(tile, row as int, col as int).1,
            -2 * CELL_CENTER_LIMIT <= v.x <= 2 * CELL_CENTER_LIMIT,
            -2 * CELL_CENTER_LIMIT <= v.y <= 2 * CELL_CENTER_LIMIT,
    {
        let c = self.cell_center(row, col);
        let half = self.tile_size / 2;
        match tile {
            TilePart::CornerNW => Vec2 { x: c.x + half, y: c.y - half },
            TilePart::CornerNE => Vec2 { x: c.x - half, y: c.y - half },
            TilePart::CornerSW => Vec2 { x: c.x + half, y: c.y + half },
            TilePart::CornerSE => Vec2 { x: c.x - half, y: c.y + half },
            _ => c,
        }
    }

    /// Locates the `SpawnPoint` tile and returns its `(row, col)`; the first
    /// one in row-major order wins. Returns `None` if no `SpawnPoint` tile
    /// exists.
    pub fn find_spawn_cell(&self) -> (r: Option<(usize, usize)>)
        requires
            self.wf(),
        ensures
            match r {
                Some(rc) => rc.0 < self.rows_spec() && rc.1 < self.cols_spec()
                    && self.spawn_at(rc.0 as int, rc.1 as int)
                    && forall|i: int, j: int|
                        0 <= i < self.rows_spec() && 0 <= j < self.cols_spec()
                        && (i < rc.0 as int || (i == rc.0 as int && j < rc.1 as int))
                        ==> !self.spawn_at(i, j),
                None => forall|i: int, j: int|
                    0 <= i < self.rows_spec() && 0 <= j < self.cols_spec() ==> !self.spawn_at(i, j),
            },
    {
        let nrows = self.tiles.len();
        let ncols = self.cols();
        let mut row: usize = 0;
        while row < nrows
            invariant
                self.wf(),
                nrows == self.rows_spec(),
                ncols == self.cols_spec(),
                row <= nrows,
                forall|i: int, j: int|
                    0 <= i < row as int && 0 <= j < ncols as int ==> !self.spawn_at(i, j),
            decreases nrows - row,
        {
            let mut col: usize = 0;
            while col < ncols
                invariant
                    self.wf(),
                    nrows == self.rows_spec(),
                    ncols == self.cols_spec(),
                    row < nrows,
                    col <= ncols,
                    forall|i: int, j: int|
                        0 <= i < row as int && 0 <= j < ncols as int ==> !self.spawn_at(i, j),
                    forall|j: int| 0 <= j < col as int ==> !self.spawn_at(row as int, j),
                decreases ncols - col,
            {
                let t = self.tile_at(row, col);
                if t.is_road() {
                    if matches!(t, TilePart::SpawnPoint) {
                        return Some((row, col));
                    }
                }
                col += 1;
            }
            row += 1;
        }
        None
    }

    /// Locates the `SpawnPoint` tile and returns the spawn pose: the cell's
    /// world center, heading east (angle 0). Returns `None` if no
    /// `SpawnPoint` tile exists.
    pub fn find_spawn(&self) -> (r: Option<(Vec2, i64)>)
        requires
            self.wf(),
        ensures
            match r {
                Some(ph) => ph.1 == 0 && exists|i: int, j: int|
                    0 <= i < self.rows_spec() && 0 <= j < self.cols_spec()
                    && #[trigger] self.spawn_at(i, j)
                    && ph.0.x == self.cell_center_spec(i, j).0
                    && ph.0.y == self.cell_center_spec(i, j).1,
                None => forall|i: int, j: int|
                    0 <= i < self.rows_spec() && 0 <= j < self.cols_spec() ==> !self.spawn_at(i, j),
            },
    {
        match self.find_spawn_cell() {
            None => None,
            Some((row, col)) => {
                let c = self.cell_center(row, col);
                proof {
                    assert(self.spawn_at(row as int, col as int));
                }
                Some((c, 0))
            },
        }
    }
}


/// Road-membership symmetry at vertical walls: where two horizontally
/// adjacent non-corner road cells both close the edge they share, every
/// point of that row strictly within half the wall thickness of the shared
/// boundary is classified as non-road — from whichever of the two cells it
/// falls in. The two half-wall insets together leave a full wall-thickness
/// dead zone, so a car can never straddle the closed boundary.
pub proof fn lemma_wall_deadzone_horizontal(g: TrackGrid, row: int, col: int, w: Vec2)
    requires
        g.wf(),
        0 <= row < g.rows_spec(),
        0 <= col,
        col + 1 < g.cols_spec(),
        g.tile_at_spec(row, col).is_road_spec(),
        g.tile_at_spec(row, col + 1).is_road_spec(),
        !g.tile_at_spec(row, col).is_corner_spec(),
        !g.tile_at_spec(row, col + 1).is_corner_spec(),
        !g.tile_at_spec(row, col).open_edges_spec().2,
        !g.tile_at_spec(row, col + 1).open_edges_spec().3,
        row * g.tile_size <= g.origin.y - w.y < (row + 1) * g.tile_size,
        g.origin.x + (col + 1) * g.tile_size - g.wall_thickness / 2 < w.x,
        w.x < g.origin.x + (col + 1) * g.tile_size + g.wall_thickness / 2,
    ensures
        !g.is_road_at_spec(w),
{
    let ts = g.tile_size as int;
    let m = g.wall_thickness / 2;
    let half = ts / 2;
    let relx: int = w.x - g.origin.x;
    let rely: int = g.origin.y - w.y;
    assert(2 * half <= ts && 2 * m <= g.wall_thickness && m <= half);
    assert(rely / ts == row) by (nonlinear_arith)
        requires
            ts > 0,
            row * ts <= rely < (row + 1) * ts,
    ;
    if relx < (col + 1) * ts {
        assert(col * ts <= relx) by (nonlinear_arith)
            requires
                relx > (col + 1) * ts - m,
                m <= ts,
        ;
        assert(relx / ts == col) by (nonlinear_arith)
            requires
                ts > 0,
                col * ts <= relx < (col + 1) * ts,
        ;
        assert(relx >= 0) by (nonlinear_arith)
            requires
                col * ts <= relx,
                col >= 0,
                ts > 0,
        ;
        assert(g.world_to_cell_spec(w) == Some((row, col)));
        let c = g.cell_center_spec(row, col);
        assert(c.0 + half - m < w.x) by (nonlinear_arith)
            requires
                c.0 == g.origin.x + col * ts + ts / 2,
                half == ts / 2,
                2 * half <= ts,
                w.x > g.origin.x + (col + 1) * ts - m,
        ;
    } else {
        assert(relx / ts == col + 1) by (nonlinear_arith)
            requires
                ts > 0,
                (col + 1) * ts <= relx,
                relx < (col + 1) * ts + m,
                m <= ts,
        ;
        assert(relx >= 0) by (nonlinear_arith)
            requires
                (col + 1) * ts <= relx,
                col >= 0,
                ts > 0,
        ;
        assert(g.world_to_cell_spec(w) == Some((row, col + 1)));
        let c = g.cell_center_spec(row, col + 1);
        assert(w.x < c.0 - half + m) by (nonlinear_arith)
            requires
                c.0 == g.origin.x + (col + 1) * ts + ts / 2,
                half == ts / 2,
                w.x < g.origin.x + (col + 1) * ts + m,
        ;
    }
}

/// Road-membership symmetry at horizontal walls: the same full-thickness
/// dead zone along the shared boundary of two vertically adjacent
/// non-corner road cells whose facing edges are both closed.
pub proof fn lemma_wall_deadzone_vertical(g: TrackGrid, row: int, col: int, w: Vec2)
    requires
        g.wf(),
        0 <= col < g.cols_spec(),
        0 <= row,
        row + 1 < g.rows_spec(),
        g.tile_at_spec(row, col).is_road_spec(),
        g.tile_at_spec(row + 1, col).is_road_spec(),
        !g.tile_at_spec(row, col).is_corner_spec(),
        !g.tile_at_spec(row + 1, col).is_corner_spec(),
        !g.tile_at_spec(row, col).open_edges_spec().1,
        !g.tile_at_spec(row + 1, col).open_edges_spec().0,
        col * g.tile_size <= w.x - g.origin.x < (col + 1) * g.tile_size,
        g.origin.y - (row + 1) * g.tile_size - g.wall_thickness / 2 < w.y,
        w.y < g.origin.y - (row + 1) * g.tile_size + g.wall_thickness / 2,
    ensures
        !g.is_road_at_spec(w),
{
    let ts = g.tile_size as int;
    let m = g.wall_thickness / 2;
    let half = ts / 2;
    let relx: int = w.x - g.origin.x;
    let rely: int = g.origin.y - w.y;
    assert(2 * half <= ts && 2 * m <= g.wall_thickness && m <= half);
    assert(relx / ts == col) by (nonlinear_arith)
        requires
            ts > 0,
            col * ts <= relx < (col + 1) * ts,
    ;
    assert(relx >= 0) by (nonlinear_arith)
        requires
            col * ts <= relx,
            col >= 0,
            ts > 0,
    ;
    assert((row + 1) * ts - m < rely < (row + 1) * ts + m);
    if rely < (row + 1) * ts {
        assert(row * ts <= rely) by (nonlinear_arith)
            requires
                rely > (row + 1) * ts - m,
                m <= ts,
        ;
        assert(rely / ts == row) by (nonlinear_arith)
            requires
                ts > 0,
                row * ts <= rely < (row + 1) * ts,
        ;
        assert(g.world_to_cell_spec(w) == Some((row, col)));
        let c = g.cell_center_spec(row, col);
        assert(w.y < c.1 - half + m) by (nonlinear_arith)
            requires
                c.1 == g.origin.y - row * ts - ts / 2,
                half == ts / 2,
                2 * half <= ts,
                w.y < g.origin.y - (row + 1) * ts + m,
        ;
    } else {
        assert(rely / ts == row + 1) by (nonlinear_arith)
            requires
                ts > 0,
                (row + 1) * ts <= rely,
                rely < (row + 1) * ts + m,
                m <= ts,
        ;
        assert(g.world_to_cell_spec(w) == Some((row + 1, col)));
        let c = g.cell_center_spec(row + 1, col);
        assert(c.1 + half - m < w.y) by (nonlinear_arith)
            requires
                c.1 == g.origin.y - (row + 1) * ts - ts / 2,
                half == ts / 2,
                w.y > g.origin.y - (row + 1) * ts - m,
        ;
    }
}
} // verus!
