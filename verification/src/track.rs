use vstd::prelude::*;
use crate::centerline::TrackCenterline;
use crate::geom::Vec2;
use crate::grid::TrackGrid;

verus! {

/// A compiled track: the tile grid, the spawn pose derived from it, and the
/// closed-loop centerline compiled from the spawn cell. Built once at load
/// time and read-only for the rest of the session, so it can be shared
/// freely among any number of concurrent readers.
pub struct Track {
    /// The tile grid and its road-membership geometry.
    pub grid: TrackGrid,
    /// World-space spawn position: the center of the spawn cell.
    pub spawn_position: Vec2,
    /// Spawn heading in angle units (0 faces east).
    pub spawn_rotation: i64,
    /// The compiled closed-loop centerline.
    pub centerline: TrackCenterline,
}

impl Track {
    /// Both halves are well formed and the spawn pose comes from a spawn
    /// cell of the grid.
    pub open spec fn wf(self) -> bool {
        &&& self.grid.wf()
        &&& self.centerline.wf()
        &&& self.spawn_rotation == 0
        &&& exists|i: int, j: int|
            0 <= i < self.grid.rows_spec() && 0 <= j < self.grid.cols_spec()
                && #[trigger] self.grid.spawn_at(i, j)
                && self.spawn_position.x == self.grid.cell_center_spec(i, j).0
                && self.spawn_position.y == self.grid.cell_center_spec(i, j).1
    }

    /// Assembles a track from a well-formed grid and its compiled
    /// centerline; fails with `None` when the grid has no spawn tile.
    pub fn assemble(grid: TrackGrid, centerline: TrackCenterline) -> (r: Option<Track>)
        requires
            grid.wf(),
            centerline.wf(),
        ensures
            match r {
                Some(t) => t.wf() && t.grid == grid && t.centerline == centerline,
                None => forall|i: int, j: int|
                    0 <= i < grid.rows_spec() && 0 <= j < grid.cols_spec() ==> !grid.spawn_at(
                        i,
                        j,
                    ),
            },
    {
        match grid.find_spawn() {
            None => None,
            Some((spawn_position, spawn_rotation)) => {
                let t = Track { grid, spawn_position, spawn_rotation, centerline };
                proof {
                    let (i, j) = choose|i: int, j: int|
                        0 <= i < grid.rows_spec() && 0 <= j < grid.cols_spec()
                            && #[trigger] grid.spawn_at(i, j)
                            && spawn_position.x == grid.cell_center_spec(i, j).0
                            && spawn_position.y == grid.cell_center_spec(i, j).1;
                    assert(t.grid.spawn_at(i, j));
                }
                Some(t)
            },
        }
    }
}

} // verus!
