use vstd::prelude::*;

verus! {

/// One grid cell's road-shape classification and open-edge connectivity.
///
/// Each tile occupies one square cell and defines which of its four edges are
/// open (connected to an adjacent road tile); every other edge is a wall.
/// Corner names describe the quadrant the outer wall curves around, so
/// `CornerNW` is open toward east and south. T-junction names describe the
/// single closed edge (the stem), so `TJunctionN` is open everywhere but
/// north. `SpawnPoint` has `StraightH` connectivity and marks the one cell
/// where the car spawns.
#[derive(Clone, Copy, Debug, PartialEq, Eq, Structural)]
pub enum TilePart {
    Empty,
    StraightH,
    StraightV,
    CornerNW,
    CornerNE,
    CornerSW,
    CornerSE,
    TJunctionN,
    TJunctionS,
    TJunctionE,
    TJunctionW,
    Crossroads,
    SpawnPoint,
}

impl TilePart {
    /// Whether this tile is part of the driveable road surface.
    pub open spec fn is_road_spec(self) -> bool {
        self != TilePart::Empty
    }

    /// Open edges in the order `(north, south, east, west)`.
    pub open spec fn open_edges_spec(self) -> (bool, bool, bool, bool) {
        match self {
            TilePart::Empty => (false, false, false, false),
            TilePart::StraightH => (false, false, true, true),
            TilePart::SpawnPoint => (false, false, true, true),
            TilePart::StraightV => (true, true, false, false),
            TilePart::CornerNW => (false, true, true, false),
            TilePart::CornerNE => (false, true, false, true),
            TilePart::CornerSW => (true, false, true, false),
            TilePart::CornerSE => (true, false, false, true),
            TilePart::TJunctionN => (false, true, true, true),
            TilePart::TJunctionS => (true, false, true, true),
            TilePart::TJunctionE => (true, true, false, true),
            TilePart::TJunctionW => (true, true, true, false),
            TilePart::Crossroads => (true, true, true, true),
        }
    }

    /// Whether this tile bounds its surface with a quarter-circle arc wall.
    pub open spec fn is_corner_spec(self) -> bool {
        self == TilePart::CornerNW || self == TilePart::CornerNE || self == TilePart::CornerSW
            || self == TilePart::CornerSE
    }

    /// Returns `true` if this tile is part of the driveable road surface.
    /// Only `Empty` returns `false`.
    pub fn is_road(self) -> (r: bool)
        ensures
            r == self.is_road_spec(),
    {
        !matches!(self, TilePart::Empty)
    }

    /// Returns which edges are open, in the order `(north, south, east, west)`.
    /// An open edge means the road continues in that direction; a closed edge
    /// is a wall boundary.
    pub fn open_edges(self) -> (r: (bool, bool, bool, bool))
        ensures
            r == self.open_edges_spec(),
    {
        match self {
            TilePart::Empty => (false, false, false, false),
            TilePart::StraightH => (false, false, true, true),
            TilePart::SpawnPoint => (false, false, true, true),
            TilePart::StraightV => (true, true, false, false),
            TilePart::CornerNW => (false, true, true, false),
            TilePart::CornerNE => (false, true, false, true),
            TilePart::CornerSW => (true, false, true, false),
            TilePart::CornerSE => (true, false, false, true),
            TilePart::TJunctionN => (false, true, true, true),
            TilePart::TJunctionS => (true, false, true, true),
            TilePart::TJunctionE => (true, true, false, true),
            TilePart::TJunctionW => (true, true, true, false),
            TilePart::Crossroads => (true, true, true, true),
        }
    }

    /// Returns `true` for the four corner tiles, whose driveable surface is
    /// bounded by a quarter-circle arc instead of straight wall insets.
    pub fn is_corner(self) -> (r: bool)
        ensures
            r == self.is_corner_spec(),
    {
        matches!(self,
            TilePart::CornerNW | TilePart::CornerNE | TilePart::CornerSW | TilePart::CornerSE)
    }
}

} // verus!
