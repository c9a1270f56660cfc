use tracksim::geom::Vec2;
use tracksim::grid::TrackGrid;
use tracksim::tile::TilePart;

fn simple_grid(tiles: Vec<Vec<TilePart>>, tile_size: i64, origin: Vec2) -> TrackGrid {
    TrackGrid::new(tiles, tile_size, origin, 10)
}

#[test]
fn tile_open_edges_match_connectivity_table() {
    assert_eq!(TilePart::Empty.open_edges(), (false, false, false, false));
    assert_eq!(TilePart::StraightH.open_edges(), (false, false, true, true));
    assert_eq!(TilePart::SpawnPoint.open_edges(), (false, false, true, true));
    assert_eq!(TilePart::StraightV.open_edges(), (true, true, false, false));
    assert_eq!(TilePart::CornerNW.open_edges(), (false, true, true, false));
    assert_eq!(TilePart::CornerNE.open_edges(), (false, true, false, true));
    assert_eq!(TilePart::CornerSW.open_edges(), (true, false, true, false));
    assert_eq!(TilePart::CornerSE.open_edges(), (true, false, false, true));
    assert_eq!(TilePart::TJunctionN.open_edges(), (false, true, true, true));
    assert_eq!(TilePart::TJunctionS.open_edges(), (true, false, true, true));
    assert_eq!(TilePart::TJunctionE.open_edges(), (true, true, false, true));
    assert_eq!(TilePart::TJunctionW.open_edges(), (true, true, true, false));
    assert_eq!(TilePart::Crossroads.open_edges(), (true, true, true, true));
}

#[test]
fn only_empty_is_not_road() {
    assert!(!TilePart::Empty.is_road());
    assert!(TilePart::StraightH.is_road());
    assert!(TilePart::SpawnPoint.is_road());
    assert!(TilePart::Crossroads.is_road());
}

#[test]
fn exactly_four_corner_tiles() {
    assert!(TilePart::CornerNW.is_corner());
    assert!(TilePart::CornerNE.is_corner());
    assert!(TilePart::CornerSW.is_corner());
    assert!(TilePart::CornerSE.is_corner());
    assert!(!TilePart::StraightH.is_corner());
    assert!(!TilePart::TJunctionN.is_corner());
    assert!(!TilePart::Empty.is_corner());
}

#[test]
fn grid_dimensions_and_tile_lookup() {
    let g = simple_grid(
        vec![
            vec![TilePart::Empty, TilePart::StraightH],
            vec![TilePart::StraightV, TilePart::SpawnPoint],
        ],
        1000,
        Vec2 { x: 0, y: 2000 },
    );
    assert_eq!(g.rows(), 2);
    assert_eq!(g.cols(), 2);
    assert_eq!(g.tile_at(0, 1), TilePart::StraightH);
    assert_eq!(g.tile_at(1, 0), TilePart::StraightV);
    // Out of bounds resolves to Empty.
    assert_eq!(g.tile_at(5, 0), TilePart::Empty);
    assert_eq!(g.tile_at(0, 7), TilePart::Empty);
}

#[test]
fn world_to_cell_maps_by_floor_division() {
    let g = simple_grid(
        vec![
            vec![TilePart::StraightH, TilePart::StraightH],
            vec![TilePart::StraightH, TilePart::StraightH],
        ],
        1000,
        Vec2 { x: 0, y: 2000 },
    );
    // Top-left cell interior.
    assert_eq!(g.world_to_cell(Vec2 { x: 500, y: 1500 }), Some((0, 0)));
    // Second column, second row.
    assert_eq!(g.world_to_cell(Vec2 { x: 1500, y: 500 }), Some((1, 1)));
    // Outside the grid on every side.
    assert_eq!(g.world_to_cell(Vec2 { x: -1, y: 500 }), None);
    assert_eq!(g.world_to_cell(Vec2 { x: 500, y: 2001 }), None);
    assert_eq!(g.world_to_cell(Vec2 { x: 2500, y: 500 }), None);
    assert_eq!(g.world_to_cell(Vec2 { x: 500, y: -1 }), None);
}

#[test]
fn cell_center_is_pure_arithmetic() {
    let g = simple_grid(
        vec![vec![TilePart::StraightH, TilePart::StraightH]],
        1000,
        Vec2 { x: -1000, y: 500 },
    );
    assert_eq!(g.cell_center(0, 0), Vec2 { x: -500, y: 0 });
    assert_eq!(g.cell_center(0, 1), Vec2 { x: 500, y: 0 });
}

#[test]
fn straight_tile_insets_closed_edges_only() {
    // One horizontal straight: walls north and south, inset by half the
    // wall thickness (10 / 2 = 5); east and west stay open to the cell edge.
    let g = simple_grid(vec![vec![TilePart::StraightH]], 1000, Vec2 { x: 0, y: 1000 });
    // Center is road.
    assert!(g.is_road_at(Vec2 { x: 500, y: 500 }));
    // North inset boundary: inside at 995, outside at 996.
    assert!(g.is_road_at(Vec2 { x: 500, y: 995 }));
    assert!(!g.is_road_at(Vec2 { x: 500, y: 996 }));
    // South inset boundary.
    assert!(g.is_road_at(Vec2 { x: 500, y: 5 }));
    assert!(!g.is_road_at(Vec2 { x: 500, y: 4 }));
    // Open east edge has no inset: road up to the last point of the cell.
    assert!(g.is_road_at(Vec2 { x: 999, y: 500 }));
    // Outside the grid is never road.
    assert!(!g.is_road_at(Vec2 { x: 1001, y: 500 }));
    assert!(!g.is_road_at(Vec2 { x: -1, y: 500 }));
}

#[test]
fn corner_tile_uses_arc_distance() {
    // CornerNW: open east and south; arc center at the cell's SE corner,
    // radius = tile_size - wall_thickness / 2 = 995.
    let g = simple_grid(vec![vec![TilePart::CornerNW]], 1000, Vec2 { x: 0, y: 1000 });
    // Near the arc center: well within the quarter disc.
    assert!(g.is_road_at(Vec2 { x: 800, y: 200 }));
    // Cell center: distance to (1000, 0) is ~707 <= 995.
    assert!(g.is_road_at(Vec2 { x: 500, y: 500 }));
    // Outer corner of the cell: distance to (1000, 0) is ~1400 > 995.
    assert!(!g.is_road_at(Vec2 { x: 10, y: 990 }));
}

#[test]
fn adjacent_closed_edges_leave_full_wall_dead_zone() {
    // Two vertical straights side by side: each closes its east/west edge,
    // so the shared boundary at x = 1000 is a dead zone 10 units wide
    // (half-wall inset from each side), non-road from both cells.
    let g = simple_grid(
        vec![vec![TilePart::StraightV, TilePart::StraightV]],
        1000,
        Vec2 { x: 0, y: 1000 },
    );
    // Within half a wall thickness of the boundary: not road on either side.
    assert!(!g.is_road_at(Vec2 { x: 996, y: 500 }));
    assert!(!g.is_road_at(Vec2 { x: 999, y: 500 }));
    assert!(!g.is_road_at(Vec2 { x: 1000, y: 500 }));
    assert!(!g.is_road_at(Vec2 { x: 1004, y: 500 }));
    // Just beyond the inset on each side: road again.
    assert!(g.is_road_at(Vec2 { x: 995, y: 500 }));
    assert!(g.is_road_at(Vec2 { x: 1005, y: 500 }));
}

#[test]
fn find_spawn_locates_first_spawn_point_row_major() {
    let g = simple_grid(
        vec![
            vec![TilePart::Empty, TilePart::StraightH],
            vec![TilePart::SpawnPoint, TilePart::SpawnPoint],
        ],
        1000,
        Vec2 { x: 0, y: 2000 },
    );
    assert_eq!(g.find_spawn_cell(), Some((1, 0)));
    let (pos, heading) = g.find_spawn().unwrap();
    assert_eq!(pos, Vec2 { x: 500, y: 500 });
    // Spawn faces east: angle zero.
    assert_eq!(heading, 0);
}

#[test]
fn find_spawn_absent_when_no_spawn_tile() {
    let g = simple_grid(
        vec![vec![TilePart::StraightH, TilePart::StraightH]],
        1000,
        Vec2 { x: 0, y: 1000 },
    );
    assert_eq!(g.find_spawn_cell(), None);
    assert!(g.find_spawn().is_none());
}
