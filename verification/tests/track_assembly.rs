use tracksim::centerline::{GridDir, TrackCenterline};
use tracksim::geom::Vec2;
use tracksim::grid::TrackGrid;
use tracksim::tile::TilePart;
use tracksim::track::Track;

fn loop_grid(with_spawn: bool) -> TrackGrid {
    // NW SP/H NE
    // SW H    SE
    let top_mid = if with_spawn { TilePart::SpawnPoint } else { TilePart::StraightH };
    TrackGrid::new(
        vec![
            vec![TilePart::CornerNW, top_mid, TilePart::CornerNE],
            vec![TilePart::CornerSW, TilePart::StraightH, TilePart::CornerSE],
        ],
        1000,
        Vec2 { x: 0, y: 2000 },
        10,
    )
}

#[test]
fn track_assembles_from_spawn_cell_pose() {
    let grid = loop_grid(true);
    let spawn_cell = grid.find_spawn_cell().unwrap();
    assert_eq!(spawn_cell, (0, 1));
    let centerline = TrackCenterline::build_closed_loop(&grid, spawn_cell, GridDir::East).unwrap();
    let track = Track::assemble(grid, centerline).unwrap();
    // Spawn pose: center of the spawn cell, facing east.
    assert_eq!(track.spawn_position, Vec2 { x: 1500, y: 1500 });
    assert_eq!(track.spawn_rotation, 0);
    assert!(track.centerline.total_length() > 0);
}

#[test]
fn track_assembly_fails_without_spawn_tile() {
    let grid = loop_grid(false);
    let centerline = TrackCenterline::build_closed_loop(&grid, (0, 0), GridDir::East).unwrap();
    assert!(Track::assemble(grid, centerline).is_none());
}
