use tracksim::centerline::{CenterlineBuildError, GridDir, TrackCenterline};
use tracksim::geom::Vec2;
use tracksim::grid::TrackGrid;
use tracksim::tile::TilePart;

fn grid_of(tiles: Vec<Vec<TilePart>>, tile_size: i64, origin: Vec2) -> TrackGrid {
    TrackGrid::new(tiles, tile_size, origin, 10)
}

/// Integer square root, written independently of the library.
fn naive_isqrt(v: i128) -> i64 {
    let mut r: i128 = 0;
    while (r + 1) * (r + 1) <= v {
        r += 1;
    }
    r as i64
}

#[test]
fn grid_dir_opposite_and_delta() {
    assert_eq!(GridDir::North.opposite(), GridDir::South);
    assert_eq!(GridDir::South.opposite(), GridDir::North);
    assert_eq!(GridDir::East.opposite(), GridDir::West);
    assert_eq!(GridDir::West.opposite(), GridDir::East);
    assert_eq!(GridDir::North.delta(), (-1, 0));
    assert_eq!(GridDir::South.delta(), (1, 0));
    assert_eq!(GridDir::East.delta(), (0, 1));
    assert_eq!(GridDir::West.delta(), (0, -1));
}

#[test]
fn all_crossroads_grid_rejected_as_ambiguous() {
    // A 2x2 all-Crossroads grid: every cell has four open edges, so the
    // first cell after the start leaves three continuations. The compiler
    // must refuse to guess, not silently pick a branch.
    let g = grid_of(
        vec![
            vec![TilePart::Crossroads, TilePart::Crossroads],
            vec![TilePart::Crossroads, TilePart::Crossroads],
        ],
        1000,
        Vec2 { x: 0, y: 2000 },
    );
    let r = TrackCenterline::build_closed_loop(&g, (0, 0), GridDir::East);
    match r {
        Err(CenterlineBuildError::AmbiguousBranch { row, col, options }) => {
            assert_eq!((row, col), (0, 1));
            assert_eq!(options, vec![GridDir::North, GridDir::South, GridDir::East]);
        },
        _ => panic!("expected AmbiguousBranch"),
    }
}

#[test]
fn empty_start_cell_rejected() {
    let g = grid_of(
        vec![vec![TilePart::Empty, TilePart::StraightH]],
        1000,
        Vec2 { x: 0, y: 1000 },
    );
    let r = TrackCenterline::build_closed_loop(&g, (0, 0), GridDir::East);
    assert!(matches!(r, Err(CenterlineBuildError::InvalidStartCell { row: 0, col: 0 })));
    // Out-of-bounds start cells resolve to Empty and are rejected the same way.
    let r2 = TrackCenterline::build_closed_loop(&g, (7, 7), GridDir::East);
    assert!(matches!(r2, Err(CenterlineBuildError::InvalidStartCell { row: 7, col: 7 })));
}

#[test]
fn open_row_of_straights_dead_ends() {
    // A single row of horizontal straights never closes: marching east off
    // the last tile runs into empty space, a dead end at the last road cell.
    let g = grid_of(
        vec![vec![TilePart::StraightH, TilePart::SpawnPoint, TilePart::StraightH]],
        1000,
        Vec2 { x: 0, y: 1000 },
    );
    let r = TrackCenterline::build_closed_loop(&g, (0, 1), GridDir::East);
    assert!(matches!(r, Err(CenterlineBuildError::DeadEnd { row: 0, col: 2 })));
}

#[test]
fn stepping_off_the_index_space_dead_ends() {
    let g = grid_of(vec![vec![TilePart::StraightH]], 1000, Vec2 { x: 0, y: 1000 });
    let r = TrackCenterline::build_closed_loop(&g, (0, 0), GridDir::North);
    assert!(matches!(r, Err(CenterlineBuildError::DeadEnd { row: 0, col: 0 })));
}

#[test]
fn reentering_a_visited_cell_is_not_a_closed_loop() {
    // SP H NE
    // .  SW SE
    // From the spawn heading east the walk turns down at the NE corner,
    // west at the SE corner, north at the SW corner, and then steps back
    // into the already-visited straight at (0, 1) without reaching the
    // start: a re-entry, not a closed loop.
    let g = grid_of(
        vec![
            vec![TilePart::SpawnPoint, TilePart::StraightH, TilePart::CornerNE],
            vec![TilePart::Empty, TilePart::CornerSW, TilePart::CornerSE],
        ],
        1000,
        Vec2 { x: 0, y: 2000 },
    );
    let r = TrackCenterline::build_closed_loop(&g, (0, 0), GridDir::East);
    assert!(matches!(r, Err(CenterlineBuildError::NotClosedLoop)));
}

#[test]
fn square_loop_compiles_and_total_matches_independent_sum() {
    // A proper closed loop of 4 connected corner cells:
    //   NW NE
    //   SW SE
    let g = grid_of(
        vec![
            vec![TilePart::CornerNW, TilePart::CornerNE],
            vec![TilePart::CornerSW, TilePart::CornerSE],
        ],
        1000,
        Vec2 { x: 0, y: 2000 },
    );
    let c = TrackCenterline::build_closed_loop(&g, (0, 0), GridDir::East).unwrap();
    assert!(c.points.len() >= 3);
    assert!(c.total_length() > 0);
    // The total loop length equals the sum of Euclidean segment lengths
    // computed independently from the points.
    let n = c.points.len();
    let mut total: i64 = 0;
    for i in 0..n {
        let a = c.points[i];
        let b = c.points[(i + 1) % n];
        let dx = (a.x - b.x) as i128;
        let dy = (a.y - b.y) as i128;
        total += naive_isqrt(dx * dx + dy * dy);
    }
    assert_eq!(c.total_length(), total);
    // The loop stays within the 2x2 cell block.
    for p in &c.points {
        assert!(p.x >= 0 && p.x <= 2000 && p.y >= 0 && p.y <= 2000);
    }
}

#[test]
fn rectangle_loop_polyline_follows_tile_midlines() {
    // NW H NE
    // SW H SE
    let g = grid_of(
        vec![
            vec![TilePart::CornerNW, TilePart::StraightH, TilePart::CornerNE],
            vec![TilePart::CornerSW, TilePart::StraightH, TilePart::CornerSE],
        ],
        1000,
        Vec2 { x: 0, y: 2000 },
    );
    let c = TrackCenterline::build_closed_loop(&g, (0, 0), GridDir::East).unwrap();
    // The east edge midpoint of the NW corner cell is a polyline point and
    // the straight keeps the centerline at the row's vertical center.
    assert!(c.points.contains(&Vec2 { x: 1000, y: 1500 }));
    assert!(c.points.contains(&Vec2 { x: 2000, y: 1500 }));
    // The bottom straight runs through the lower row's center height.
    assert!(c.points.contains(&Vec2 { x: 1000, y: 500 }));
}
