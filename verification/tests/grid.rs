use slint_mapping::cache::CacheError;
use slint_mapping::prefetch::{
    check_zoom_cap, keys_for_ranges, pauses_after, stored_outcome, tile_range_from_corners,
    FetchOutcome, RegionConfig, TileRange, MAX_BULK_FETCH_ZOOM,
};
use slint_mapping::prefetch_cli::{parse_args, ArgsError, ParsedArgs};
use slint_mapping::sources::osm::OSM_TILE_URL;
use slint_mapping::viewport::{tile_grid, GridTile};
use slint_mapping::TileKey;
use std::collections::HashSet;

fn strings(args: &[&str]) -> Vec<String> {
    args.iter().map(|s| s.to_string()).collect()
}

// ---------------------------------------------------------------------
// Visible-tile grid. The integer arguments are what the Web Mercator
// step gives for the camera and viewport named in each test.
// ---------------------------------------------------------------------

#[test]
fn zoom_zero_returns_just_the_world_tile() {
    // camera (0, 0), zoom 0, 256×256 viewport, 256 px tiles
    let tiles = tile_grid(0, 0, 0, 2, 2, 2, 2);
    assert!(
        tiles.iter().any(|t| t.key == TileKey { x: 0, y: 0, z: 0 }),
        "should include (0,0,0)"
    );
    // one row (the world), five wrapped columns
    assert_eq!(tiles.len(), 5);
    assert!(tiles.iter().all(|t| t.key == TileKey { x: 0, y: 0, z: 0 }));
}

#[test]
fn antimeridian_wraps() {
    // camera (179°, 0°), zoom 1, 1024×256 viewport
    let tiles = tile_grid(1, 1, 1, 4, 4, 2, 3);
    let xs: Vec<u32> = tiles.iter().map(|t| t.key.x).collect();
    assert!(xs.contains(&0));
    assert!(xs.contains(&1));
}

#[test]
fn polar_extents_are_clipped() {
    // camera (0°, 85°), zoom 4, 1024×2048 viewport
    let z = 4u8;
    let max_y = 1u32 << z;
    let tiles = tile_grid(z, 8, 0, 3, 4, 6, 6);
    assert!(!tiles.is_empty());
    for t in &tiles {
        assert!(t.key.y < max_y, "y={} exceeds valid range at zoom {z}", t.key.y);
    }
    // rows 0..=6 survive the clip, 8 columns each
    assert_eq!(tiles.len(), 7 * 8);
}

#[test]
fn every_tile_has_unique_pixel_position_at_centre_camera() {
    // camera (0, 0), zoom 3, 1024×768 viewport
    let tiles = tile_grid(3, 4, 4, 3, 4, 3, 4);
    for (i, a) in tiles.iter().enumerate() {
        for b in &tiles[i + 1..] {
            assert!(
                !(a.col == b.col && a.row == b.row),
                "tiles {a:?} and {b:?} share a pixel slot"
            );
        }
    }
}

#[test]
fn larger_viewport_returns_at_least_as_many_tiles() {
    // camera (0, 0), zoom 4: 512×512 and 1024×1024 viewports
    let small = tile_grid(4, 8, 8, 2, 3, 2, 3).len();
    let big = tile_grid(4, 8, 8, 3, 4, 3, 4).len();
    assert!(big >= small, "bigger viewport had fewer tiles ({big} vs {small})");
    assert_eq!(small, 36);
    assert_eq!(big, 64);
}

#[test]
fn grid_is_row_major_with_offsets_from_the_centre_tile() {
    let tiles = tile_grid(2, 1, 1, 1, 1, 1, 0);
    let expect = vec![
        GridTile { key: TileKey { x: 0, y: 0, z: 2 }, col: -1, row: -1 },
        GridTile { key: TileKey { x: 1, y: 0, z: 2 }, col: 0, row: -1 },
        GridTile { key: TileKey { x: 2, y: 0, z: 2 }, col: 1, row: -1 },
        GridTile { key: TileKey { x: 0, y: 1, z: 2 }, col: -1, row: 0 },
        GridTile { key: TileKey { x: 1, y: 1, z: 2 }, col: 0, row: 0 },
        GridTile { key: TileKey { x: 2, y: 1, z: 2 }, col: 1, row: 0 },
    ];
    assert_eq!(tiles, expect);
}

#[test]
fn negative_columns_wrap_to_the_east_edge() {
    let tiles = tile_grid(2, 0, 2, 2, 0, 0, 0);
    let xs: Vec<u32> = tiles.iter().map(|t| t.key.x).collect();
    assert_eq!(xs, vec![2, 3, 0]);
    let cols: Vec<i64> = tiles.iter().map(|t| t.col).collect();
    assert_eq!(cols, vec![-2, -1, 0]);
}

#[test]
fn band_entirely_past_a_pole_is_empty() {
    assert!(tile_grid(3, 0, -20, 1, 1, 2, 2).is_empty());
    assert!(tile_grid(3, 0, 40, 1, 1, 2, 2).is_empty());
}

#[test]
fn zoom_63_world_size_overflows_to_an_empty_grid() {
    assert!(tile_grid(63, 5, 5, 2, 2, 2, 2).is_empty());
    assert_eq!(tile_grid(62, 5, 5, 0, 0, 0, 0).len(), 1);
}

// ---------------------------------------------------------------------
// Bulk prefetch: tile ranges and their keys. The corner indices are the
// floored Web Mercator tile coordinates of the box corners.
// ---------------------------------------------------------------------

#[test]
fn keys_for_region_world_z2_is_16_tiles() {
    // (-180, -85) .. (180, 85) at z=2: x 0 and 4, y 3 and 0
    let r = tile_range_from_corners(0, 3, 4, 0, 2);
    assert_eq!(r, TileRange { z: 2, x_min: 0, x_max: 3, y_min: 0, y_max: 3 });
    let keys = keys_for_ranges(&vec![r]);
    assert_eq!(keys.len(), 16);
}

#[test]
fn keys_for_region_single_zoom_london() {
    // (-0.5, 51.25) .. (0.3, 51.75) at z=12
    let r = tile_range_from_corners(2042, 1366, 2051, 1357, 12);
    let keys = keys_for_ranges(&vec![r]);
    assert!(keys.len() > 50 && keys.len() < 150, "got {} tiles", keys.len());
    assert!(keys.iter().all(|k| k.z == 12));
    assert_eq!(keys.len(), 10 * 10);
}

#[test]
fn keys_for_region_spans_zoom_range() {
    // (-1, 51) .. (1, 52) at z=4..=6
    let ranges = vec![
        tile_range_from_corners(7, 5, 8, 5, 4),
        tile_range_from_corners(15, 10, 16, 10, 5),
        tile_range_from_corners(31, 21, 32, 21, 6),
    ];
    let keys = keys_for_ranges(&ranges);
    let zooms: HashSet<u8> = keys.iter().map(|k| k.z).collect();
    assert_eq!(zooms, [4u8, 5, 6].into_iter().collect());
}

#[test]
fn keys_come_in_zoom_then_x_then_y_order() {
    let ranges = vec![
        TileRange { z: 1, x_min: 0, x_max: 1, y_min: 0, y_max: 1 },
        TileRange { z: 2, x_min: 3, x_max: 3, y_min: 1, y_max: 2 },
    ];
    let keys = keys_for_ranges(&ranges);
    let expect = vec![
        TileKey { x: 0, y: 0, z: 1 },
        TileKey { x: 0, y: 1, z: 1 },
        TileKey { x: 1, y: 0, z: 1 },
        TileKey { x: 1, y: 1, z: 1 },
        TileKey { x: 3, y: 1, z: 2 },
        TileKey { x: 3, y: 2, z: 2 },
    ];
    assert_eq!(keys, expect);
}

#[test]
fn corner_indices_are_ordered_and_clamped() {
    // swapped corners, one below zero, one past the east edge
    let r = tile_range_from_corners(9, -4, -2, 2, 3);
    assert_eq!(r, TileRange { z: 3, x_min: 0, x_max: 7, y_min: 0, y_max: 2 });
    // zoom 0: everything collapses onto the single tile
    let r0 = tile_range_from_corners(-1, -1, 5, 5, 0);
    assert_eq!(r0, TileRange { z: 0, x_min: 0, x_max: 0, y_min: 0, y_max: 0 });
}

#[test]
fn empty_range_yields_no_keys() {
    let r = TileRange { z: 3, x_min: 4, x_max: 2, y_min: 0, y_max: 1 };
    assert!(keys_for_ranges(&vec![r]).is_empty());
    assert!(keys_for_ranges(&vec![]).is_empty());
}

#[test]
fn region_config_defaults() {
    let c = RegionConfig::default();
    assert_eq!(c.url_template, OSM_TILE_URL);
    assert_eq!(c.user_agent, "slint-mapping/0.1 (https://github.com/slint-rs/slint-mapping)");
    assert_eq!(c.sleep_ms, 300);
    assert_eq!(c.max_zoom, MAX_BULK_FETCH_ZOOM);
    assert_eq!(MAX_BULK_FETCH_ZOOM, 16);
}

#[test]
fn zoom_past_the_cap_is_refused() {
    let c = RegionConfig::default();
    assert_eq!(check_zoom_cap(16, &c), Ok(()));
    assert_eq!(check_zoom_cap(0, &c), Ok(()));
    assert_eq!(
        check_zoom_cap(17, &c),
        Err("zoom_max 17 exceeds the configured cap (16); raise RegionConfig::max_zoom \
             if you've cleared bulk download with the provider"
            .to_string())
    );
}

#[test]
fn stored_tile_outcomes() {
    match stored_outcome(1234, Ok(())) {
        FetchOutcome::Fetched { bytes } => assert_eq!(bytes, 1234),
        other => panic!("expected Fetched, got {other:?}"),
    }
    match stored_outcome(7, Err(CacheError::Other("disk full".to_string()))) {
        FetchOutcome::Failed(m) => assert_eq!(m, "cache put: tile cache error: disk full"),
        other => panic!("expected Failed, got {other:?}"),
    }
    let io = std::io::Error::new(std::io::ErrorKind::Other, "boom");
    match stored_outcome(7, Err(CacheError::Io(io))) {
        FetchOutcome::Failed(m) => assert!(m.starts_with("cache put: tile cache I/O error: "), "{m}"),
        other => panic!("expected Failed, got {other:?}"),
    }
}

#[test]
fn only_downloads_pause() {
    assert!(pauses_after(&FetchOutcome::Fetched { bytes: 1 }));
    assert!(!pauses_after(&FetchOutcome::Cached));
    assert!(!pauses_after(&FetchOutcome::Failed("x".to_string())));
}

// ---------------------------------------------------------------------
// Prefetch tool arguments.
// ---------------------------------------------------------------------

#[test]
fn parse_args_defaults_with_bbox() {
    match parse_args(&strings(&["-0.5", "51.25", "0.3", "51.75"])) {
        Ok(ParsedArgs::Run(p)) => {
            assert_eq!(p.bbox, strings(&["-0.5", "51.25", "0.3", "51.75"]));
            assert_eq!((p.zoom_min, p.zoom_max), (0, 12));
            assert_eq!(p.dest, "sample-tiles");
            assert_eq!(p.url, OSM_TILE_URL);
            assert_eq!(p.ua, "slint-mapping/0.1 (https://github.com/slint-rs/slint-mapping)");
            assert_eq!(p.sleep_ms, 300);
        }
        other => panic!("unexpected {other:?}"),
    }
}

#[test]
fn parse_args_reads_every_option() {
    let args = strings(&[
        "--dest", "out", "--zoom", "4-12", "--url", "https://t/{z}/{x}/{y}", "--ua", "me",
        "--sleep-ms", "+50", "-0.5", "51.25", "0.3", "51.75",
    ]);
    match parse_args(&args) {
        Ok(ParsedArgs::Run(p)) => {
            assert_eq!((p.zoom_min, p.zoom_max), (4, 12));
            assert_eq!(p.dest, "out");
            assert_eq!(p.url, "https://t/{z}/{x}/{y}");
            assert_eq!(p.ua, "me");
            assert_eq!(p.sleep_ms, 50);
            assert_eq!(p.bbox.len(), 4);
        }
        other => panic!("unexpected {other:?}"),
    }
}

#[test]
fn parse_args_single_zoom_is_both_ends() {
    match parse_args(&strings(&["--zoom", "7", "1", "2", "3", "4"])) {
        Ok(ParsedArgs::Run(p)) => assert_eq!((p.zoom_min, p.zoom_max), (7, 7)),
        other => panic!("unexpected {other:?}"),
    }
}

#[test]
fn parse_args_help_stops_at_once() {
    assert!(matches!(parse_args(&strings(&["1", "--help"])), Ok(ParsedArgs::Help)));
    assert!(matches!(parse_args(&strings(&["-h", "--sleep-ms", "x"])), Ok(ParsedArgs::Help)));
}

#[test]
fn parse_args_errors() {
    match parse_args(&strings(&["1", "2", "3", "4", "--dest"])) {
        Err(ArgsError::MissingValue(f)) => assert_eq!(f, "--dest"),
        other => panic!("unexpected {other:?}"),
    }
    assert!(matches!(
        parse_args(&strings(&["--sleep-ms", "-3", "1", "2", "3", "4"])),
        Err(ArgsError::BadSleepMs)
    ));
    assert!(matches!(
        parse_args(&strings(&["1", "2", "3"])),
        Err(ArgsError::WrongPositionalCount)
    ));
    assert!(matches!(
        parse_args(&strings(&["--zoom", "3-300", "1", "2", "3", "4"])),
        Err(ArgsError::BadZoom)
    ));
    assert!(matches!(
        parse_args(&strings(&["--zoom", "a", "1", "2", "3", "4"])),
        Err(ArgsError::BadZoom)
    ));
    // the value after an option is taken whatever it looks like
    match parse_args(&strings(&["--ua", "--help", "1", "2", "3", "4"])) {
        Ok(ParsedArgs::Run(p)) => assert_eq!(p.ua, "--help"),
        other => panic!("unexpected {other:?}"),
    }
}

#[test]
fn region_keys_never_repeat_a_tile() {
    let ranges: Vec<TileRange> = (3u8..=6)
        .map(|z| tile_range_from_corners(-1, 2, 40, 9, z))
        .collect();
    let keys = keys_for_ranges(&ranges);
    let unique: HashSet<TileKey> = keys.iter().copied().collect();
    assert_eq!(unique.len(), keys.len());
    // z=3: x 0..=7, y 2..=7; z=4: x 0..=15, y 2..=9;
    // z=5: x 0..=31, y 2..=9; z=6: x 0..=40, y 2..=9
    assert_eq!(keys.len(), 8 * 6 + 16 * 8 + 32 * 8 + 41 * 8);
}
