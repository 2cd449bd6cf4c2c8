use mediaexplorer_gui::diskmap::{
    grid_cell, grid_rows, grid_sector, platter_position, platter_sector, MAP_COLUMNS,
};
use mediaexplorer_gui::render::Geometry;

#[test]
fn grid_rows_round_up() {
    assert_eq!(grid_rows(0), 0);
    assert_eq!(grid_rows(1), 1);
    assert_eq!(grid_rows(64), 1);
    assert_eq!(grid_rows(65), 2);
    assert_eq!(grid_rows(1440), 23);
}

#[test]
fn grid_cell_and_click_agree() {
    assert_eq!(MAP_COLUMNS, 64);
    assert_eq!(grid_cell(130), (2, 2));
    assert_eq!(grid_sector(2, 2, 200), Some(130));
    for i in 0..1440usize {
        let (row, col) = grid_cell(i);
        assert_eq!(grid_sector(row, col, 1440), Some(i));
    }
}

#[test]
fn grid_click_past_the_last_sector_selects_nothing() {
    assert_eq!(grid_sector(2, 2, 130), None);
    assert_eq!(grid_sector(22, 40, 1440), None);
    assert_eq!(grid_sector(usize::MAX, 1, 10), None);
    assert_eq!(grid_sector(0, usize::MAX, 10), None);
}

#[test]
fn platter_wedge_of_a_sector() {
    let geo = Geometry::ds_720k();
    assert_eq!(platter_position(geo, 21), (0, 1, 3));
    assert_eq!(platter_position(geo, 9), (1, 0, 0));
    assert_eq!(platter_sector(geo, 1440, 0, 1, 3), Some(21));
    assert_eq!(platter_sector(geo, 1440, 1, 0, 0), Some(9));
}

#[test]
fn platter_click_clamps_to_the_last_ring_and_wedge() {
    let geo = Geometry::ds_720k();
    assert_eq!(platter_sector(geo, 1440, 1, 200, 20), Some(1439));
    assert_eq!(platter_sector(geo, 1000, 1, 200, 20), None);
}

#[test]
fn platter_every_sector_drawn_once() {
    let geo = Geometry::ds_720k();
    let mut seen = vec![false; 1440];
    for track in 0..80usize {
        for side in 0..2usize {
            for sector in 0..9usize {
                let lba = platter_sector(geo, 1440, side, track, sector).unwrap();
                assert!(!seen[lba]);
                seen[lba] = true;
                assert_eq!(platter_position(geo, lba), (side, track, sector));
            }
        }
    }
    assert!(seen.iter().all(|s| *s));
}

#[test]
fn platter_empty_geometry_counts_as_one() {
    let geo = Geometry { sides: 0, tracks: 0, sectors_per_track: 0 };
    assert_eq!(platter_sector(geo, 5, 0, 3, 7), Some(0));
    assert_eq!(platter_position(geo, 4), (0, 4, 0));
}
