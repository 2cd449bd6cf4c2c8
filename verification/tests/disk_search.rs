use mediaexplorer_gui::disk_search::{listing_match_lines, match_scroll_row, DiskSearch};

#[test]
fn disk_search_jump_maps_offset_to_sector_and_row() {
    let s = DiskSearch { matches: vec![1234], pos: 0 };
    assert_eq!(s.jump_target(), Some((2, 13)));
}

#[test]
fn disk_search_step_wraps_in_both_directions() {
    let mut s = DiskSearch { matches: vec![0, 512, 1024], pos: 0 };
    s.step(true);
    assert_eq!(s.pos, 1);
    s.step(false);
    assert_eq!(s.pos, 0);
    s.step(false);
    assert_eq!(s.pos, 2);
    s.step(true);
    assert_eq!(s.pos, 0);
}

#[test]
fn disk_search_step_is_noop_without_matches() {
    let mut s = DiskSearch { matches: Vec::new(), pos: 0 };
    s.step(true);
    assert_eq!(s.pos, 0);
    assert_eq!(s.jump_target(), None);
}

#[test]
fn stepping_there_and_back_returns_to_each_match() {
    for start in 0..4 {
        for forward in [true, false] {
            let mut s = DiskSearch { matches: vec![10, 20, 30, 40], pos: start };
            s.step(forward);
            assert!(s.pos < 4);
            s.step(!forward);
            assert_eq!(s.pos, start);
        }
    }
}

#[test]
fn listing_matches_map_to_lines() {
    let text = b"10 PRINT\n20 GOTO 10\n30 END\n";
    assert_eq!(listing_match_lines(text, &[0, 3, 9, 12, 20, 27]), vec![0, 0, 1, 1, 2, 3]);
    assert_eq!(listing_match_lines(b"", &[0]), vec![0]);
    assert!(listing_match_lines(text, &[]).is_empty());
}

#[test]
fn find_scrolls_by_row_or_line() {
    assert_eq!(match_scroll_row(true, 100, 16, Some(7)), 6);
    assert_eq!(match_scroll_row(true, 100, 0, None), 100);
    assert_eq!(match_scroll_row(false, 100, 16, Some(7)), 7);
    assert_eq!(match_scroll_row(false, 100, 16, None), 0);
}

#[test]
fn file_find_steps_wrap_around() {
    let mut s = DiskSearch { matches: vec![5, 50, 500], pos: 2 };
    s.step(true);
    assert_eq!(s.pos, 0);
    s.step(false);
    assert_eq!(s.pos, 2);
}
