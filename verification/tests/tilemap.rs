use sideworld::common::{Vec2, AABB};
use sideworld::fixed::Fixed;
use sideworld::input::{InputState, MouseState};
use sideworld::tilemap::{read_header, LevelError, Tilemap, TilemapAction};
use std::collections::HashSet;

fn v(x: i64, y: i64) -> Vec2 {
    Vec2::from_raw(x, y)
}

fn chars(s: &str) -> Vec<char> {
    s.chars().collect()
}

fn lines(text: &str) -> Vec<Vec<char>> {
    text.lines().map(chars).collect()
}

fn click(now: u32, before: u32) -> InputState {
    InputState {
        keys: HashSet::new(),
        last_keys: HashSet::new(),
        key_mod: 0,
        mouse: MouseState { buttons: now, x: 0, y: 0 },
        last_mouse: MouseState { buttons: before, x: 0, y: 0 },
    }
}

/// Every tile of the map, row by row from the top, '#' for a solid one.
fn picture(map: &Tilemap) -> Vec<String> {
    (0..map.height())
        .rev()
        .map(|y| (0..map.width()).map(|x| if map.get_tile(x, y) { '#' } else { '.' }).collect())
        .collect()
}

#[test]
fn a_new_map_is_open_everywhere() {
    let map = Tilemap::new(4, 3, Fixed::from_units(2));
    assert_eq!(map.width(), 4);
    assert_eq!(map.height(), 3);
    assert_eq!(map.tile_size().raw, 2_000_000);
    assert_eq!(picture(&map), vec!["....", "....", "...."]);
    // nothing is solid outside the map
    assert!(!map.get_tile(4, 0));
    assert!(!map.get_tile(0, 3));
    assert!(!map.get_tile(usize::MAX, usize::MAX));
}

#[test]
fn a_map_may_be_empty() {
    let map = Tilemap::new(0, 0, Fixed::zero());
    assert_eq!((map.width(), map.height()), (0, 0));
    assert!(!map.get_tile(0, 0));
    assert_eq!(map.tile_for(v(0, 0)), None);
    let thin = Tilemap::new(0, 5, Fixed::from_units(1));
    assert_eq!((thin.width(), thin.height()), (0, 5));
    assert!(!thin.get_tile(0, 0));
}

#[test]
fn only_maps_that_memory_can_hold_fit() {
    assert!(Tilemap::fits(0, 0));
    assert!(Tilemap::fits(1000, 1000));
    assert!(Tilemap::fits(usize::MAX, 0));
    assert!(Tilemap::fits(isize::MAX as usize, 1));
    assert!(!Tilemap::fits(isize::MAX as usize + 1, 1));
    assert!(!Tilemap::fits(usize::MAX, 2));
    assert!(!Tilemap::fits(1 << 40, 1 << 40));
}

#[test]
fn toggling_changes_one_tile() {
    let mut map = Tilemap::new(4, 3, Fixed::from_units(2));
    map.resolve_action(&TilemapAction::ToggleTileCollision(1, 2));
    assert_eq!(picture(&map), vec![".#..", "....", "...."]);
    assert!(map.get_tile(1, 2));
    assert!(!map.get_tile(2, 1));
    map.resolve_action(&TilemapAction::ToggleTileCollision(3, 0));
    assert_eq!(picture(&map), vec![".#..", "....", "...#"]);
    map.resolve_action(&TilemapAction::ToggleTileCollision(1, 2));
    assert_eq!(picture(&map), vec!["....", "....", "...#"]);
}

#[test]
fn points_fall_into_tiles() {
    let map = Tilemap::new(4, 3, Fixed::from_units(2));
    assert_eq!(map.tile_for(v(0, 0)), Some((0, 0)));
    assert_eq!(map.tile_for(v(1_999_999, 1_999_999)), Some((0, 0)));
    assert_eq!(map.tile_for(v(2_000_000, 1_999_999)), Some((1, 0)));
    assert_eq!(map.tile_for(v(7_999_999, 5_999_999)), Some((3, 2)));
    assert_eq!(map.tile_for(v(8_000_000, 0)), None);
    assert_eq!(map.tile_for(v(0, 6_000_000)), None);
    assert_eq!(map.tile_for(v(-1, 0)), None);
    assert_eq!(map.tile_for(v(0, -1)), None);
    assert_eq!(map.tile_for(v(i64::MAX, 0)), None);
}

#[test]
fn tiles_of_odd_sizes() {
    // a third of a unit, rounded down to a raw step
    let map = Tilemap::new(10, 10, Fixed::from_raw(333_333));
    assert_eq!(map.tile_for(v(333_332, 0)), Some((0, 0)));
    assert_eq!(map.tile_for(v(333_333, 0)), Some((1, 0)));
    assert_eq!(map.tile_for(v(1_000_000, 999_998)), Some((3, 2)));
    // with a tile size below zero every point from the origin up is in tile 0
    let inverted = Tilemap::new(4, 3, Fixed::from_units(-2));
    assert_eq!(inverted.tile_for(v(0, 0)), Some((0, 0)));
    assert_eq!(inverted.tile_for(v(100_000_000, 5)), Some((0, 0)));
    assert_eq!(inverted.tile_for(v(-1, 5)), None);
    // with a tile size of zero only the origin is
    let flat = Tilemap::new(4, 3, Fixed::zero());
    assert_eq!(flat.tile_for(v(0, 0)), Some((0, 0)));
    assert_eq!(flat.tile_for(v(1, 0)), None);
    assert_eq!(flat.tile_for(v(0, 1)), None);
}

#[test]
fn a_click_toggles_the_tile_under_the_cursor() {
    let mut map = Tilemap::new(4, 3, Fixed::from_units(2));
    map.input(&click(1, 0), v(5_000_000, 3_000_000));
    assert_eq!(picture(&map), vec!["....", "..#.", "...."]);
    // held, not pressed
    map.input(&click(1, 1), v(1_000_000, 1_000_000));
    assert_eq!(picture(&map), vec!["....", "..#.", "...."]);
    // another button
    map.input(&click(4, 0), v(1_000_000, 1_000_000));
    assert_eq!(picture(&map), vec!["....", "..#.", "...."]);
    // outside the map
    map.input(&click(1, 0), v(-1_000_000, 1_000_000));
    assert_eq!(picture(&map), vec!["....", "..#.", "...."]);
    map.input(&click(1, 0), v(5_000_000, 3_000_000));
    assert_eq!(picture(&map), vec!["....", "....", "...."]);
}

#[test]
fn a_box_finds_the_solid_tiles_between_its_corners() {
    let mut map = Tilemap::new(5, 4, Fixed::from_units(1));
    for (x, y) in [(1, 1), (2, 1), (2, 2), (4, 3), (0, 0), (3, 1)] {
        map.resolve_action(&TilemapAction::ToggleTileCollision(x, y));
    }
    assert_eq!(picture(&map), vec!["....#", "..#..", ".###.", "#...."]);
    // from (1.5, 0.5) to (3.5, 2.5): columns 1 to 3, rows 0 to 2
    let aabb = AABB::new(v(2_500_000, 1_500_000), v(1_000_000, 1_000_000));
    assert_eq!(map.intersects_box(&aabb), vec![(1, 1), (2, 1), (2, 2), (3, 1)]);
    // a box inside one open tile
    let small = AABB::new(v(500_000, 1_500_000), v(100_000, 100_000));
    assert_eq!(map.intersects_box(&small), vec![]);
    // a box inside one solid tile
    let inside = AABB::new(v(4_500_000, 3_500_000), v(100_000, 100_000));
    assert_eq!(map.intersects_box(&inside), vec![(4, 3)]);
    // the whole map but for its upper and right edge
    let all = AABB::new(v(2_500_000, 2_000_000), v(2_499_999, 1_999_999));
    assert_eq!(map.intersects_box(&all), vec![(0, 0), (1, 1), (2, 1), (2, 2), (3, 1), (4, 3)]);
}

#[test]
fn a_box_with_a_corner_outside_finds_nothing() {
    let mut map = Tilemap::new(5, 4, Fixed::from_units(1));
    map.resolve_action(&TilemapAction::ToggleTileCollision(0, 0));
    let over_left = AABB::new(v(0, 500_000), v(500_000, 100_000));
    assert_eq!(map.intersects_box(&over_left), vec![]);
    let over_right = AABB::new(v(4_500_000, 500_000), v(4_600_000, 100_000));
    assert_eq!(map.intersects_box(&over_right), vec![]);
    let touching_top = AABB::new(v(500_000, 2_000_000), v(100_000, 2_000_000));
    assert_eq!(map.intersects_box(&touching_top), vec![]);
    // corners the wrong way round
    let inverted = AABB::new(v(2_000_000, 2_000_000), v(-1_500_000, -1_500_000));
    assert_eq!(map.intersects_box(&inverted), vec![]);
}

#[test]
fn the_first_line_of_a_level() {
    assert_eq!(read_header(&chars("4 3 2.5")), Some((4, 3, chars("2.5"))));
    assert_eq!(read_header(&chars("  40\t30   1e0  and more\n")), Some((40, 30, chars("1e0"))));
    assert_eq!(read_header(&chars("+4 003 x")), Some((4, 3, chars("x"))));
    assert_eq!(read_header(&chars("4 3")), None);
    assert_eq!(read_header(&chars("")), None);
    assert_eq!(read_header(&chars("a 3 2")), None);
    assert_eq!(read_header(&chars("4 -3 2")), None);
    assert_eq!(read_header(&chars("4.0 3 2")), None);
}

#[test]
fn rows_fill_the_map_from_the_top() {
    let rows = lines("1 0 0 0\n\n0 2 0 0\n   \n0 0 3 17\n");
    let (map, truncated) = Tilemap::from_rows(4, 3, Fixed::from_units(2), &rows).unwrap();
    assert!(!truncated);
    assert_eq!(picture(&map), vec!["#...", ".#..", "..##"]);
    assert_eq!((map.width(), map.height()), (4, 3));
    assert_eq!(map.tile_size().raw, 2_000_000);
    assert!(map.get_tile(0, 2));
    assert!(map.get_tile(3, 0));
    assert!(!map.get_tile(0, 0));
}

#[test]
fn rows_may_have_open_tiles_to_spare() {
    let rows = lines("1 0 0\n0 1 0 0 0\n");
    let (map, truncated) = Tilemap::from_rows(2, 2, Fixed::from_units(1), &rows).unwrap();
    assert!(truncated);
    assert_eq!(picture(&map), vec!["#.", ".#"]);
    // and open rows to spare: nothing of them is kept, but they are counted
    let rows = lines("1 0\n0 1\n0 0\n");
    assert_eq!(Tilemap::from_rows(2, 2, Fixed::from_units(1), &rows).err(), Some(LevelError::WrongRowCount));
}

#[test]
fn a_level_without_tiles() {
    let (map, truncated) = Tilemap::from_rows(0, 0, Fixed::zero(), &lines("\n  \n")).unwrap();
    assert!(!truncated);
    assert_eq!((map.width(), map.height()), (0, 0));
    let (map, truncated) = Tilemap::from_rows(3, 0, Fixed::zero(), &Vec::new()).unwrap();
    assert!(!truncated);
    assert_eq!((map.width(), map.height()), (3, 0));
    // a level without width still counts its rows
    let (map, truncated) = Tilemap::from_rows(0, 2, Fixed::zero(), &lines("0\n0 0\n")).unwrap();
    assert!(truncated);
    assert_eq!((map.width(), map.height()), (0, 2));
}

#[test]
fn what_can_be_wrong_with_a_level() {
    let size = Fixed::from_units(1);
    let err = |w: usize, h: usize, text: &str| Tilemap::from_rows(w, h, size, &lines(text)).err();
    assert_eq!(err(3, 2, "0 0 0\n0 0\n"), Some(LevelError::RowTooShort));
    assert_eq!(err(3, 2, "0 x 0\n0 0 0\n"), Some(LevelError::BadTile));
    assert_eq!(err(3, 2, "0 -1 0\n0 0 0\n"), Some(LevelError::BadTile));
    assert_eq!(err(3, 2, "0 0 0 1\n0 0 0\n"), Some(LevelError::TileOutsideLevel));
    assert_eq!(err(3, 2, "0 0 0\n0 0 0\n0 1 0\n"), Some(LevelError::TileOutsideLevel));
    assert_eq!(err(3, 2, "0 0 0\n"), Some(LevelError::WrongRowCount));
    assert_eq!(err(3, 2, ""), Some(LevelError::WrongRowCount));
    assert_eq!(err(3, 2, "0 0 0\n0 0 0\n0 0 0\n"), Some(LevelError::WrongRowCount));
    assert_eq!(err(0, 1, "1\n"), Some(LevelError::TileOutsideLevel));
    assert_eq!(err(usize::MAX, 2, ""), Some(LevelError::TooLarge));
    assert_eq!(err(1 << 40, 1 << 40, "0\n"), Some(LevelError::TooLarge));
}

#[test]
fn the_first_thing_wrong_is_reported() {
    let size = Fixed::from_units(1);
    let err = |w: usize, h: usize, text: &str| Tilemap::from_rows(w, h, size, &lines(text)).err();
    // a bad tile before a short row
    assert_eq!(err(3, 2, "0 x 0\n0 0\n"), Some(LevelError::BadTile));
    // a short row before a bad tile
    assert_eq!(err(3, 2, "0 0\n0 x 0\n"), Some(LevelError::RowTooShort));
    // a tile outside before a bad tile in the same row
    assert_eq!(err(3, 2, "0 0 0 1 x\n0 0 0\n"), Some(LevelError::TileOutsideLevel));
    // a bad tile before a tile outside in the same row
    assert_eq!(err(3, 2, "0 0 0 x 1\n0 0 0\n"), Some(LevelError::BadTile));
    // a short row is found before its tiles are looked at
    assert_eq!(err(3, 2, "x 1\n"), Some(LevelError::RowTooShort));
}

#[test]
fn a_level_file_begins_with_its_header() {
    let file = lines("4 3 2.0\n1 0 0 0\n\n0 2 0 0\n0 0 3 17\n");
    let (map, truncated) = Tilemap::from_file(&file, Fixed::from_units(2)).unwrap();
    assert!(!truncated);
    assert_eq!(picture(&map), vec!["#...", ".#..", "..##"]);
    assert_eq!(map.tile_size().raw, 2_000_000);
    // the tiles that a header leaves unread are not rows
    let file = lines("2 1 1 9 9 9\n0 1 0\n");
    let (map, truncated) = Tilemap::from_file(&file, Fixed::from_units(1)).unwrap();
    assert!(truncated);
    assert_eq!(picture(&map), vec![".#"]);
}

#[test]
fn a_file_without_a_line_is_an_empty_level() {
    let (map, truncated) = Tilemap::from_file(&Vec::new(), Fixed::from_units(7)).unwrap();
    assert!(!truncated);
    assert_eq!((map.width(), map.height()), (0, 0));
    assert_eq!(map.tile_size().raw, 0);
}

#[test]
fn what_can_be_wrong_with_a_level_file() {
    let size = Fixed::from_units(1);
    let err = |text: &str| Tilemap::from_file(&lines(text), size).err();
    assert_eq!(err("\n2 1 1\n0 0\n"), Some(LevelError::BadHeader));
    assert_eq!(err("2 1\n0 0\n"), Some(LevelError::BadHeader));
    assert_eq!(err("two 1 1\n0 0\n"), Some(LevelError::BadHeader));
    assert_eq!(err("2 -1 1\n0 0\n"), Some(LevelError::BadHeader));
    assert_eq!(err("18446744073709551615 2 1\n"), Some(LevelError::TooLarge));
    assert_eq!(err("2 1 1\n0\n"), Some(LevelError::RowTooShort));
    assert_eq!(err("2 1 1\n0 #\n"), Some(LevelError::BadTile));
    assert_eq!(err("2 1 1\n0 0 1\n"), Some(LevelError::TileOutsideLevel));
    assert_eq!(err("2 1 1\n"), Some(LevelError::WrongRowCount));
    assert_eq!(err("2 1 1\n0 0\n0 0\n"), Some(LevelError::WrongRowCount));
}
