use super_matte_bros::rect::Rect;
use super_matte_bros::sprite::StaticSprite;
use super_matte_bros::tile::{Layer, Tile};

#[test]
fn layer_find_intersecting() {
    let layer = Layer::new(3, 3, 3, 3, ());

    // out of bounds.
    assert_eq!(layer.find_intersecting(&Rect::new(-1, 1, 1, 1)), None);
    assert_eq!(layer.find_intersecting(&Rect::new(1, -1, 1, 1)), None);
    assert_eq!(layer.find_intersecting(&Rect::new(-1, -1, 1, 1)), None);

    assert_eq!(layer.find_intersecting(&Rect::new(9, 7, 1, 1)), None);
    assert_eq!(layer.find_intersecting(&Rect::new(7, 9, 1, 1)), None);
    assert_eq!(layer.find_intersecting(&Rect::new(9, 9, 1, 1)), None);

    // middle of tile.
    assert_eq!(layer.find_intersecting(&Rect::new(1, 1, 1, 1)), Some(Rect::new(0, 0, 1, 1)));
    assert_eq!(layer.find_intersecting(&Rect::new(4, 1, 1, 1)), Some(Rect::new(1, 0, 1, 1)));
    assert_eq!(layer.find_intersecting(&Rect::new(7, 1, 1, 1)), Some(Rect::new(2, 0, 1, 1)));

    assert_eq!(layer.find_intersecting(&Rect::new(1, 4, 1, 1)), Some(Rect::new(0, 1, 1, 1)));
    assert_eq!(layer.find_intersecting(&Rect::new(4, 4, 1, 1)), Some(Rect::new(1, 1, 1, 1)));
    assert_eq!(layer.find_intersecting(&Rect::new(7, 4, 1, 1)), Some(Rect::new(2, 1, 1, 1)));

    assert_eq!(layer.find_intersecting(&Rect::new(1, 7, 1, 1)), Some(Rect::new(0, 2, 1, 1)));
    assert_eq!(layer.find_intersecting(&Rect::new(4, 7, 1, 1)), Some(Rect::new(1, 2, 1, 1)));
    assert_eq!(layer.find_intersecting(&Rect::new(7, 7, 1, 1)), Some(Rect::new(2, 2, 1, 1)));

    // interlaps 4 tiles.
    assert_eq!(layer.find_intersecting(&Rect::new(2, 2, 2, 2)), Some(Rect::new(0, 0, 2, 2)));
    assert_eq!(layer.find_intersecting(&Rect::new(5, 2, 2, 2)), Some(Rect::new(1, 0, 2, 2)));
    assert_eq!(layer.find_intersecting(&Rect::new(2, 5, 2, 2)), Some(Rect::new(0, 1, 2, 2)));
    assert_eq!(layer.find_intersecting(&Rect::new(5, 5, 2, 2)), Some(Rect::new(1, 1, 2, 2)));

    // interlaps 2 tiles horizontal.
    assert_eq!(layer.find_intersecting(&Rect::new(2, 1, 2, 1)), Some(Rect::new(0, 0, 2, 1)));
    assert_eq!(layer.find_intersecting(&Rect::new(5, 1, 2, 1)), Some(Rect::new(1, 0, 2, 1)));

    assert_eq!(layer.find_intersecting(&Rect::new(2, 4, 2, 1)), Some(Rect::new(0, 1, 2, 1)));
    assert_eq!(layer.find_intersecting(&Rect::new(5, 4, 2, 1)), Some(Rect::new(1, 1, 2, 1)));

    assert_eq!(layer.find_intersecting(&Rect::new(2, 7, 2, 1)), Some(Rect::new(0, 2, 2, 1)));
    assert_eq!(layer.find_intersecting(&Rect::new(5, 7, 2, 1)), Some(Rect::new(1, 2, 2, 1)));

    // interlaps 2 tiles vertical.
    assert_eq!(layer.find_intersecting(&Rect::new(1, 2, 1, 2)), Some(Rect::new(0, 0, 1, 2)));
    assert_eq!(layer.find_intersecting(&Rect::new(1, 5, 1, 2)), Some(Rect::new(0, 1, 1, 2)));

    assert_eq!(layer.find_intersecting(&Rect::new(4, 2, 1, 2)), Some(Rect::new(1, 0, 1, 2)));
    assert_eq!(layer.find_intersecting(&Rect::new(4, 5, 1, 2)), Some(Rect::new(1, 1, 1, 2)));

    assert_eq!(layer.find_intersecting(&Rect::new(7, 2, 1, 2)), Some(Rect::new(2, 0, 1, 2)));
    assert_eq!(layer.find_intersecting(&Rect::new(7, 5, 1, 2)), Some(Rect::new(2, 1, 1, 2)));

    // exactly one tile.
    assert_eq!(layer.find_intersecting(&Rect::new(0, 0, 3, 3)), Some(Rect::new(0, 0, 1, 1)));
}

#[test]
fn rect_keeps_what_it_is_given() {
    let r = Rect::new(-7, 9, 0, 4_000_000_000);
    assert_eq!(r.x(), -7);
    assert_eq!(r.y(), 9);
    assert_eq!(r.width(), 0);
    assert_eq!(r.height(), 4_000_000_000);
    assert_eq!(r, Rect { x: -7, y: 9, width: 0, height: 4_000_000_000 });
}

#[test]
fn new_layer_holds_the_default_everywhere() {
    let layer = Layer::new(4, 3, 32, 16, 7u8);
    assert_eq!(layer.width(), 4);
    assert_eq!(layer.height(), 3);
    assert_eq!(layer.tile_width(), 32);
    assert_eq!(layer.tile_height(), 16);
    for row in 0..3 {
        for col in 0..4 {
            assert_eq!(layer.get_tile(col, row), Some(&7u8));
        }
    }
}

#[test]
fn get_tile_outside_the_grid_is_none() {
    let layer = Layer::new(4, 3, 32, 16, 7u8);
    assert_eq!(layer.get_tile(-1, 0), None);
    assert_eq!(layer.get_tile(0, -1), None);
    assert_eq!(layer.get_tile(4, 0), None);
    assert_eq!(layer.get_tile(0, 3), None);
    assert_eq!(layer.get_tile(4, 2), None);
    assert_eq!(layer.get_tile(i32::MIN, i32::MIN), None);
    assert_eq!(layer.get_tile(i32::MAX, i32::MAX), None);
    assert_eq!(layer.get_tile(3, 2), Some(&7u8));
}

#[test]
fn set_tile_changes_one_cell_only() {
    let mut layer = Layer::new(4, 3, 32, 16, 0u8);
    assert!(layer.set_tile(3, 1, 9));
    assert!(layer.set_tile(0, 2, 5));
    for row in 0..3 {
        for col in 0..4 {
            let expected = if (col, row) == (3, 1) {
                9
            } else if (col, row) == (0, 2) {
                5
            } else {
                0
            };
            assert_eq!(layer.get_tile(col, row), Some(&expected));
        }
    }
    assert!(layer.set_tile(3, 1, 1));
    assert_eq!(layer.get_tile(3, 1), Some(&1));
}

#[test]
fn set_tile_outside_the_grid_changes_nothing() {
    let mut layer = Layer::new(2, 2, 8, 8, 0u8);
    assert!(!layer.set_tile(-1, 0, 9));
    assert!(!layer.set_tile(0, -1, 9));
    assert!(!layer.set_tile(2, 0, 9));
    assert!(!layer.set_tile(0, 2, 9));
    assert!(!layer.set_tile(i32::MAX, i32::MIN, 9));
    for row in 0..2 {
        for col in 0..2 {
            assert_eq!(layer.get_tile(col, row), Some(&0));
        }
    }
}

#[test]
fn to_rect_is_the_whole_extent() {
    let layer = Layer::new(212, 20, 32, 32, ());
    assert_eq!(layer.to_rect(), Rect::new(0, 0, 212 * 32, 20 * 32));
    let layer = Layer::new(3, 5, 7, 11, ());
    assert_eq!(layer.to_rect(), Rect::new(0, 0, 21, 55));
}

#[test]
fn dimensions_with_a_zero_are_refused() {
    assert!(Layer::<u8>::dimensions_ok(1, 1, 1, 1));
    assert!(!Layer::<u8>::dimensions_ok(0, 1, 1, 1));
    assert!(!Layer::<u8>::dimensions_ok(1, 0, 1, 1));
    assert!(!Layer::<u8>::dimensions_ok(1, 1, 0, 1));
    assert!(!Layer::<u8>::dimensions_ok(1, 1, 1, 0));
    assert!(Layer::try_new(0, 3, 3, 3, ()).is_none());
    assert!(Layer::try_new(3, 3, 3, 0, ()).is_none());
}

#[test]
fn dimensions_past_the_coordinate_range_are_refused() {
    // 65536 * 32768 is one more than i32::MAX.
    assert!(!Layer::<u8>::dimensions_ok(65_536, 1, 32_768, 1));
    assert!(!Layer::<u8>::dimensions_ok(1, 65_536, 1, 32_768));
    assert!(Layer::<u8>::dimensions_ok(65_535, 1, 32_768, 1));
    assert!(Layer::<u8>::dimensions_ok(1, 1, i32::MAX as u32, i32::MAX as u32));
    assert!(!Layer::<u8>::dimensions_ok(1, 1, i32::MAX as u32 + 1, 1));
    assert!(Layer::try_new(65_536, 1, 32_768, 1, ()).is_none());
}

#[test]
fn try_new_builds_what_new_builds() {
    let layer = Layer::try_new(3, 2, 5, 7, 4u8).unwrap();
    assert_eq!(layer.to_rect(), Rect::new(0, 0, 15, 14));
    assert_eq!(layer.get_tile(2, 1), Some(&4));
    assert_eq!(layer.get_tile(3, 1), None);
}

#[test]
fn cells_of_a_rect_inside_the_grid_cover_it() {
    let layer = Layer::new(10, 10, 32, 32, ());
    let r = Rect::new(40, 70, 100, 30);
    let block = layer.find_intersecting(&r).unwrap();
    assert_eq!(block, Rect::new(1, 2, 4, 2));
    let left = block.x * 32;
    let top = block.y * 32;
    let right = left + block.width as i32 * 32;
    let bottom = top + block.height as i32 * 32;
    assert!(left <= r.x && r.x + r.width as i32 <= right);
    assert!(top <= r.y && r.y + r.height as i32 <= bottom);
    // The whole extent touches every cell.
    assert_eq!(layer.find_intersecting(&layer.to_rect()), Some(Rect::new(0, 0, 10, 10)));
}

#[test]
fn rects_outside_the_grid_touch_no_cell() {
    let layer = Layer::new(10, 10, 32, 32, ());
    assert_eq!(layer.find_intersecting(&Rect::new(-50, 10, 50, 10)), None);
    assert_eq!(layer.find_intersecting(&Rect::new(320, 10, 50, 10)), None);
    assert_eq!(layer.find_intersecting(&Rect::new(10, -50, 10, 50)), None);
    assert_eq!(layer.find_intersecting(&Rect::new(10, 320, 10, 50)), None);
    assert_eq!(layer.find_intersecting(&Rect::new(i32::MIN, i32::MIN, 5, 5)), None);
    assert_eq!(layer.find_intersecting(&Rect::new(i32::MAX, i32::MAX, u32::MAX, u32::MAX)), None);
    assert_eq!(layer.find_intersecting(&Rect::new(i32::MAX, 0, u32::MAX, 10)), None);
}

#[test]
fn right_edge_on_a_tile_boundary_stays_in_one_column() {
    let layer = Layer::new(10, 10, 32, 32, ());
    assert_eq!(layer.find_intersecting(&Rect::new(0, 0, 32, 32)), Some(Rect::new(0, 0, 1, 1)));
    assert_eq!(layer.find_intersecting(&Rect::new(0, 0, 33, 32)), Some(Rect::new(0, 0, 2, 1)));
    assert_eq!(layer.find_intersecting(&Rect::new(32, 64, 32, 32)), Some(Rect::new(1, 2, 1, 1)));
    assert_eq!(layer.find_intersecting(&Rect::new(31, 63, 2, 2)), Some(Rect::new(0, 1, 2, 2)));
    assert_eq!(layer.find_intersecting(&Rect::new(288, 288, 32, 32)), Some(Rect::new(9, 9, 1, 1)));
}

#[test]
fn rects_that_stick_out_are_cut_to_the_grid() {
    let layer = Layer::new(10, 10, 32, 32, ());
    assert_eq!(layer.find_intersecting(&Rect::new(-40, -1, 50, 2)), Some(Rect::new(0, 0, 1, 1)));
    assert_eq!(layer.find_intersecting(&Rect::new(300, 300, 500, 500)), Some(Rect::new(9, 9, 1, 1)));
    assert_eq!(layer.find_intersecting(&Rect::new(-1000, 40, 5000, 10)), Some(Rect::new(0, 1, 10, 1)));
    assert_eq!(
        layer.find_intersecting(&Rect::new(i32::MIN, i32::MIN, u32::MAX, u32::MAX)),
        Some(Rect::new(0, 0, 10, 10))
    );
    assert_eq!(
        layer.find_intersecting(&Rect::new(-1, -1, u32::MAX, u32::MAX)),
        Some(Rect::new(0, 0, 10, 10))
    );
}

#[test]
fn empty_rects_touch_no_cell() {
    let layer = Layer::new(10, 10, 32, 32, ());
    assert_eq!(layer.find_intersecting(&Rect::new(5, 5, 0, 10)), None);
    assert_eq!(layer.find_intersecting(&Rect::new(5, 5, 10, 0)), None);
    assert_eq!(layer.find_intersecting(&Rect::new(0, 0, 0, 0)), None);
    assert_eq!(layer.find_intersecting(&Rect::new(32, 32, 0, 0)), None);
}

#[test]
fn cells_between_takes_edges_beyond_i32() {
    let layer = Layer::new(10, 10, 32, 32, ());
    assert_eq!(
        layer.cells_between(-10_000_000_000, 10_000_000_000, 33, 34),
        Some(Rect::new(0, 1, 10, 1))
    );
    assert_eq!(layer.cells_between(64, 64, 0, 10), None);
    assert_eq!(layer.cells_between(65, 64, 0, 10), None);
    assert_eq!(layer.cells_between(64, 65, 0, 10), Some(Rect::new(2, 0, 1, 1)));
    assert_eq!(layer.cells_between(319, 1_000, 319, 1_000), Some(Rect::new(9, 9, 1, 1)));
    assert_eq!(layer.cells_between(320, 1_000, 0, 10), None);
    assert_eq!(layer.cells_between(-5, 0, 0, 10), None);
    assert_eq!(layer.cells_between(-5, 1, 0, 10), Some(Rect::new(0, 0, 1, 1)));
}

#[test]
fn intersecting_lists_cells_row_by_row() {
    let layer = Layer::new(10, 10, 32, 32, ());
    assert_eq!(
        layer.intersecting(&Rect::new(40, 70, 60, 30)),
        vec![(1, 2), (2, 2), (3, 2), (1, 3), (2, 3), (3, 3)]
    );
    assert_eq!(layer.intersecting(&Rect::new(0, 0, 1, 1)), vec![(0, 0)]);
    assert_eq!(layer.intersecting(&Rect::new(-40, 0, 10, 10)), Vec::<(i32, i32)>::new());
    assert_eq!(layer.intersecting(&Rect::new(5, 5, 0, 0)), Vec::<(i32, i32)>::new());
    assert_eq!(layer.intersecting(&layer.to_rect()).len(), 100);
}

#[test]
fn for_each_intersecting_visits_tiles_with_their_footprints() {
    let mut layer = Layer::new(4, 4, 10, 20, 0u8);
    for row in 0..4 {
        for col in 0..4 {
            assert!(layer.set_tile(col, row, (row * 4 + col) as u8));
        }
    }
    let mut seen: Vec<(u8, Rect)> = Vec::new();
    layer.for_each_intersecting(&Rect::new(15, 25, 20, 40), |tile: &u8, at: &Rect| {
        seen.push((*tile, *at));
    });
    assert_eq!(
        seen,
        vec![
            (5, Rect::new(10, 20, 10, 20)),
            (6, Rect::new(20, 20, 10, 20)),
            (7, Rect::new(30, 20, 10, 20)),
            (9, Rect::new(10, 40, 10, 20)),
            (10, Rect::new(20, 40, 10, 20)),
            (11, Rect::new(30, 40, 10, 20)),
            (13, Rect::new(10, 60, 10, 20)),
            (14, Rect::new(20, 60, 10, 20)),
            (15, Rect::new(30, 60, 10, 20)),
        ]
    );
}

#[test]
fn for_each_intersecting_outside_the_grid_visits_nothing() {
    let layer = Layer::new(4, 4, 10, 20, 0u8);
    let mut calls = 0;
    layer.for_each_intersecting(&Rect::new(40, 0, 10, 10), |_: &u8, _: &Rect| calls += 1);
    layer.for_each_intersecting(&Rect::new(-10, 0, 10, 10), |_: &u8, _: &Rect| calls += 1);
    layer.for_each_intersecting(&Rect::new(0, 0, 0, 0), |_: &u8, _: &Rect| calls += 1);
    assert_eq!(calls, 0);
    layer.for_each_intersecting(&Rect::new(0, 0, 40, 80), |_: &u8, _: &Rect| calls += 1);
    assert_eq!(calls, 16);
}

#[test]
fn only_floors_and_flagged_sprites_are_solid() {
    let sheet = Rect::new(0, 0, 16, 16);
    assert!(!Tile::Empty.is_solid());
    assert!(!Tile::Background(sheet).is_solid());
    assert!(Tile::Floor(sheet).is_solid());
    assert!(Tile::Static(StaticSprite::new(16, 0), true).is_solid());
    assert!(!Tile::Static(StaticSprite::new(16, 0), false).is_solid());
}

#[test]
fn for_each_intersecting_astride_four_cells() {
    let mut layer = Layer::new(3, 2, 4, 5, 0u8);
    assert!(layer.set_tile(1, 0, 5));
    let mut seen: Vec<(u8, Rect)> = Vec::new();
    layer.for_each_intersecting(&Rect::new(3, 4, 2, 2), |tile: &u8, at: &Rect| {
        seen.push((*tile, *at));
    });
    assert_eq!(
        seen,
        vec![
            (0, Rect::new(0, 0, 4, 5)),
            (5, Rect::new(4, 0, 4, 5)),
            (0, Rect::new(0, 5, 4, 5)),
            (0, Rect::new(4, 5, 4, 5)),
        ]
    );
}

#[test]
fn for_each_intersecting_past_the_left_edge() {
    let layer = Layer::new(3, 3, 3, 3, 0u8);
    let mut seen: Vec<(u8, Rect)> = Vec::new();
    layer.for_each_intersecting(&Rect::new(-4, 0, 6, 1), |tile: &u8, at: &Rect| {
        seen.push((*tile, *at));
    });
    assert_eq!(seen, vec![(0, Rect::new(0, 0, 3, 3))]);
}
