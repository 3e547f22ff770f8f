use ryowm::geometry::{Rect, WindowId};
use ryowm::layout::tiling_tree::trunc_div_rem;
use ryowm::layout::{master_stack_tiles, placeable, LayoutAlgorithm, MonocleLayout};

/// Master column width the way the master/stack layout scales it.
fn master_width(viewport: Rect, ratio: f32) -> i32 {
    (viewport.width as f32 * ratio).round() as i32
}

fn viewport() -> Rect {
    Rect::new(0, 0, 800, 600)
}

#[test]
fn every_window_gets_full_viewport() {
    let viewport = Rect::new(0, 0, 800, 600);
    let windows = [WindowId(1), WindowId(2), WindowId(3)];
    assert_eq!(
        MonocleLayout.compute(&windows, viewport),
        vec![
            (WindowId(1), viewport),
            (WindowId(2), viewport),
            (WindowId(3), viewport),
        ]
    );
}

#[test]
fn monocle_empty_input_places_nothing() {
    assert!(MonocleLayout
        .compute(&[], Rect::new(0, 0, 800, 600))
        .is_empty());
}

#[test]
fn monocle_name() {
    assert_eq!(MonocleLayout.name(), "monocle");
}

#[test]
fn tiling_tree_empty_input_places_nothing() {
    assert!(master_stack_tiles(&[], viewport(), master_width(viewport(), 0.5)).is_empty());
}

#[test]
fn lone_window_takes_full_viewport() {
    assert_eq!(
        master_stack_tiles(&[WindowId(1)], viewport(), master_width(viewport(), 0.5)),
        vec![(WindowId(1), viewport())]
    );
}

#[test]
fn two_windows_split_at_ratio() {
    assert_eq!(
        master_stack_tiles(
            &[WindowId(1), WindowId(2)],
            viewport(),
            master_width(viewport(), 0.5)
        ),
        vec![
            (WindowId(1), Rect::new(0, 0, 400, 600)),
            (WindowId(2), Rect::new(400, 0, 400, 600)),
        ]
    );
}

#[test]
fn three_windows_stack_beside_master() {
    assert_eq!(
        master_stack_tiles(
            &[WindowId(1), WindowId(2), WindowId(3)],
            viewport(),
            master_width(viewport(), 0.6)
        ),
        vec![
            (WindowId(1), Rect::new(0, 0, 480, 600)),
            (WindowId(2), Rect::new(480, 0, 320, 300)),
            (WindowId(3), Rect::new(480, 300, 320, 300)),
        ]
    );
}

#[test]
fn odd_height_remainder_lands_on_last_row() {
    let viewport = Rect::new(0, 0, 800, 601);
    let placed = master_stack_tiles(
        &[WindowId(1), WindowId(2), WindowId(3)],
        viewport,
        master_width(viewport, 0.5),
    );
    assert_eq!(placed[1].1.height + placed[2].1.height, 601);
    assert_eq!(placed[2].1.height, 301);
}

#[test]
fn stack_rows_tile_an_offset_viewport() {
    let viewport = Rect::new(10, 20, 100, 10);
    let windows = [WindowId(1), WindowId(2), WindowId(3), WindowId(4), WindowId(5)];
    let placed = master_stack_tiles(&windows, viewport, 30);
    assert_eq!(
        placed,
        vec![
            (WindowId(1), Rect::new(10, 20, 30, 10)),
            (WindowId(2), Rect::new(40, 20, 70, 2)),
            (WindowId(3), Rect::new(40, 22, 70, 2)),
            (WindowId(4), Rect::new(40, 24, 70, 2)),
            (WindowId(5), Rect::new(40, 26, 70, 4)),
        ]
    );
}

#[test]
fn negative_height_divides_toward_zero() {
    let viewport = Rect::new(0, 0, 10, -7);
    let placed = master_stack_tiles(&[WindowId(1), WindowId(2), WindowId(3)], viewport, 5);
    assert_eq!(placed[1].1, Rect::new(5, 0, 5, -3));
    assert_eq!(placed[2].1, Rect::new(5, -3, 5, -4));
}

#[test]
fn trunc_div_rem_matches_rust_division() {
    for a in [-9i32, -7, -1, 0, 1, 7, 9, i32::MIN, i32::MAX] {
        for b in [1i32, 2, 3, 7] {
            assert_eq!(trunc_div_rem(a, b), (a / b, a % b));
        }
    }
}

#[test]
fn placeable_drops_empty_geometry_in_order() {
    let placed = vec![
        (WindowId(1), Rect::new(0, 0, 10, 10)),
        (WindowId(2), Rect::new(0, 0, 0, 10)),
        (WindowId(3), Rect::new(5, 5, 1, 1)),
    ];
    let kept = placeable(&placed);
    assert_eq!(kept, vec![(WindowId(1), Rect::new(0, 0, 10, 10)), (WindowId(3), Rect::new(5, 5, 1, 1))]);
}
