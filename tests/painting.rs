use fractal_tiles::gui::{GuiMsg, GuiProps};
use fractal_tiles::render::{paint_tile, pixel_color, PlacedSample};

#[test]
fn interior_points_are_black() {
    assert_eq!(pixel_color(10, 10), [0, 0, 0, 255]);
    assert_eq!(pixel_color(255, 255), [0, 0, 0, 255]);
}

#[test]
fn escaped_points_are_gray_by_count() {
    assert_eq!(pixel_color(2, 10), [2, 2, 2, 255]);
    assert_eq!(pixel_color(300, 1000), [44, 44, 44, 255]);
    assert_eq!(pixel_color(255, 1000), [255, 255, 255, 255]);
    assert_eq!(pixel_color(0, 1), [0, 0, 0, 255]);
}

#[test]
fn painting_places_samples_and_drops_outside_ones() {
    let samples = vec![
        PlacedSample { column: 1, row: 0, count: 3 },
        PlacedSample { column: 0, row: 1, count: 10 },
        PlacedSample { column: 2, row: 0, count: 1 },
        PlacedSample { column: 0, row: 2, count: 1 },
    ];
    let img = paint_tile(2, 2, &samples, 10);
    assert_eq!(img.width, 2);
    assert_eq!(img.height, 2);
    assert_eq!(
        img.rgba,
        vec![0, 0, 0, 0, 3, 3, 3, 255, 0, 0, 0, 255, 0, 0, 0, 0]
    );
}

#[test]
fn later_sample_on_a_pixel_wins() {
    let samples = vec![
        PlacedSample { column: 0, row: 0, count: 4 },
        PlacedSample { column: 0, row: 0, count: 7 },
    ];
    let img = paint_tile(1, 1, &samples, 10);
    assert_eq!(img.rgba, vec![7, 7, 7, 255]);
}

#[test]
fn empty_tile_is_transparent() {
    let img = paint_tile(3, 2, &Vec::new(), 10);
    assert_eq!(img.rgba, vec![0u8; 24]);
    let img = paint_tile(0, 0, &Vec::new(), 10);
    assert!(img.rgba.is_empty());
}

#[test]
fn wheel_direction_picks_zoom() {
    assert_eq!(GuiMsg::from_wheel(true, 3, 4), GuiMsg::ZoomOut(3, 4));
    assert_eq!(GuiMsg::from_wheel(false, -1, 0), GuiMsg::ZoomIn(-1, 0));
}

#[test]
fn only_zoom_messages_render_again() {
    assert!(!GuiMsg::Redraw.needs_render());
    assert!(GuiMsg::ZoomIn(0, 0).needs_render());
    assert!(GuiMsg::ZoomOut(0, 0).needs_render());
    assert_eq!(GuiProps {}, GuiProps {});
}
