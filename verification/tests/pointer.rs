use muninn::plotting::PlotRange;
use muninn::rank::rank_of_bits;
use muninn::viewport::{
    clamp_to_plot_area, moved_range, plot_range_after_scroll, plot_range_from_selection,
    scroll_plan, selected_ranges, selection_corners, written_with_exponent, AxisMove, Modifiers,
    ScrollDirection, LARGE_BOUND, SMALL_BOUND,
};

fn keys(shift: bool, ctrl: bool, alt: bool) -> Modifiers {
    Modifiers { shift, ctrl, alt }
}

fn name(m: AxisMove) -> &'static str {
    match m {
        AxisMove::Keep => "keep",
        AxisMove::ZoomIn => "in",
        AxisMove::ZoomOut => "out",
        AxisMove::Forward => "forward",
        AxisMove::Backward => "backward",
    }
}

fn plan(shift: bool, ctrl: bool, alt: bool, d: ScrollDirection) -> (&'static str, &'static str) {
    let moves = scroll_plan(keys(shift, ctrl, alt), d);
    (name(moves.0), name(moves.1))
}

#[test]
fn wheel_moves_the_picture() {
    assert_eq!(plan(false, false, false, ScrollDirection::Up), ("keep", "forward"));
    assert_eq!(plan(false, false, false, ScrollDirection::Down), ("keep", "backward"));
    assert_eq!(plan(false, false, false, ScrollDirection::Right), ("forward", "keep"));
    assert_eq!(plan(false, false, false, ScrollDirection::Left), ("backward", "keep"));
    assert_eq!(plan(true, false, false, ScrollDirection::Up), ("backward", "keep"));
    assert_eq!(plan(true, false, false, ScrollDirection::Down), ("forward", "keep"));
    assert_eq!(plan(true, false, false, ScrollDirection::Right), ("keep", "backward"));
    assert_eq!(plan(true, false, false, ScrollDirection::Left), ("keep", "forward"));
    assert_eq!(plan(false, false, true, ScrollDirection::Up), ("keep", "forward"));
    assert_eq!(plan(true, false, true, ScrollDirection::Smooth), ("keep", "keep"));
}

#[test]
fn wheel_with_control_zooms() {
    assert_eq!(plan(false, true, false, ScrollDirection::Up), ("in", "in"));
    assert_eq!(plan(false, true, false, ScrollDirection::Down), ("out", "out"));
    assert_eq!(plan(false, true, true, ScrollDirection::Up), ("keep", "in"));
    assert_eq!(plan(true, true, false, ScrollDirection::Up), ("in", "keep"));
    assert_eq!(plan(true, true, true, ScrollDirection::Down), ("keep", "keep"));
    assert_eq!(plan(false, true, true, ScrollDirection::Down), ("keep", "out"));
    assert_eq!(plan(true, true, false, ScrollDirection::Down), ("out", "keep"));
    assert_eq!(plan(false, true, false, ScrollDirection::Left), ("in", "in"));
    assert_eq!(plan(true, true, false, ScrollDirection::Right), ("keep", "in"));
    assert_eq!(plan(false, true, true, ScrollDirection::Left), ("in", "keep"));
    assert_eq!(plan(false, true, false, ScrollDirection::Smooth), ("keep", "keep"));
}

fn towards(m: AxisMove, r: (i64, i64), p: i64) -> (i64, i64) {
    match m {
        AxisMove::ZoomIn => (r.0 + (p - r.0) / 10, r.1 - (r.1 - p) / 10),
        AxisMove::ZoomOut => (r.0 - (p - r.0) / 10, r.1 + (r.1 - p) / 10),
        AxisMove::Forward => (r.0 + (r.1 - r.0) / 20, r.1 + (r.1 - r.0) / 20),
        AxisMove::Backward => (r.0 - (r.1 - r.0) / 20, r.1 - (r.1 - r.0) / 20),
        AxisMove::Keep => r,
    }
}

#[test]
fn moved_range_is_fixed_unless_nothing_moves() {
    let shown = PlotRange::Fixed((0, 100));
    let r = moved_range(&towards, AxisMove::ZoomIn, PlotRange::Auto, shown, 50);
    assert!(matches!(r, PlotRange::Fixed((5, 95))));
    let r = moved_range(&towards, AxisMove::Forward, PlotRange::Fixed((7, 8)), shown, 50);
    assert!(matches!(r, PlotRange::Fixed((5, 105))));
    let r = moved_range(&towards, AxisMove::Keep, PlotRange::Fixed((7, 8)), shown, 50);
    assert!(matches!(r, PlotRange::Fixed((7, 8))));
    let r = moved_range(&towards, AxisMove::Keep, PlotRange::Auto, shown, 50);
    assert!(matches!(r, PlotRange::Auto));
    let r = moved_range(&towards, AxisMove::ZoomOut, PlotRange::Fixed((7, 8)), PlotRange::Auto, 50);
    assert!(matches!(r, PlotRange::Fixed((7, 8))));
}

#[test]
fn scroll_changes_the_axes_that_the_plan_names() {
    let settings = (PlotRange::Auto, PlotRange::Fixed((1, 2)));
    let actual = (PlotRange::Fixed((0, 100)), PlotRange::Fixed((0, 200)));
    let r = plot_range_after_scroll(
        settings,
        actual,
        keys(false, true, false),
        ScrollDirection::Up,
        (20, 100),
        &towards,
    );
    assert!(matches!(r.0, PlotRange::Fixed((2, 92))));
    assert!(matches!(r.1, PlotRange::Fixed((10, 190))));
    let r = plot_range_after_scroll(
        settings,
        actual,
        keys(false, false, false),
        ScrollDirection::Left,
        (20, 100),
        &towards,
    );
    assert!(matches!(r.0, PlotRange::Fixed((-5, 95))));
    assert!(matches!(r.1, PlotRange::Fixed((1, 2))));
}

#[test]
fn selection_corners_are_ordered_for_the_plane() {
    assert_eq!(selection_corners((10, 20), (30, 5)), ((10, 20), (30, 5)));
    assert_eq!(selection_corners((30, 5), (10, 20)), ((10, 20), (30, 5)));
    assert_eq!(selection_corners((30, 20), (10, 5)), ((10, 20), (30, 5)));
    assert_eq!(selection_corners((4, 4), (4, 4)), ((4, 4), (4, 4)));
}

#[test]
fn selection_fixes_both_ranges() {
    let flip = |x: i64, y: i64| (x * 2, 1000 - y);
    let r = plot_range_from_selection((30, 5), (10, 20), true, &flip);
    assert!(matches!(r.0, PlotRange::Fixed((20, 60))));
    assert!(matches!(r.1, PlotRange::Fixed((980, 995))));
    let r = plot_range_from_selection((30, 5), (10, 20), false, &flip);
    assert!(matches!(r.0, PlotRange::Auto));
    assert!(matches!(r.1, PlotRange::Auto));
    let r = selected_ranges((1, 2), (3, 4));
    assert!(matches!(r.0, PlotRange::Fixed((1, 3))));
    assert!(matches!(r.1, PlotRange::Fixed((2, 4))));
}

fn px(x: f64) -> i64 {
    rank_of_bits(x.to_bits()).expect("not a number")
}

#[test]
fn position_is_moved_into_the_plot_area() {
    let margin = px(50.0);
    assert_eq!(clamp_to_plot_area((px(120.0), px(30.0)), margin), (px(120.0), px(30.0)));
    assert_eq!(clamp_to_plot_area((px(20.0), px(30.0)), margin), (px(50.0), px(30.0)));
    assert_eq!(clamp_to_plot_area((px(50.0), px(0.0)), margin), (px(50.0), px(0.0)));
    assert_eq!(clamp_to_plot_area((px(-4.0), px(-7.5)), margin), (px(50.0), px(0.0)));
    assert_eq!(clamp_to_plot_area((px(300.0), px(-0.5)), margin), (px(300.0), 0));
}

#[test]
fn small_and_large_bounds_are_written_with_an_exponent() {
    assert_eq!(SMALL_BOUND, px(1.0e-3));
    assert_eq!(LARGE_BOUND, px(1.0e3));
    for x in [0.0, 1.0e-3, -1.0e-3, 1.0, -999.0, 1.0e3, -1.0e3, 0.5] {
        assert!(!written_with_exponent(px(x)));
    }
    for x in [9.99e-4, -9.99e-4, 1.0e-300, 1000.5, -1000.5, 1.0e99, f64::INFINITY] {
        assert!(written_with_exponent(px(x)));
    }
    for x in [0.0, 1.0e-3, 9.0e-4, -2.0e-5, 1.0, 1.0e3, 1.0e3 + 1.0, -5.0e7] {
        let expected = (f64::abs(x) < 1.0e-3 || f64::abs(x) > 1.0e3) && x != 0.0;
        assert_eq!(written_with_exponent(px(x)), expected);
    }
}
