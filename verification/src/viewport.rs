//! What the pointer does to the ranges of the picture: scrolling, zooming
//! and selecting.

use vstd::prelude::*;
use crate::plotting::{PlotRange, Range};

verus! {

/// The direction of a turn of the scroll wheel.
#[derive(Debug, Clone, Copy)]
pub enum ScrollDirection {
    Up,
    Down,
    Left,
    Right,
    /// A scroll without one of the four directions.
    Smooth,
}

/// The keys that are held while the wheel is turned.
#[derive(Debug, Clone, Copy)]
pub struct Modifiers {
    pub shift: bool,
    pub ctrl: bool,
    pub alt: bool,
}

/// What a turn of the wheel does to the range of one axis.
#[derive(Debug, Clone, Copy)]
pub enum AxisMove {
    /// Nothing.
    Keep,
    /// Both bounds move towards the pointer.
    ZoomIn,
    /// Both bounds move away from the pointer.
    ZoomOut,
    /// Both bounds move up the axis by the same amount.
    Forward,
    /// Both bounds move down the axis by the same amount.
    Backward,
}

/// What a turn of the wheel does to the horizontal and to the vertical range.
///
/// With the control key the picture is zoomed at the pointer: in, unless the
/// wheel is turned down. A vertical turn zooms both axes, but the horizontal
/// one not with the alt key and the vertical one not with the shift key; for
/// a horizontal turn the two keys change places. Without the control key the
/// picture is moved along one axis: a vertical turn moves it vertically and a
/// horizontal turn horizontally, and the shift key swaps the axes.
pub open spec fn scroll_moves(keys: Modifiers, direction: ScrollDirection) -> (AxisMove, AxisMove) {
    if keys.ctrl {
        match direction {
            ScrollDirection::Up => (
                if keys.alt { AxisMove::Keep } else { AxisMove::ZoomIn },
                if keys.shift { AxisMove::Keep } else { AxisMove::ZoomIn },
            ),
            ScrollDirection::Down => (
                if keys.alt { AxisMove::Keep } else { AxisMove::ZoomOut },
                if keys.shift { AxisMove::Keep } else { AxisMove::ZoomOut },
            ),
            ScrollDirection::Left | ScrollDirection::Right => (
                if keys.shift { AxisMove::Keep } else { AxisMove::ZoomIn },
                if keys.alt { AxisMove::Keep } else { AxisMove::ZoomIn },
            ),
            ScrollDirection::Smooth => (AxisMove::Keep, AxisMove::Keep),
        }
    } else {
        match direction {
            ScrollDirection::Up => if keys.shift {
                (AxisMove::Backward, AxisMove::Keep)
            } else {
                (AxisMove::Keep, AxisMove::Forward)
            },
            ScrollDirection::Down => if keys.shift {
                (AxisMove::Forward, AxisMove::Keep)
            } else {
                (AxisMove::Keep, AxisMove::Backward)
            },
            ScrollDirection::Right => if keys.shift {
                (AxisMove::Keep, AxisMove::Backward)
            } else {
                (AxisMove::Forward, AxisMove::Keep)
            },
            ScrollDirection::Left => if keys.shift {
                (AxisMove::Keep, AxisMove::Forward)
            } else {
                (AxisMove::Backward, AxisMove::Keep)
            },
            ScrollDirection::Smooth => (AxisMove::Keep, AxisMove::Keep),
        }
    }
}

/// What a turn of the wheel does to the two ranges.
pub fn scroll_plan(keys: Modifiers, direction: ScrollDirection) -> (moves: (AxisMove, AxisMove))
    ensures
        moves == scroll_moves(keys, direction),
{
    let zoom_x: AxisMove = if keys.alt { AxisMove::Keep } else { AxisMove::ZoomIn };
    let zoom_y: AxisMove = if keys.shift { AxisMove::Keep } else { AxisMove::ZoomIn };
    if keys.ctrl {
        match direction {
            ScrollDirection::Up => (zoom_x, zoom_y),
            ScrollDirection::Down => (
                if keys.alt { AxisMove::Keep } else { AxisMove::ZoomOut },
                if keys.shift { AxisMove::Keep } else { AxisMove::ZoomOut },
            ),
            ScrollDirection::Left | ScrollDirection::Right => (
                if keys.shift { AxisMove::Keep } else { AxisMove::ZoomIn },
                if keys.alt { AxisMove::Keep } else { AxisMove::ZoomIn },
            ),
            ScrollDirection::Smooth => (AxisMove::Keep, AxisMove::Keep),
        }
    } else {
        match direction {
            ScrollDirection::Up => if keys.shift {
                (AxisMove::Backward, AxisMove::Keep)
            } else {
                (AxisMove::Keep, AxisMove::Forward)
            },
            ScrollDirection::Down => if keys.shift {
                (AxisMove::Forward, AxisMove::Keep)
            } else {
                (AxisMove::Keep, AxisMove::Backward)
            },
            ScrollDirection::Right => if keys.shift {
                (AxisMove::Keep, AxisMove::Backward)
            } else {
                (AxisMove::Forward, AxisMove::Keep)
            },
            ScrollDirection::Left => if keys.shift {
                (AxisMove::Keep, AxisMove::Forward)
            } else {
                (AxisMove::Backward, AxisMove::Keep)
            },
            ScrollDirection::Smooth => (AxisMove::Keep, AxisMove::Keep),
        }
    }
}

/// Whether `range` is the range of an axis after a move: the range that the
/// axis had where nothing moves or no picture shows a range to move;
/// otherwise a fixed range that `apply` can have made of the range that the
/// picture shows.
pub open spec fn is_moved<F: Fn(AxisMove, Range, i64) -> Range>(
    apply: &F,
    step: AxisMove,
    setting: PlotRange,
    actual: PlotRange,
    pointer: i64,
    range: PlotRange,
) -> bool {
    match (step, actual) {
        (AxisMove::Keep, _) => range == setting,
        (_, PlotRange::Auto) => range == setting,
        (_, PlotRange::Fixed(shown)) => range matches PlotRange::Fixed(r) && apply.ensures(
            (step, shown, pointer),
            r,
        ),
    }
}

/// The range of an axis after a move. `apply` is handed the move, the range
/// that the picture shows and the pointer's position along the axis, and
/// returns the range moved.
pub fn moved_range<F: Fn(AxisMove, Range, i64) -> Range>(
    apply: &F,
    step: AxisMove,
    setting: PlotRange,
    actual: PlotRange,
    pointer: i64,
) -> (range: PlotRange)
    requires
        forall|m: AxisMove, r: Range, p: i64| #[trigger] apply.requires((m, r, p)),
    ensures
        is_moved(apply, step, setting, actual, pointer, range),
{
    match step {
        AxisMove::Keep => setting,
        _ => match actual {
            PlotRange::Auto => setting,
            PlotRange::Fixed(shown) => PlotRange::Fixed(apply(step, shown, pointer)),
        },
    }
}

/// The two ranges after a turn of the wheel with the pointer at `pointer`,
/// given in the coordinates of the data.
pub fn plot_range_after_scroll<F: Fn(AxisMove, Range, i64) -> Range>(
    settings: (PlotRange, PlotRange),
    actual: (PlotRange, PlotRange),
    keys: Modifiers,
    direction: ScrollDirection,
    pointer: (i64, i64),
    apply: &F,
) -> (ranges: (PlotRange, PlotRange))
    requires
        forall|m: AxisMove, r: Range, p: i64| #[trigger] apply.requires((m, r, p)),
    ensures
        is_moved(
            apply,
            scroll_moves(keys, direction).0,
            settings.0,
            actual.0,
            pointer.0,
            ranges.0,
        ),
        is_moved(
            apply,
            scroll_moves(keys, direction).1,
            settings.1,
            actual.1,
            pointer.1,
            ranges.1,
        ),
{
    let moves: (AxisMove, AxisMove) = scroll_plan(keys, direction);
    (
        moved_range(apply, moves.0, settings.0, actual.0, pointer.0),
        moved_range(apply, moves.1, settings.1, actual.1, pointer.1),
    )
}

/// The lesser of two ranks.
pub open spec fn lesser(a: i64, b: i64) -> i64 {
    if a <= b {
        a
    } else {
        b
    }
}

/// The greater of two ranks.
pub open spec fn greater(a: i64, b: i64) -> i64 {
    if a <= b {
        b
    } else {
        a
    }
}

/// The rank of the number 0.001: a bound is written with an exponent where
/// it is nearer to zero.
pub const SMALL_BOUND: i64 = 0x3F50_624D_D2F1_A9FC;

/// The rank of the number 1000: a bound is written with an exponent where it
/// is farther from zero.
pub const LARGE_BOUND: i64 = 0x408F_4000_0000_0000;

/// Whether a bound of a range is written with an exponent.
pub open spec fn wants_exponent(v: i64) -> bool {
    v != 0 && (-SMALL_BOUND < v < SMALL_BOUND || v > LARGE_BOUND || v < -LARGE_BOUND)
}

/// Whether a bound of a range is written with an exponent: where it is not
/// zero and lies nearer to zero than 0.001 or farther from it than 1000.
pub fn written_with_exponent(v: i64) -> (r: bool)
    ensures
        r == wants_exponent(v),
{
    v != 0 && ((-SMALL_BOUND < v && v < SMALL_BOUND) || v > LARGE_BOUND || v < -LARGE_BOUND)
}

/// The position in the image, moved into the part of the image that shows
/// the plane: not left of the strip of width `margin_left` that holds the
/// labels, and not above the image.
pub fn clamp_to_plot_area(position: (i64, i64), margin_left: i64) -> (r: (i64, i64))
    ensures
        r.0 == greater(position.0, margin_left),
        r.1 == greater(position.1, 0),
{
    (
        if position.0 <= margin_left {
            margin_left
        } else {
            position.0
        },
        if position.1 <= 0 {
            0
        } else {
            position.1
        },
    )
}

/// The two corners of the box between two positions in the image that become
/// the lower and the upper corner in the plane of the data: the image's
/// vertical axis points down, so the first has the greater image height.
pub fn selection_corners(image_pos_1: (i64, i64), image_pos_2: (i64, i64)) -> (corners: (
    (i64, i64),
    (i64, i64),
))
    ensures
        corners.0 == (lesser(image_pos_1.0, image_pos_2.0), greater(image_pos_1.1, image_pos_2.1)),
        corners.1 == (greater(image_pos_1.0, image_pos_2.0), lesser(image_pos_1.1, image_pos_2.1)),
{
    let xi_min: i64 = if image_pos_1.0 <= image_pos_2.0 { image_pos_1.0 } else { image_pos_2.0 };
    let xi_max: i64 = if image_pos_1.0 <= image_pos_2.0 { image_pos_2.0 } else { image_pos_1.0 };
    let yi_min: i64 = if image_pos_1.1 <= image_pos_2.1 { image_pos_1.1 } else { image_pos_2.1 };
    let yi_max: i64 = if image_pos_1.1 <= image_pos_2.1 { image_pos_2.1 } else { image_pos_1.1 };
    ((xi_min, yi_max), (xi_max, yi_min))
}

/// The two ranges that a box drawn in the image selects. `to_plot` turns a
/// position in the image into one in the plane of the data. Without a
/// picture nothing can be selected, and both ranges are taken from the data.
pub fn plot_range_from_selection<F: Fn(i64, i64) -> (i64, i64)>(
    image_pos_1: (i64, i64),
    image_pos_2: (i64, i64),
    has_picture: bool,
    to_plot: &F,
) -> (ranges: (PlotRange, PlotRange))
    requires
        forall|x: i64, y: i64| #[trigger] to_plot.requires((x, y)),
    ensures
        !has_picture ==> ranges.0 is Auto && ranges.1 is Auto,
        has_picture ==> exists|low: (i64, i64), high: (i64, i64)|
            {
                &&& to_plot.ensures(
                    (
                        lesser(image_pos_1.0, image_pos_2.0),
                        greater(image_pos_1.1, image_pos_2.1),
                    ),
                    low,
                )
                &&& to_plot.ensures(
                    (
                        greater(image_pos_1.0, image_pos_2.0),
                        lesser(image_pos_1.1, image_pos_2.1),
                    ),
                    high,
                )
                &&& ranges == #[trigger] selected(low, high)
            },
{
    if !has_picture {
        return (PlotRange::Auto, PlotRange::Auto);
    }
    let corners = selection_corners(image_pos_1, image_pos_2);
    let low: (i64, i64) = to_plot(corners.0.0, corners.0.1);
    let high: (i64, i64) = to_plot(corners.1.0, corners.1.1);
    let ranges = selected_ranges(low, high);
    assert(ranges == selected(low, high));
    ranges
}

/// The two fixed ranges of the rectangle between a lower and an upper
/// corner.
pub open spec fn selected(low: (i64, i64), high: (i64, i64)) -> (PlotRange, PlotRange) {
    (PlotRange::Fixed((low.0, high.0)), PlotRange::Fixed((low.1, high.1)))
}

/// The two fixed ranges of the rectangle between a lower and an upper
/// corner.
pub fn selected_ranges(low: (i64, i64), high: (i64, i64)) -> (ranges: (PlotRange, PlotRange))
    ensures
        ranges == selected(low, high),
{
    (PlotRange::Fixed((low.0, high.0)), PlotRange::Fixed((low.1, high.1)))
}

} // verus!
