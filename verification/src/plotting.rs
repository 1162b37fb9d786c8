//! What is drawn of a slice: the rectangle of the plane that the picture
//! shows, and what of each polyline lies in it.

use vstd::prelude::*;
use crate::clipping::{
    all_in_area, can_interpolate, in_area, in_range, is_clipping, point_in_area, truncate_line,
};
use crate::data::{DataLine, DataSlice, Point};
use crate::rank::{DOUBLING, FINITE_LIMIT, RANK_LIMIT};

verus! {

/// The two bounds of an axis: the lower one first.
pub type Range = (i64, i64);

/// How the bounds of an axis are found.
#[derive(Debug, Clone, Copy)]
pub enum PlotRange {
    /// From the data that is shown.
    Auto,
    /// As given.
    Fixed(Range),
}

impl PlotRange {
    /// Whether the two are the same: both taken from the data, or both fixed
    /// to the same bounds.
    pub open spec fn is_same(self, other: PlotRange) -> bool {
        self == other
    }

    /// Whether the two are the same.
    pub fn same(&self, other: &PlotRange) -> (r: bool)
        ensures
            r == self.is_same(*other),
    {
        match (self, other) {
            (PlotRange::Auto, PlotRange::Auto) => true,
            (PlotRange::Fixed(p), PlotRange::Fixed(q)) => p.0 == q.0 && p.1 == q.1,
            _ => false,
        }
    }
}

/// One of the two axes of the plane.
#[derive(Debug, Clone, Copy)]
pub enum Axis {
    X,
    Y,
}

/// What of a slice is drawn, and where.
#[derive(Debug, Clone, Copy)]
pub struct PlotSettings {
    pub plot_range_x: PlotRange,
    pub plot_range_y: PlotRange,
    pub draw_lines: bool,
    pub draw_points: bool,
    pub use_color: bool,
    pub use_logscale_x: bool,
    pub use_logscale_y: bool,
}

impl PlotSettings {
    /// The settings of a new view: both ranges taken from the data, lines and
    /// points drawn in colour, both axes linear.
    pub fn new() -> (settings: PlotSettings)
        ensures
            settings.plot_range_x is Auto,
            settings.plot_range_y is Auto,
            settings.draw_lines,
            settings.draw_points,
            settings.use_color,
            !settings.use_logscale_x,
            !settings.use_logscale_y,
    {
        PlotSettings {
            plot_range_x: PlotRange::Auto,
            plot_range_y: PlotRange::Auto,
            draw_lines: true,
            draw_points: true,
            use_color: true,
            use_logscale_x: false,
            use_logscale_y: false,
        }
    }
}

/// The coordinate of a point along an axis.
pub open spec fn coordinate(p: Point, axis: Axis) -> i64 {
    match axis {
        Axis::X => p.0,
        Axis::Y => p.1,
    }
}

/// Whether a point counts towards an extent: where `within` is given, only a
/// point whose horizontal position lies within it does.
pub open spec fn counts(p: Point, within: Option<Range>) -> bool {
    match within {
        Some(r) => in_range(p.0, r),
        None => true,
    }
}

/// Whether the polyline of index `a` has a point of index `b`, and it counts.
pub open spec fn counted_at(data: Seq<Vec<Point>>, within: Option<Range>, a: int, b: int) -> bool {
    0 <= a < data.len() && 0 <= b < data[a]@.len() && counts(data[a]@[b], within)
}

/// Whether `r` is the extent of the polylines along the axis: the least and
/// the greatest coordinate of the points that count, or `(0, 0)` where none
/// does.
pub open spec fn is_extent(data: Seq<Vec<Point>>, axis: Axis, within: Option<Range>, r: Range) -> bool {
    if exists|a: int, b: int| counted_at(data, within, a, b) {
        &&& exists|a: int, b: int| #[trigger]
            counted_at(data, within, a, b) && coordinate(data[a]@[b], axis) == r.0
        &&& exists|a: int, b: int| #[trigger]
            counted_at(data, within, a, b) && coordinate(data[a]@[b], axis) == r.1
        &&& forall|a: int, b: int| #[trigger]
            counted_at(data, within, a, b) ==> r.0 <= coordinate(data[a]@[b], axis) <= r.1
    } else {
        r == (0i64, 0i64)
    }
}

/// Whether the polyline of index `a` has a point of index `b` before the
/// position `(i, j)`, and it counts.
spec fn counted_before(
    data: Seq<Vec<Point>>,
    within: Option<Range>,
    i: int,
    j: int,
    a: int,
    b: int,
) -> bool {
    counted_at(data, within, a, b) && (a < i || (a == i && b < j))
}

/// The coordinate of a point along an axis.
fn coordinate_of(p: Point, axis: Axis) -> (c: i64)
    ensures
        c == coordinate(p, axis),
{
    match axis {
        Axis::X => p.0,
        Axis::Y => p.1,
    }
}

/// Whether a point counts towards an extent.
fn point_counts(p: Point, within: Option<Range>) -> (b: bool)
    ensures
        b == counts(p, within),
{
    match within {
        Some(r) => r.0 <= p.0 && p.0 <= r.1,
        None => true,
    }
}

/// The extent of the polylines along an axis: the least and the greatest
/// coordinate among their points, or `(0, 0)` where there is no point. With
/// `within`, only the points whose horizontal position lies within it count.
pub fn extent(data: &Vec<DataLine>, axis: Axis, within: Option<Range>) -> (r: Range)
    ensures
        is_extent(data@, axis, within, r),
{
    let mut found: bool = false;
    let mut lo: i64 = 0;
    let mut hi: i64 = 0;
    let ghost mut lo_at: (int, int) = (0, 0);
    let ghost mut hi_at: (int, int) = (0, 0);
    let mut i: usize = 0;
    while i < data.len()
        invariant
            i <= data.len(),
            !found ==> lo == 0 && hi == 0 && forall|a: int, b: int|
                !#[trigger] counted_before(data@, within, i as int, 0, a, b),
            found ==> counted_at(data@, within, lo_at.0, lo_at.1) && coordinate(
                data[lo_at.0]@[lo_at.1],
                axis,
            ) == lo,
            found ==> counted_at(data@, within, hi_at.0, hi_at.1) && coordinate(
                data[hi_at.0]@[hi_at.1],
                axis,
            ) == hi,
            found ==> forall|a: int, b: int| #[trigger]
                counted_before(data@, within, i as int, 0, a, b) ==> lo <= coordinate(
                    data[a]@[b],
                    axis,
                ) <= hi,
        decreases data.len() - i,
    {
        let line: &Vec<Point> = &data[i];
        let mut j: usize = 0;
        while j < line.len()
            invariant
                i < data.len(),
                j <= line.len(),
                line == &data[i as int],
                !found ==> lo == 0 && hi == 0 && forall|a: int, b: int|
                    !#[trigger] counted_before(data@, within, i as int, j as int, a, b),
                found ==> counted_at(data@, within, lo_at.0, lo_at.1) && coordinate(
                    data[lo_at.0]@[lo_at.1],
                    axis,
                ) == lo,
                found ==> counted_at(data@, within, hi_at.0, hi_at.1) && coordinate(
                    data[hi_at.0]@[hi_at.1],
                    axis,
                ) == hi,
                found ==> forall|a: int, b: int| #[trigger]
                    counted_before(data@, within, i as int, j as int, a, b) ==> lo <= coordinate(
                        data[a]@[b],
                        axis,
                    ) <= hi,
            decreases line.len() - j,
        {
            let p: Point = line[j];
            let ghost was_found = found;
            let ghost old_lo = lo;
            let ghost old_hi = hi;
            if point_counts(p, within) {
                let c: i64 = coordinate_of(p, axis);
                if !found || c < lo {
                    lo = c;
                    proof {
                        lo_at = (i as int, j as int);
                    }
                }
                if !found || c > hi {
                    hi = c;
                    proof {
                        hi_at = (i as int, j as int);
                    }
                }
                found = true;
            }
            proof {
                assert forall|a: int, b: int| #[trigger]
                    counted_before(data@, within, i as int, j + 1, a, b) implies found && lo
                    <= coordinate(data[a]@[b], axis) <= hi by {
                    if a == i && b == j {
                    } else {
                        assert(counted_before(data@, within, i as int, j as int, a, b));
                    }
                }
            }
            j += 1;
        }
        proof {
            assert forall|a: int, b: int| #[trigger]
                counted_before(data@, within, i + 1, 0, a, b) implies counted_before(
                data@,
                within,
                i as int,
                j as int,
                a,
                b,
            ) by {}
        }
        i += 1;
    }
    proof {
        assert forall|a: int, b: int| #[trigger]
            counted_at(data@, within, a, b) implies counted_before(
            data@,
            within,
            i as int,
            0,
            a,
            b,
        ) by {}
    }
    (lo, hi)
}

/// Whether two sets of polylines have their points at the same horizontal
/// positions, and at the same heights wherever the position lies within
/// `x_range`.
pub open spec fn alike_within(d1: Seq<Vec<Point>>, d2: Seq<Vec<Point>>, x_range: Range) -> bool {
    &&& d1.len() == d2.len()
    &&& forall|a: int| 0 <= a < d1.len() ==> (#[trigger] d1[a])@.len() == d2[a]@.len()
    &&& forall|a: int, b: int|
        0 <= a < d1.len() && 0 <= b < d1[a]@.len() ==> (#[trigger] d1[a]@[b]).0 == d2[a]@[b].0
    &&& forall|a: int, b: int|
        0 <= a < d1.len() && 0 <= b < d1[a]@.len() && in_range((#[trigger] d1[a]@[b]).0, x_range)
            ==> d1[a]@[b].1 == d2[a]@[b].1
}

/// The vertical extent within a horizontal range depends on nothing but the
/// points within that range: polylines that differ only in the heights of
/// points outside it have the same.
pub proof fn lemma_extent_ignores_outside(
    d1: Seq<Vec<Point>>,
    d2: Seq<Vec<Point>>,
    x_range: Range,
    r: Range,
)
    requires
        alike_within(d1, d2, x_range),
        is_extent(d1, Axis::Y, Some(x_range), r),
    ensures
        is_extent(d2, Axis::Y, Some(x_range), r),
{
    let within = Some(x_range);
    assert forall|a: int, b: int| counted_at(d1, within, a, b) implies counted_at(
        d2,
        within,
        a,
        b,
    ) && d1[a]@[b] == d2[a]@[b] by {
        assert(d1[a]@.len() == d2[a]@.len());
        assert(d1[a]@[b].0 == d2[a]@[b].0);
    }
    assert forall|a: int, b: int| counted_at(d2, within, a, b) implies counted_at(
        d1,
        within,
        a,
        b,
    ) && d1[a]@[b] == d2[a]@[b] by {
        assert(d1[a]@.len() == d2[a]@.len());
        assert(d1[a]@[b].0 == d2[a]@[b].0);
    }
    if exists|a: int, b: int| counted_at(d1, within, a, b) {
        let (a, b) = choose|a: int, b: int| counted_at(d1, within, a, b);
        assert(counted_at(d2, within, a, b));
        let (a0, b0) = choose|a: int, b: int| #[trigger]
            counted_at(d1, within, a, b) && coordinate(d1[a]@[b], Axis::Y) == r.0;
        let (a1, b1) = choose|a: int, b: int| #[trigger]
            counted_at(d1, within, a, b) && coordinate(d1[a]@[b], Axis::Y) == r.1;
        assert(counted_at(d2, within, a0, b0) && coordinate(d2[a0]@[b0], Axis::Y) == r.0);
        assert(counted_at(d2, within, a1, b1) && coordinate(d2[a1]@[b1], Axis::Y) == r.1);
        assert forall|a: int, b: int| #[trigger] counted_at(d2, within, a, b) implies r.0
            <= coordinate(d2[a]@[b], Axis::Y) <= r.1 by {
            assert(counted_at(d1, within, a, b));
        }
    } else {
        assert forall|a: int, b: int| !counted_at(d2, within, a, b) by {
            if counted_at(d2, within, a, b) {
                assert(counted_at(d1, within, a, b));
            }
        }
    }
}

/// No two ranges are the extent of the same data.
pub proof fn lemma_extent_unique(data: Seq<Vec<Point>>, axis: Axis, within: Option<Range>, r: Range)
    requires
        is_extent(data, axis, within, r),
    ensures
        forall|q: Range| is_extent(data, axis, within, q) ==> q == r,
{
    assert forall|q: Range| is_extent(data, axis, within, q) implies q == r by {
        if exists|a: int, b: int| counted_at(data, within, a, b) {
            let (a0, b0) = choose|a: int, b: int| #[trigger]
                counted_at(data, within, a, b) && coordinate(data[a]@[b], axis) == r.0;
            let (a1, b1) = choose|a: int, b: int| #[trigger]
                counted_at(data, within, a, b) && coordinate(data[a]@[b], axis) == r.1;
            let (c0, e0) = choose|a: int, b: int| #[trigger]
                counted_at(data, within, a, b) && coordinate(data[a]@[b], axis) == q.0;
            let (c1, e1) = choose|a: int, b: int| #[trigger]
                counted_at(data, within, a, b) && coordinate(data[a]@[b], axis) == q.1;
            assert(counted_at(data, within, a0, b0) && counted_at(data, within, a1, b1));
            assert(counted_at(data, within, c0, e0) && counted_at(data, within, c1, e1));
        }
    }
}

/// The least bound of a logarithmic axis: the rank of the number 1e-10.
pub const LOG_FLOOR: i64 = 0x3DDB_7CDF_D9D7_BDBB;

/// The extent as a logarithmic axis can show it: an extent that reaches down
/// to zero or below starts at the least bound of such an axis instead, and
/// ends there too where it would end below it. On a linear axis the extent
/// is shown as it is.
pub open spec fn lifted(e: Range, logscale: bool) -> Range {
    if logscale && e.0 <= 0 {
        (
            LOG_FLOOR,
            if e.1 < LOG_FLOOR {
                LOG_FLOOR
            } else {
                e.1
            },
        )
    } else {
        e
    }
}

/// Whether a logarithmic axis can show the range: both bounds are numbers
/// above zero, not below the least bound of such an axis and not infinite,
/// and the lower is less than the upper.
pub open spec fn is_log_range(r: Range) -> bool {
    LOG_FLOOR <= r.0 < r.1 < RANK_LIMIT
}

/// The range as the axis can show it. A linear axis shows every range as it
/// is. On a logarithmic axis a lower bound below the least bound of such an
/// axis is moved up to it, and an infinite upper bound down to the greatest
/// number; where the upper bound is then not above the lower, the range
/// runs from the lower bound to its double. A range that a logarithmic axis
/// can show stays as it is.
pub open spec fn settled(r: Range, logscale: bool) -> Range {
    if logscale {
        let lo = if r.0 < LOG_FLOOR {
            LOG_FLOOR
        } else {
            r.0
        };
        let hi = if r.1 > FINITE_LIMIT {
            FINITE_LIMIT
        } else {
            r.1
        };
        if lo < hi {
            (lo, hi)
        } else if lo > FINITE_LIMIT - DOUBLING {
            ((FINITE_LIMIT - DOUBLING) as i64, FINITE_LIMIT)
        } else {
            (lo, (lo + DOUBLING) as i64)
        }
    } else {
        r
    }
}

/// Whether `m` is the range that shows the extent `e` with its margin: what
/// `pad` has made of the extent or, where that has no width, what `widen` has
/// made of it then.
pub open spec fn is_margin<P: Fn(Range, Axis, bool) -> Range, W: Fn(Range, bool) -> Range>(
    pad: &P,
    widen: &W,
    e: Range,
    axis: Axis,
    logscale: bool,
    m: Range,
) -> bool {
    exists|p: Range| #[trigger]
        pad.ensures((e, axis, logscale), p) && if p.0 == p.1 {
            widen.ensures((p, logscale), m)
        } else {
            m == p
        }
}

/// Whether `e` is the extent of the data along the axis and `m` the range
/// that shows it with its margin.
pub open spec fn is_auto<P: Fn(Range, Axis, bool) -> Range, W: Fn(Range, bool) -> Range>(
    data: Seq<Vec<Point>>,
    axis: Axis,
    within: Option<Range>,
    logscale: bool,
    pad: &P,
    widen: &W,
    e: Range,
    m: Range,
) -> bool {
    is_extent(data, axis, within, e) && is_margin(pad, widen, lifted(e, logscale), axis, logscale, m)
}

/// Whether `r` is the range of an axis under the given mode: a fixed range,
/// or the extent of the data with its margin, as the axis can show it.
pub open spec fn is_resolved<P: Fn(Range, Axis, bool) -> Range, W: Fn(Range, bool) -> Range>(
    mode: PlotRange,
    data: Seq<Vec<Point>>,
    axis: Axis,
    within: Option<Range>,
    logscale: bool,
    pad: &P,
    widen: &W,
    r: Range,
) -> bool {
    match mode {
        PlotRange::Fixed(q) => r == settled(q, logscale),
        PlotRange::Auto => exists|e: Range, m: Range| #[trigger]
            is_auto(data, axis, within, logscale, pad, widen, e, m) && r == settled(m, logscale),
    }
}

/// The extent as an axis of the given scale can show it.
pub fn lift(e: Range, logscale: bool) -> (r: Range)
    ensures
        r == lifted(e, logscale),
{
    if logscale && e.0 <= 0 {
        (
            LOG_FLOOR,
            if e.1 < LOG_FLOOR {
                LOG_FLOOR
            } else {
                e.1
            },
        )
    } else {
        e
    }
}

/// The range as the axis can show it: on a linear axis as it is, on a
/// logarithmic axis with bounds that are numbers above zero, the lower less
/// than the upper.
pub fn settle(r: Range, logscale: bool) -> (s: Range)
    ensures
        s == settled(r, logscale),
        logscale ==> is_log_range(s),
        !logscale || is_log_range(r) ==> s == r,
{
    if !logscale {
        return r;
    }
    let lo: i64 = if r.0 < LOG_FLOOR {
        LOG_FLOOR
    } else {
        r.0
    };
    let hi: i64 = if r.1 > FINITE_LIMIT {
        FINITE_LIMIT
    } else {
        r.1
    };
    if lo < hi {
        (lo, hi)
    } else if lo > FINITE_LIMIT - DOUBLING {
        (FINITE_LIMIT - DOUBLING, FINITE_LIMIT)
    } else {
        (lo, lo + DOUBLING)
    }
}

/// The range of an axis.
///
/// A fixed range is the range, as the axis can show it: on a linear axis it
/// is returned as it is, and on a logarithmic axis too unless one of its
/// bounds is not a number above zero or the lower is not less than the
/// upper. Otherwise the range is found from the data. The extent of the
/// polylines along the axis is taken, from the points within `within` only
/// where that is given. On a logarithmic axis an extent that reaches down to
/// zero starts at `LOG_FLOOR` instead. `pad` is handed the extent, the axis
/// and its scale, and returns the extent with a margin around it. A range
/// that then has no width is handed to `widen`, with the scale of the axis,
/// which gives it one. What comes back is taken as the axis can show it. So
/// whatever `pad` and `widen` return, a logarithmic axis has bounds that are
/// numbers above zero, the lower less than the upper.
pub fn resolve_range<P: Fn(Range, Axis, bool) -> Range, W: Fn(Range, bool) -> Range>(
    mode: &PlotRange,
    data: &Vec<DataLine>,
    axis: Axis,
    within: Option<Range>,
    logscale: bool,
    pad: &P,
    widen: &W,
) -> (r: Range)
    requires
        forall|e: Range, a: Axis, l: bool| #[trigger] pad.requires((e, a, l)),
        forall|e: Range, l: bool| #[trigger] widen.requires((e, l)),
    ensures
        is_resolved(*mode, data@, axis, within, logscale, pad, widen, r),
        logscale ==> is_log_range(r),
{
    match mode {
        PlotRange::Fixed(q) => settle(*q, logscale),
        PlotRange::Auto => {
            let e: Range = extent(data, axis, within);
            let shown: Range = lift(e, logscale);
            let padded: Range = pad(shown, axis, logscale);
            let margin: Range = if padded.0 == padded.1 {
                widen(padded, logscale)
            } else {
                padded
            };
            proof {
                assert(is_auto(data@, axis, within, logscale, pad, widen, e, margin));
            }
            settle(margin, logscale)
        },
    }
}

/// The vertical range that is found from the data within a horizontal range
/// depends on nothing but the points within that range: a range that
/// resolves the one of two sets of polylines that differ only in the heights
/// of points outside it resolves the other.
pub proof fn lemma_resolved_ignores_outside<
    P: Fn(Range, Axis, bool) -> Range,
    W: Fn(Range, bool) -> Range,
>(
    d1: Seq<Vec<Point>>,
    d2: Seq<Vec<Point>>,
    x_range: Range,
    mode: PlotRange,
    logscale: bool,
    pad: &P,
    widen: &W,
    r: Range,
)
    requires
        alike_within(d1, d2, x_range),
        is_resolved(mode, d1, Axis::Y, Some(x_range), logscale, pad, widen, r),
    ensures
        is_resolved(mode, d2, Axis::Y, Some(x_range), logscale, pad, widen, r),
{
    if mode is Auto {
        let (e, m) = choose|e: Range, m: Range| #[trigger]
            is_auto(d1, Axis::Y, Some(x_range), logscale, pad, widen, e, m) && r == settled(
                m,
                logscale,
            );
        lemma_extent_ignores_outside(d1, d2, x_range, e);
        assert(is_auto(d2, Axis::Y, Some(x_range), logscale, pad, widen, e, m));
    }
}

/// The horizontal extent depends on nothing but where the points stand
/// horizontally.
pub proof fn lemma_extent_x_alike(
    d1: Seq<Vec<Point>>,
    d2: Seq<Vec<Point>>,
    x_range: Range,
    r: Range,
)
    requires
        alike_within(d1, d2, x_range),
        is_extent(d1, Axis::X, None, r),
    ensures
        is_extent(d2, Axis::X, None, r),
{
    let within: Option<Range> = None;
    assert forall|a: int, b: int| counted_at(d1, within, a, b) implies counted_at(
        d2,
        within,
        a,
        b,
    ) && d1[a]@[b].0 == d2[a]@[b].0 by {
        assert(d1[a]@.len() == d2[a]@.len());
    }
    assert forall|a: int, b: int| counted_at(d2, within, a, b) implies counted_at(
        d1,
        within,
        a,
        b,
    ) && d1[a]@[b].0 == d2[a]@[b].0 by {
        assert(d1[a]@.len() == d2[a]@.len());
    }
    if exists|a: int, b: int| counted_at(d1, within, a, b) {
        let (a, b) = choose|a: int, b: int| counted_at(d1, within, a, b);
        assert(counted_at(d2, within, a, b));
        let (a0, b0) = choose|a: int, b: int| #[trigger]
            counted_at(d1, within, a, b) && coordinate(d1[a]@[b], Axis::X) == r.0;
        let (a1, b1) = choose|a: int, b: int| #[trigger]
            counted_at(d1, within, a, b) && coordinate(d1[a]@[b], Axis::X) == r.1;
        assert(counted_at(d2, within, a0, b0) && coordinate(d2[a0]@[b0], Axis::X) == r.0);
        assert(counted_at(d2, within, a1, b1) && coordinate(d2[a1]@[b1], Axis::X) == r.1);
        assert forall|a: int, b: int| #[trigger] counted_at(d2, within, a, b) implies r.0
            <= coordinate(d2[a]@[b], Axis::X) <= r.1 by {
            assert(counted_at(d1, within, a, b));
        }
    } else {
        assert forall|a: int, b: int| !counted_at(d2, within, a, b) by {
            if counted_at(d2, within, a, b) {
                assert(counted_at(d1, within, a, b));
            }
        }
    }
}

/// Whether `pad` has one answer to each question.
pub open spec fn pads_alike<P: Fn(Range, Axis, bool) -> Range>(pad: &P) -> bool {
    forall|e: Range, a: Axis, l: bool, p: Range, q: Range|
        #[trigger] pad.ensures((e, a, l), p) && #[trigger] pad.ensures((e, a, l), q) ==> p == q
}

/// Whether `widen` has one answer to each question.
pub open spec fn widens_alike<W: Fn(Range, bool) -> Range>(widen: &W) -> bool {
    forall|e: Range, l: bool, p: Range, q: Range|
        #[trigger] widen.ensures((e, l), p) && #[trigger] widen.ensures((e, l), q) ==> p == q
}

/// Data with the same extent has the same range: where `pad` and `widen`
/// have one answer to each question, two ranges that resolve an axis for two
/// sets of polylines are equal if every extent of the one is an extent of
/// the other.
pub proof fn lemma_resolved_alike<P: Fn(Range, Axis, bool) -> Range, W: Fn(Range, bool) -> Range>(
    d1: Seq<Vec<Point>>,
    d2: Seq<Vec<Point>>,
    axis: Axis,
    within: Option<Range>,
    mode: PlotRange,
    logscale: bool,
    pad: &P,
    widen: &W,
    r1: Range,
    r2: Range,
)
    requires
        forall|e: Range| #[trigger]
            is_extent(d1, axis, within, e) ==> is_extent(d2, axis, within, e),
        pads_alike(pad),
        widens_alike(widen),
        is_resolved(mode, d1, axis, within, logscale, pad, widen, r1),
        is_resolved(mode, d2, axis, within, logscale, pad, widen, r2),
    ensures
        r1 == r2,
{
    if mode is Auto {
        let (e1, m1) = choose|e: Range, m: Range| #[trigger]
            is_auto(d1, axis, within, logscale, pad, widen, e, m) && r1 == settled(m, logscale);
        let (e2, m2) = choose|e: Range, m: Range| #[trigger]
            is_auto(d2, axis, within, logscale, pad, widen, e, m) && r2 == settled(m, logscale);
        assert(is_extent(d2, axis, within, e1));
        lemma_extent_unique(d2, axis, within, e2);
        assert(e1 == e2);
        let shown = lifted(e1, logscale);
        let p1 = choose|p: Range| #[trigger]
            pad.ensures((shown, axis, logscale), p) && if p.0 == p.1 {
                widen.ensures((p, logscale), m1)
            } else {
                m1 == p
            };
        let p2 = choose|p: Range| #[trigger]
            pad.ensures((shown, axis, logscale), p) && if p.0 == p.1 {
                widen.ensures((p, logscale), m2)
            } else {
                m2 == p
            };
        assert(p1 == p2);
        assert(m1 == m2);
    }
}

/// The points of the line that lie in the rectangle, in their order.
pub open spec fn points_inside(line: Seq<Point>, x_range: Range, y_range: Range) -> Seq<Point>
    decreases line.len(),
{
    if line.len() == 0 {
        Seq::empty()
    } else {
        let rest = points_inside(line.drop_last(), x_range, y_range);
        if in_area(line.last(), x_range, y_range) {
            rest.push(line.last())
        } else {
            rest
        }
    }
}

/// The points of the line that lie in the rectangle, in their order.
pub fn visible_points(line: &Vec<Point>, x_range: &Range, y_range: &Range) -> (points: Vec<Point>)
    ensures
        points@ == points_inside(line@, *x_range, *y_range),
{
    let mut points: Vec<Point> = Vec::new();
    let mut i: usize = 0;
    while i < line.len()
        invariant
            i <= line.len(),
            points@ == points_inside(line@.take(i as int), *x_range, *y_range),
        decreases line.len() - i,
    {
        proof {
            assert(line@.take(i + 1).drop_last() == line@.take(i as int));
        }
        if point_in_area(&line[i], x_range, y_range) {
            points.push(line[i]);
        }
        i += 1;
    }
    proof {
        assert(line@.take(line.len() as int) == line@);
    }
    points
}

/// The number of colours that polylines are told apart by.
pub const COLOR_COUNT: usize = 7;

/// The colour of the polyline of the given index: the colours are taken in
/// turn, and without colour every polyline has the first.
pub fn color_index(line_index: usize, use_color: bool) -> (c: usize)
    ensures
        c == if use_color {
            line_index as int % COLOR_COUNT as int
        } else {
            0
        },
{
    if use_color {
        line_index % COLOR_COUNT
    } else {
        0
    }
}

/// What is drawn of a slice: the two ranges of the picture and, polyline by
/// polyline, the points and the pieces of line that lie within them.
#[derive(Debug)]
pub struct Drawing {
    pub x_range: Range,
    pub y_range: Range,
    pub point_data: Vec<Vec<Point>>,
    pub line_data: Vec<Vec<Vec<Point>>>,
}

impl Drawing {
    /// Whether this is the drawing of the polylines under the settings.
    ///
    /// The horizontal range is resolved first, from every point. The vertical
    /// range is resolved next, from the points within the horizontal range
    /// only. Where points are drawn, each polyline gives its points in the
    /// rectangle of the two ranges; where lines are drawn, each gives its
    /// pieces in that rectangle.
    pub open spec fn is_drawing_of<
        P: Fn(Range, Axis, bool) -> Range,
        W: Fn(Range, bool) -> Range,
        L: Fn(i64, i64, i64, i64, i64) -> i64,
    >(&self, data: Seq<Vec<Point>>, settings: PlotSettings, pad: &P, widen: &W, lerp: &L) -> bool {
        &&& is_resolved(
            settings.plot_range_x,
            data,
            Axis::X,
            None,
            settings.use_logscale_x,
            pad,
            widen,
            self.x_range,
        )
        &&& is_resolved(
            settings.plot_range_y,
            data,
            Axis::Y,
            Some(self.x_range),
            settings.use_logscale_y,
            pad,
            widen,
            self.y_range,
        )
        &&& self.point_data.len() == if settings.draw_points {
            data.len()
        } else {
            0
        }
        &&& forall|i: int|
            0 <= i < self.point_data.len() ==> (#[trigger] self.point_data[i])@ == points_inside(
                data[i]@,
                self.x_range,
                self.y_range,
            )
        &&& self.line_data.len() == if settings.draw_lines {
            data.len()
        } else {
            0
        }
        &&& forall|i: int|
            0 <= i < self.line_data.len() ==> is_clipping(
                lerp,
                data[i]@,
                self.x_range,
                self.y_range,
                (#[trigger] self.line_data[i])@,
            ) && all_in_area(self.line_data[i]@, self.x_range, self.y_range)
    }
}

/// What to draw of a slice under the given settings: the ranges of the
/// picture, and what of each polyline lies within them. Of a slice without a
/// polyline there is nothing to draw. The range of a logarithmic axis has
/// bounds that are numbers above zero, the lower less than the upper,
/// whatever the data and the settings are.
pub fn plot_data_slice<
    P: Fn(Range, Axis, bool) -> Range,
    W: Fn(Range, bool) -> Range,
    L: Fn(i64, i64, i64, i64, i64) -> i64,
>(data_slice: &DataSlice, plot_settings: &PlotSettings, pad: &P, widen: &W, lerp: &L) -> (drawing:
    Option<Drawing>)
    requires
        forall|e: Range, a: Axis, l: bool| #[trigger] pad.requires((e, a, l)),
        forall|e: Range, l: bool| #[trigger] widen.requires((e, l)),
        can_interpolate(lerp),
    ensures
        drawing is None <==> data_slice.datalines.len() == 0,
        drawing matches Some(d) ==> d.is_drawing_of(
            data_slice.datalines@,
            *plot_settings,
            pad,
            widen,
            lerp,
        ),
        drawing matches Some(d) ==> (plot_settings.use_logscale_x ==> is_log_range(d.x_range)) && (
        plot_settings.use_logscale_y ==> is_log_range(d.y_range)),
{
    let data: &Vec<DataLine> = &data_slice.datalines;
    if data.len() == 0 {
        return None;
    }
    let x_range: Range = resolve_range(
        &plot_settings.plot_range_x,
        data,
        Axis::X,
        None,
        plot_settings.use_logscale_x,
        pad,
        widen,
    );
    let y_range: Range = resolve_range(
        &plot_settings.plot_range_y,
        data,
        Axis::Y,
        Some(x_range),
        plot_settings.use_logscale_y,
        pad,
        widen,
    );
    let mut point_data: Vec<Vec<Point>> = Vec::new();
    if plot_settings.draw_points {
        let mut i: usize = 0;
        while i < data.len()
            invariant
                i <= data.len(),
                point_data.len() == i,
                forall|k: int|
                    0 <= k < i ==> (#[trigger] point_data[k])@ == points_inside(
                        data[k]@,
                        x_range,
                        y_range,
                    ),
            decreases data.len() - i,
        {
            point_data.push(visible_points(&data[i], &x_range, &y_range));
            i += 1;
        }
    }
    let mut line_data: Vec<Vec<Vec<Point>>> = Vec::new();
    if plot_settings.draw_lines {
        let mut i: usize = 0;
        while i < data.len()
            invariant
                i <= data.len(),
                can_interpolate(lerp),
                line_data.len() == i,
                forall|k: int|
                    0 <= k < i ==> is_clipping(
                        lerp,
                        data[k]@,
                        x_range,
                        y_range,
                        (#[trigger] line_data[k])@,
                    ) && all_in_area(line_data[k]@, x_range, y_range),
            decreases data.len() - i,
        {
            line_data.push(truncate_line(&data[i], &x_range, &y_range, lerp));
            i += 1;
        }
    }
    Some(Drawing { x_range, y_range, point_data, line_data })
}

/// The ranges of a picture depend on nothing but the points within its
/// horizontal range: where `pad` and `widen` have one answer to each
/// question, the drawings of two sets of polylines that differ only in the
/// heights of points outside the horizontal range of the first show the same
/// two ranges.
pub proof fn lemma_drawing_ranges_alike<
    P: Fn(Range, Axis, bool) -> Range,
    W: Fn(Range, bool) -> Range,
    L: Fn(i64, i64, i64, i64, i64) -> i64,
>(
    a: Drawing,
    b: Drawing,
    d1: Seq<Vec<Point>>,
    d2: Seq<Vec<Point>>,
    settings: PlotSettings,
    pad: &P,
    widen: &W,
    lerp: &L,
)
    requires
        a.is_drawing_of(d1, settings, pad, widen, lerp),
        b.is_drawing_of(d2, settings, pad, widen, lerp),
        alike_within(d1, d2, a.x_range),
        pads_alike(pad),
        widens_alike(widen),
    ensures
        a.x_range == b.x_range,
        a.y_range == b.y_range,
{
    assert forall|e: Range| #[trigger] is_extent(d1, Axis::X, None, e) implies is_extent(
        d2,
        Axis::X,
        None,
        e,
    ) by {
        lemma_extent_x_alike(d1, d2, a.x_range, e);
    }
    lemma_resolved_alike(
        d1,
        d2,
        Axis::X,
        None,
        settings.plot_range_x,
        settings.use_logscale_x,
        pad,
        widen,
        a.x_range,
        b.x_range,
    );
    assert forall|e: Range| #[trigger]
        is_extent(d1, Axis::Y, Some(a.x_range), e) implies is_extent(
        d2,
        Axis::Y,
        Some(a.x_range),
        e,
    ) by {
        lemma_extent_ignores_outside(d1, d2, a.x_range, e);
    }
    lemma_resolved_alike(
        d1,
        d2,
        Axis::Y,
        Some(a.x_range),
        settings.plot_range_y,
        settings.use_logscale_y,
        pad,
        widen,
        a.y_range,
        b.y_range,
    );
}

} // verus!
