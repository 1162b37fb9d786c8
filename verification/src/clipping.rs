//! Clipping: which parts of a polyline lie in a rectangle of the plane, and
//! where the polyline enters and leaves it.

use vstd::prelude::*;
use crate::data::Point;
use crate::plotting::Range;

verus! {

/// Whether a coordinate lies within the bounds, the bounds included.
pub open spec fn in_range(v: i64, r: Range) -> bool {
    r.0 <= v <= r.1
}

/// Whether a point lies in the rectangle of the two ranges, its edges included.
pub open spec fn in_area(p: Point, x_range: Range, y_range: Range) -> bool {
    in_range(p.0, x_range) && in_range(p.1, y_range)
}

/// The bound that a coordinate lies beyond, where it lies beyond one.
pub open spec fn violated_bound(v: i64, r: Range) -> Option<i64> {
    if v < r.0 {
        Some(r.0)
    } else if v > r.1 {
        Some(r.1)
    } else {
        None
    }
}

/// The bound at which a segment that runs from `a0` to `a1` along one axis is
/// cut: the bound that `a0` lies beyond. A segment that does not move along
/// the axis is not cut on it.
pub open spec fn crossing(a0: i64, a1: i64, r: Range) -> Option<i64> {
    if a0 == a1 {
        None
    } else {
        violated_bound(a0, r)
    }
}

/// `v`, moved to the nearer of `a` and `b` where it does not lie between them.
pub open spec fn clamp_between(v: i64, a: i64, b: i64) -> i64 {
    let lo = if a <= b { a } else { b };
    let hi = if a <= b { b } else { a };
    if v < lo {
        lo
    } else if v > hi {
        hi
    } else {
        v
    }
}

/// The start of the segment from `start` to `end`, moved along the segment onto
/// the bound of the horizontal range that it lies beyond. `y_at` is the
/// segment's height over that bound as the caller has interpolated it; it
/// counts only as far as it lies between the heights of the two ends.
pub open spec fn truncated_x(start: Point, end: Point, x_range: Range, y_at: i64) -> Point {
    match crossing(start.0, end.0, x_range) {
        Some(b) => (b, clamp_between(y_at, start.1, end.1)),
        None => start,
    }
}

/// As `truncated_x`, for the vertical range: `x_at` is the segment's
/// horizontal position at the bound.
pub open spec fn truncated_y(start: Point, end: Point, y_range: Range, x_at: i64) -> Point {
    match crossing(start.1, end.1, y_range) {
        Some(b) => (clamp_between(x_at, start.0, end.0), b),
        None => start,
    }
}

/// Whether `lerp` can be asked for any interpolation along an axis on which
/// the segment moves. `lerp(a0, a1, b, c0, c1)` is asked for the value at `b`
/// of the line that is `c0` at `a0` and `c1` at `a1`.
pub open spec fn can_interpolate<F: Fn(i64, i64, i64, i64, i64) -> i64>(lerp: &F) -> bool {
    forall|a0: i64, a1: i64, b: i64, c0: i64, c1: i64|
        a0 != a1 ==> #[trigger] lerp.requires((a0, a1, b, c0, c1))
}

/// Whether `r` is a truncation of the segment from `start` to `end`: its start,
/// cut first at the horizontal and then, from there, at the vertical range,
/// with interpolated values that `lerp` can have returned for the two cuts.
pub open spec fn is_truncation<F: Fn(i64, i64, i64, i64, i64) -> i64>(
    lerp: &F,
    start: Point,
    end: Point,
    x_range: Range,
    y_range: Range,
    r: Point,
) -> bool {
    exists|y_at: i64, x_at: i64|
        {
            let cut = truncated_x(start, end, x_range, y_at);
            &&& crossing(start.0, end.0, x_range) matches Some(b) ==> lerp.ensures(
                (start.0, end.0, b, start.1, end.1),
                y_at,
            )
            &&& crossing(cut.1, end.1, y_range) matches Some(b) ==> lerp.ensures(
                (cut.1, end.1, b, cut.0, end.0),
                x_at,
            )
            &&& r == #[trigger] truncated_y(truncated_x(start, end, x_range, y_at), end, y_range, x_at)
        }
}

/// Whether the point lies in the rectangle of the two ranges.
pub fn point_in_area(p: &Point, x_range: &Range, y_range: &Range) -> (b: bool)
    ensures
        b == in_area(*p, *x_range, *y_range),
{
    p.0 >= x_range.0 && p.0 <= x_range.1 && p.1 >= y_range.0 && p.1 <= y_range.1
}

/// The bound of `r` at which the segment from `a0` to `a1` is cut, if it is.
pub fn crossed_bound(a0: i64, a1: i64, r: &Range) -> (b: Option<i64>)
    ensures
        b == crossing(a0, a1, *r),
{
    if a0 == a1 {
        None
    } else if a0 < r.0 {
        Some(r.0)
    } else if a0 > r.1 {
        Some(r.1)
    } else {
        None
    }
}

/// `v`, moved to the nearer of `a` and `b` where it does not lie between them.
fn clamped_between(v: i64, a: i64, b: i64) -> (r: i64)
    ensures
        r == clamp_between(v, a, b),
{
    let lo: i64 = if a <= b { a } else { b };
    let hi: i64 = if a <= b { b } else { a };
    if v < lo {
        lo
    } else if v > hi {
        hi
    } else {
        v
    }
}

/// Cuts the segment at the horizontal range, given the interpolated height.
pub fn truncate_along_x(start: Point, end: Point, x_range: &Range, y_at: i64) -> (r: Point)
    ensures
        r == truncated_x(start, end, *x_range, y_at),
{
    match crossed_bound(start.0, end.0, x_range) {
        Some(b) => (b, clamped_between(y_at, start.1, end.1)),
        None => start,
    }
}

/// Cuts the segment at the vertical range, given the interpolated position.
pub fn truncate_along_y(start: Point, end: Point, y_range: &Range, x_at: i64) -> (r: Point)
    ensures
        r == truncated_y(start, end, *y_range, x_at),
{
    match crossed_bound(start.1, end.1, y_range) {
        Some(b) => (clamped_between(x_at, start.0, end.0), b),
        None => start,
    }
}

/// Moves the first point of a segment to where the segment enters the
/// rectangle: onto the horizontal bound that the point lies beyond, and from
/// there onto the vertical bound that it then still lies beyond. A point in
/// the rectangle stays. On an axis along which the segment does not move
/// nothing is cut, and the other axis decides.
pub fn truncate_line_segment<F: Fn(i64, i64, i64, i64, i64) -> i64>(
    line_segment: &(Point, Point),
    x_range: &Range,
    y_range: &Range,
    lerp: &F,
) -> (r: Point)
    requires
        can_interpolate(lerp),
    ensures
        is_truncation(lerp, line_segment.0, line_segment.1, *x_range, *y_range, r),
        in_area(line_segment.0, *x_range, *y_range) ==> r == line_segment.0,
        in_area(line_segment.1, *x_range, *y_range) ==> in_area(r, *x_range, *y_range),
{
    let start: Point = line_segment.0;
    let end: Point = line_segment.1;
    let y_at: i64 = match crossed_bound(start.0, end.0, x_range) {
        Some(b) => lerp(start.0, end.0, b, start.1, end.1),
        None => start.1,
    };
    let cut: Point = truncate_along_x(start, end, x_range, y_at);
    let x_at: i64 = match crossed_bound(cut.1, end.1, y_range) {
        Some(b) => lerp(cut.1, end.1, b, cut.0, end.0),
        None => cut.0,
    };
    let r: Point = truncate_along_y(cut, end, y_range, x_at);
    assert(r == truncated_y(truncated_x(start, end, *x_range, y_at), end, *y_range, x_at));
    r
}

/// A truncation of a segment that ends in the rectangle lies in the
/// rectangle, and a segment that starts in the rectangle is not cut.
pub proof fn lemma_truncation_in_area<F: Fn(i64, i64, i64, i64, i64) -> i64>(
    lerp: &F,
    start: Point,
    end: Point,
    x_range: Range,
    y_range: Range,
    r: Point,
)
    requires
        is_truncation(lerp, start, end, x_range, y_range, r),
    ensures
        in_area(start, x_range, y_range) ==> r == start,
        in_area(end, x_range, y_range) ==> in_area(r, x_range, y_range),
{
}

/// A segment that ends in the rectangle and starts beyond exactly one of its
/// bounds is cut exactly on that bound, at a point between its two ends.
pub proof fn lemma_truncation_on_bound<F: Fn(i64, i64, i64, i64, i64) -> i64>(
    lerp: &F,
    start: Point,
    end: Point,
    x_range: Range,
    y_range: Range,
    r: Point,
)
    requires
        is_truncation(lerp, start, end, x_range, y_range, r),
        in_area(end, x_range, y_range),
    ensures
        !in_range(start.0, x_range) && in_range(start.1, y_range) ==> Some(r.0) == violated_bound(
            start.0,
            x_range,
        ) && r.1 == clamp_between(r.1, start.1, end.1),
        in_range(start.0, x_range) && !in_range(start.1, y_range) ==> Some(r.1) == violated_bound(
            start.1,
            y_range,
        ) && r.0 == clamp_between(r.0, start.0, end.0),
{
}

/// The maximal runs of consecutive points in the rectangle among the first `n`
/// points of the line, in their order along the line. A run is the index of
/// its first point and the index just past its last.
pub open spec fn runs_upto(line: Seq<Point>, x_range: Range, y_range: Range, n: nat) -> Seq<
    (usize, usize),
>
    decreases n,
{
    if n == 0 {
        Seq::empty()
    } else {
        let prev = runs_upto(line, x_range, y_range, (n - 1) as nat);
        if !in_area(line[n - 1], x_range, y_range) {
            prev
        } else if prev.len() > 0 && prev.last().1 == n - 1 {
            prev.update(prev.len() - 1, (prev.last().0, n as usize))
        } else {
            prev.push(((n - 1) as usize, n as usize))
        }
    }
}

/// The maximal runs of consecutive points of the line in the rectangle.
pub open spec fn runs_inside(line: Seq<Point>, x_range: Range, y_range: Range) -> Seq<
    (usize, usize),
> {
    runs_upto(line, x_range, y_range, line.len())
}

/// Whether `runs` are the maximal runs of points in the rectangle among the
/// first `n` points of the line: each is a stretch of such points that
/// neither neighbour extends, they follow one another along the line, and
/// every such point is in one of them.
pub open spec fn are_runs(
    line: Seq<Point>,
    x_range: Range,
    y_range: Range,
    n: nat,
    runs: Seq<(usize, usize)>,
) -> bool {
    &&& forall|k: int|
        0 <= k < runs.len() ==> {
            let (s, e) = #[trigger] runs[k];
            &&& s < e <= n
            &&& s == 0 || !in_area(line[s - 1], x_range, y_range)
            &&& e == n || !in_area(line[e as int], x_range, y_range)
        }
    &&& forall|k: int, j: int| #[trigger] in_run(runs, k, j) ==> in_area(line[j], x_range, y_range)
    &&& forall|k: int| 0 <= k < runs.len() - 1 ==> (#[trigger] runs[k]).1 < runs[k + 1].0
    &&& forall|j: int|
        0 <= j < n && in_area(#[trigger] line[j], x_range, y_range) ==> exists|k: int|
            in_run(runs, k, j)
}

/// Whether the point of index `j` belongs to the run of index `k`.
pub open spec fn in_run(runs: Seq<(usize, usize)>, k: int, j: int) -> bool {
    0 <= k < runs.len() && runs[k].0 <= j < runs[k].1
}

/// `runs_upto` yields the maximal runs.
pub proof fn lemma_runs_upto(line: Seq<Point>, x_range: Range, y_range: Range, n: nat)
    requires
        n <= line.len() <= usize::MAX,
    ensures
        are_runs(line, x_range, y_range, n, runs_upto(line, x_range, y_range, n)),
    decreases n,
{
    if n > 0 {
        let m = (n - 1) as nat;
        lemma_runs_upto(line, x_range, y_range, m);
        let prev = runs_upto(line, x_range, y_range, m);
        let runs = runs_upto(line, x_range, y_range, n);
        if !in_area(line[n - 1], x_range, y_range) {
            assert forall|j: int|
                0 <= j < n && in_area(#[trigger] line[j], x_range, y_range) implies exists|k: int|
                in_run(runs, k, j) by {
                assert(j < m);
            }
        } else if prev.len() > 0 && prev.last().1 == n - 1 {
            let last = prev.len() - 1;
            assert forall|k: int| 0 <= k < runs.len() implies {
                let (s, e) = #[trigger] runs[k];
                &&& s < e <= n
                &&& s == 0 || !in_area(line[s - 1], x_range, y_range)
                &&& e == n || !in_area(line[e as int], x_range, y_range)
            } by {
                if k < last {
                    assert(runs[k] == prev[k]);
                    assert(prev[k].1 < prev[k + 1].0);
                }
            }
            assert forall|k: int, j: int| #[trigger] in_run(runs, k, j) implies in_area(
                line[j],
                x_range,
                y_range,
            ) by {
                if k < last {
                    assert(in_run(prev, k, j));
                } else if j < m {
                    assert(in_run(prev, k, j));
                }
            }
            assert forall|k: int| 0 <= k < runs.len() - 1 implies (#[trigger] runs[k]).1 < runs[k
                + 1].0 by {
                assert(runs[k] == prev[k]);
                assert(runs[k + 1].0 == prev[k + 1].0);
            }
            assert forall|j: int|
                0 <= j < n && in_area(#[trigger] line[j], x_range, y_range) implies exists|k: int|
                in_run(runs, k, j) by {
                if j < m {
                    let k = choose|k: int| in_run(prev, k, j);
                    assert(in_run(runs, k, j));
                } else {
                    assert(in_run(runs, last, j));
                }
            }
        } else {
            let last = prev.len() as int;
            assert forall|k: int| 0 <= k < runs.len() implies {
                let (s, e) = #[trigger] runs[k];
                &&& s < e <= n
                &&& s == 0 || !in_area(line[s - 1], x_range, y_range)
                &&& e == n || !in_area(line[e as int], x_range, y_range)
            } by {
                if k < last {
                    assert(runs[k] == prev[k]);
                    if prev[k].1 == m {
                        assert(k < last - 1);
                        assert(prev[k].1 < prev[k + 1].0);
                    }
                } else if m > 0 && in_area(line[m - 1], x_range, y_range) {
                    let j0 = m - 1;
                    let k0 = choose|k0: int| in_run(prev, k0, j0);
                    assert(prev[k0].1 <= m);
                    if k0 < last - 1 {
                        assert(prev[k0].1 < prev[k0 + 1].0);
                        assert(prev[k0 + 1].0 < prev[k0 + 1].1);
                        lemma_runs_ascend(prev, k0 + 1, last - 1);
                    }
                }
            }
            assert forall|k: int, j: int| #[trigger] in_run(runs, k, j) implies in_area(
                line[j],
                x_range,
                y_range,
            ) by {
                if k < last {
                    assert(in_run(prev, k, j));
                }
            }
            assert forall|k: int| 0 <= k < runs.len() - 1 implies (#[trigger] runs[k]).1 < runs[k
                + 1].0 by {
                assert(runs[k] == prev[k]);
                if k + 1 < last {
                    assert(runs[k + 1] == prev[k + 1]);
                }
            }
            assert forall|j: int|
                0 <= j < n && in_area(#[trigger] line[j], x_range, y_range) implies exists|k: int|
                in_run(runs, k, j) by {
                if j < m {
                    let k = choose|k: int| in_run(prev, k, j);
                    assert(in_run(runs, k, j));
                } else {
                    assert(in_run(runs, last, j));
                }
            }
        }
    }
}

/// Runs that follow one another start ever later.
proof fn lemma_runs_ascend(runs: Seq<(usize, usize)>, a: int, b: int)
    requires
        0 <= a <= b < runs.len(),
        forall|k: int| 0 <= k < runs.len() ==> (#[trigger] runs[k]).0 < runs[k].1,
        forall|k: int| 0 <= k < runs.len() - 1 ==> (#[trigger] runs[k]).1 < runs[k + 1].0,
    ensures
        runs[a].0 <= runs[b].0,
        runs[a].1 <= runs[b].1,
    decreases b - a,
{
    if a < b {
        lemma_runs_ascend(runs, a + 1, b);
        assert(runs[a].1 < runs[a + 1].0);
    }
}

/// The maximal runs of consecutive points of the line that lie in the
/// rectangle, in their order along the line.
pub fn inside_runs(line: &Vec<Point>, x_range: &Range, y_range: &Range) -> (runs: Vec<
    (usize, usize),
>)
    ensures
        runs@ == runs_inside(line@, *x_range, *y_range),
        are_runs(line@, *x_range, *y_range, line@.len(), runs@),
{
    let mut runs: Vec<(usize, usize)> = Vec::new();
    let mut i: usize = 0;
    while i < line.len()
        invariant
            i <= line.len(),
            runs@ == runs_upto(line@, *x_range, *y_range, i as nat),
        decreases line.len() - i,
    {
        if point_in_area(&line[i], x_range, y_range) {
            let count: usize = runs.len();
            if count > 0 && runs[count - 1].1 == i {
                let start: usize = runs[count - 1].0;
                runs.set(count - 1, (start, i + 1));
            } else {
                runs.push((i, i + 1));
            }
        }
        i += 1;
    }
    proof {
        lemma_runs_upto(line@, *x_range, *y_range, line@.len());
    }
    runs
}

/// The part of the line that one run makes visible: the points of the run,
/// unchanged and in their order, after `head` and before `tail`. `head`
/// stands where the line enters the rectangle before the run and `tail` where
/// it leaves after it; each is left out where the line has no point beyond
/// the run on that side, or where it would repeat the run's point next to it.
pub open spec fn piece_of(line: Seq<Point>, run: (usize, usize), head: Point, tail: Point) -> Seq<
    Point,
> {
    let s = run.0 as int;
    let e = run.1 as int;
    let front = if s > 0 && head != line[s] {
        seq![head]
    } else {
        Seq::<Point>::empty()
    };
    let back = if e < line.len() && tail != line[e - 1] {
        seq![tail]
    } else {
        Seq::<Point>::empty()
    };
    front + line.subrange(s, e) + back
}

/// Whether `piece` is what the run makes visible, with the line cut where it
/// enters and leaves the rectangle: the entry is a truncation of the segment
/// from the point before the run to its first point, the exit one of the
/// segment from the point after the run to its last.
pub open spec fn is_piece<F: Fn(i64, i64, i64, i64, i64) -> i64>(
    lerp: &F,
    line: Seq<Point>,
    x_range: Range,
    y_range: Range,
    run: (usize, usize),
    piece: Seq<Point>,
) -> bool {
    exists|head: Point, tail: Point|
        {
            &&& run.0 > 0 ==> is_truncation(
                lerp,
                line[run.0 - 1],
                line[run.0 as int],
                x_range,
                y_range,
                head,
            )
            &&& run.1 < line.len() ==> is_truncation(
                lerp,
                line[run.1 as int],
                line[run.1 - 1],
                x_range,
                y_range,
                tail,
            )
            &&& piece == #[trigger] piece_of(line, run, head, tail)
        }
}

/// Whether `pieces` are the parts of the line that lie in the rectangle: one
/// piece for each maximal run of points in it, in the order of the runs.
pub open spec fn is_clipping<F: Fn(i64, i64, i64, i64, i64) -> i64>(
    lerp: &F,
    line: Seq<Point>,
    x_range: Range,
    y_range: Range,
    pieces: Seq<Vec<Point>>,
) -> bool {
    &&& pieces.len() == runs_inside(line, x_range, y_range).len()
    &&& forall|k: int|
        0 <= k < pieces.len() ==> is_piece(
            lerp,
            line,
            x_range,
            y_range,
            runs_inside(line, x_range, y_range)[k],
            (#[trigger] pieces[k])@,
        )
}

/// Whether every point of every piece lies in the rectangle.
pub open spec fn all_in_area(pieces: Seq<Vec<Point>>, x_range: Range, y_range: Range) -> bool {
    forall|k: int, j: int|
        0 <= k < pieces.len() && 0 <= j < pieces[k]@.len() ==> in_area(
            #[trigger] pieces[k]@[j],
            x_range,
            y_range,
        )
}

/// The piece of the line that the run makes visible.
fn cut_piece<F: Fn(i64, i64, i64, i64, i64) -> i64>(
    line: &Vec<Point>,
    run: (usize, usize),
    x_range: &Range,
    y_range: &Range,
    lerp: &F,
) -> (piece: Vec<Point>)
    requires
        can_interpolate(lerp),
        run.0 < run.1 <= line.len(),
        forall|j: int| run.0 <= j < run.1 ==> in_area(#[trigger] line[j], *x_range, *y_range),
    ensures
        is_piece(lerp, line@, *x_range, *y_range, run, piece@),
        forall|j: int| 0 <= j < piece.len() ==> in_area(#[trigger] piece[j], *x_range, *y_range),
{
    let s: usize = run.0;
    let e: usize = run.1;
    let mut piece: Vec<Point> = Vec::new();
    let mut head: Point = line[s];
    if s > 0 {
        head = truncate_line_segment(&(line[s - 1], line[s]), x_range, y_range, lerp);
        if head.0 != line[s].0 || head.1 != line[s].1 {
            piece.push(head);
        }
    }
    let ghost front = piece@;
    let mut j: usize = s;
    while j < e
        invariant
            s <= j <= e <= line.len(),
            piece@ == front + line@.subrange(s as int, j as int),
        decreases e - j,
    {
        piece.push(line[j]);
        j += 1;
    }
    let ghost middle = piece@;
    let mut tail: Point = line[e - 1];
    if e < line.len() {
        tail = truncate_line_segment(&(line[e], line[e - 1]), x_range, y_range, lerp);
        if tail.0 != line[e - 1].0 || tail.1 != line[e - 1].1 {
            piece.push(tail);
        }
    }
    proof {
        assert(piece@ == piece_of(line@, run, head, tail));
        assert forall|i: int| 0 <= i < piece.len() implies in_area(
            #[trigger] piece[i],
            *x_range,
            *y_range,
        ) by {
            if i < front.len() {
                assert(piece[i] == head);
            } else if i < middle.len() {
                assert(piece[i] == line[s + i - front.len()]);
            } else {
                assert(piece[i] == tail);
            }
        }
    }
    piece
}

/// The parts of a polyline that lie in the rectangle of the two ranges.
///
/// There is one piece for each maximal run of consecutive points in the
/// rectangle, in the order of the runs along the line. A piece holds the
/// points of its run unchanged. Where the line goes on beyond the run, the
/// piece starts, or ends, with the point at which the segment to the next
/// point outside crosses the edge of the rectangle, unless that is the run's
/// own point. No piece holds a point outside the rectangle.
pub fn truncate_line<F: Fn(i64, i64, i64, i64, i64) -> i64>(
    line: &Vec<Point>,
    x_range: &Range,
    y_range: &Range,
    lerp: &F,
) -> (pieces: Vec<Vec<Point>>)
    requires
        can_interpolate(lerp),
    ensures
        is_clipping(lerp, line@, *x_range, *y_range, pieces@),
        all_in_area(pieces@, *x_range, *y_range),
{
    let runs: Vec<(usize, usize)> = inside_runs(line, x_range, y_range);
    let mut pieces: Vec<Vec<Point>> = Vec::new();
    let mut k: usize = 0;
    while k < runs.len()
        invariant
            k <= runs.len(),
            can_interpolate(lerp),
            runs@ == runs_inside(line@, *x_range, *y_range),
            are_runs(line@, *x_range, *y_range, line@.len(), runs@),
            pieces.len() == k,
            forall|i: int|
                0 <= i < k ==> is_piece(
                    lerp,
                    line@,
                    *x_range,
                    *y_range,
                    runs[i],
                    (#[trigger] pieces[i])@,
                ),
            all_in_area(pieces@, *x_range, *y_range),
        decreases runs.len() - k,
    {
        let run: (usize, usize) = runs[k];
        proof {
            assert forall|j: int| run.0 <= j < run.1 implies in_area(
                #[trigger] line[j],
                *x_range,
                *y_range,
            ) by {
                assert(in_run(runs@, k as int, j));
            }
        }
        let piece: Vec<Point> = cut_piece(line, run, x_range, y_range, lerp);
        pieces.push(piece);
        k += 1;
    }
    pieces
}

/// A piece keeps the points of its run unchanged and in their order: they
/// stand in it one after the other, after the entry point if it has one, and
/// besides them it holds at most the entry and the exit point.
pub proof fn lemma_piece_keeps_points<F: Fn(i64, i64, i64, i64, i64) -> i64>(
    lerp: &F,
    line: Seq<Point>,
    x_range: Range,
    y_range: Range,
    run: (usize, usize),
    piece: Seq<Point>,
)
    requires
        is_piece(lerp, line, x_range, y_range, run, piece),
        run.0 < run.1 <= line.len(),
    ensures
        run.1 - run.0 <= piece.len() <= run.1 - run.0 + 2,
        exists|d: int|
            0 <= d <= 1 && #[trigger] piece.subrange(d, d + run.1 - run.0) == line.subrange(
                run.0 as int,
                run.1 as int,
            ),
{
    let (head, tail) = choose|head: Point, tail: Point|
        {
            &&& run.0 > 0 ==> is_truncation(
                lerp,
                line[run.0 - 1],
                line[run.0 as int],
                x_range,
                y_range,
                head,
            )
            &&& run.1 < line.len() ==> is_truncation(
                lerp,
                line[run.1 as int],
                line[run.1 - 1],
                x_range,
                y_range,
                tail,
            )
            &&& piece == #[trigger] piece_of(line, run, head, tail)
        };
    let d: int = if run.0 > 0 && head != line[run.0 as int] {
        1
    } else {
        0
    };
    assert(piece.subrange(d, d + run.1 - run.0) == line.subrange(run.0 as int, run.1 as int));
}

} // verus!
