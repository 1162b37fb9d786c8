//! Data sets: the polylines of several sources, indexed by time.

use vstd::prelude::*;
use vstd::string::StringExecFns;
use crate::recording::{
    grouped, has_time, is_latest, lemma_shows_records, shown_records, Recording,
};
use crate::timeseries::{ascending, contains_time, insert_time, is_ascending, records_view};

verus! {

/// A point of a polyline: the ranks of its two coordinates.
pub type Point = (i64, i64);

/// A polyline: its points in drawing order.
pub type DataLine = Vec<Point>;

/// The rank of a point in time.
pub type Time = i64;

/// What a data set shows at one point in time: the polylines that each of
/// its sources shows at that time, in the order of the sources.
#[derive(Clone, Debug)]
pub struct DataSlice {
    pub time: Time,
    pub datalines: Vec<DataLine>,
}

/// The text of a point in an export: its two coordinates, a tab between them
/// and a line end after them.
pub open spec fn point_text(x: Seq<char>, y: Seq<char>) -> Seq<char> {
    x + "\t"@ + y + "\n"@
}

/// The text of a polyline in an export: its points, one after the other.
pub open spec fn line_text(cells: Seq<(Seq<char>, Seq<char>)>) -> Seq<char>
    decreases cells.len(),
{
    if cells.len() == 0 {
        Seq::empty()
    } else {
        line_text(cells.drop_last()) + point_text(cells.last().0, cells.last().1)
    }
}

/// The text of an export: the polylines, one after the other, each followed
/// by two empty lines.
pub open spec fn gnuplot_text(cells: Seq<Seq<(Seq<char>, Seq<char>)>>) -> Seq<char>
    decreases cells.len(),
{
    if cells.len() == 0 {
        Seq::empty()
    } else {
        gnuplot_text(cells.drop_last()) + line_text(cells.last()) + "\n\n"@
    }
}

/// Whether `text` can be what `format` has made of the coordinate.
pub open spec fn can_format<F: Fn(i64) -> String>(format: &F, v: i64, text: Seq<char>) -> bool {
    exists|s: String| format.ensures((v,), s) && #[trigger] s@ == text
}

/// Whether `cells` hold, point by point, texts that `format` can have made of
/// the coordinates of the polylines.
pub open spec fn is_formatted<F: Fn(i64) -> String>(
    format: &F,
    lines: Seq<Vec<Point>>,
    cells: Seq<Seq<(Seq<char>, Seq<char>)>>,
) -> bool {
    &&& cells.len() == lines.len()
    &&& forall|i: int| 0 <= i < lines.len() ==> (#[trigger] cells[i]).len() == lines[i]@.len()
    &&& forall|i: int, j: int|
        0 <= i < lines.len() && 0 <= j < lines[i]@.len() ==> can_format(
            format,
            lines[i]@[j].0,
            (#[trigger] cells[i][j]).0,
        ) && can_format(format, lines[i]@[j].1, cells[i][j].1)
}

/// The leftmost point of a polyline: the first of its points that no other
/// lies to the left of. The empty polyline has none.
pub open spec fn leftmost(line: Seq<Point>) -> Option<Point>
    decreases line.len(),
{
    if line.len() == 0 {
        None
    } else {
        match leftmost(line.drop_last()) {
            None => Some(line.last()),
            Some(p) => if line.last().0 < p.0 {
                Some(line.last())
            } else {
                Some(p)
            },
        }
    }
}

/// Whether a polyline with the leftmost point `a` may stand before one with
/// the leftmost point `b`: the empty polyline stands first, and of two
/// others the one whose leftmost point lies farther left or, at the same
/// position, not higher.
pub open spec fn may_precede(a: Option<Point>, b: Option<Point>) -> bool {
    match (a, b) {
        (None, _) => true,
        (Some(_), None) => false,
        (Some(p), Some(q)) => p.0 < q.0 || (p.0 == q.0 && p.1 <= q.1),
    }
}

/// The place of a polyline with the leftmost point `key` among ordered
/// polylines, looked for from `from` on: before the first that may not
/// precede it.
pub open spec fn place_among(sorted: Seq<Vec<Point>>, key: Option<Point>, from: int) -> int
    decreases sorted.len() - from,
{
    if from < 0 || from >= sorted.len() {
        sorted.len() as int
    } else if !may_precede(leftmost(sorted[from]@), key) {
        from
    } else {
        place_among(sorted, key, from + 1)
    }
}

/// The polylines in the order of their leftmost points; polylines that may
/// stand either way keep the order they had.
pub open spec fn sorted_lines(lines: Seq<Vec<Point>>) -> Seq<Vec<Point>>
    decreases lines.len(),
{
    if lines.len() == 0 {
        Seq::empty()
    } else {
        let sorted = sorted_lines(lines.drop_last());
        sorted.insert(place_among(sorted, leftmost(lines.last()@), 0), lines.last())
    }
}

/// Whether each polyline may precede every one that stands after it.
pub open spec fn ordered(lines: Seq<Vec<Point>>) -> bool {
    forall|i: int, j: int|
        0 <= i < j < lines.len() ==> may_precede(
            leftmost(#[trigger] lines[i]@),
            leftmost(#[trigger] lines[j]@),
        )
}

/// The place of a polyline lies after every polyline that may precede it
/// and, where it is a polyline's place, that polyline may not precede it.
pub proof fn lemma_place_among(sorted: Seq<Vec<Point>>, key: Option<Point>, from: int)
    requires
        0 <= from <= sorted.len(),
    ensures
        from <= place_among(sorted, key, from) <= sorted.len(),
        forall|k: int|
            from <= k < place_among(sorted, key, from) ==> may_precede(
                leftmost(#[trigger] sorted[k]@),
                key,
            ),
        place_among(sorted, key, from) < sorted.len() ==> !may_precede(
            leftmost(sorted[place_among(sorted, key, from)]@),
            key,
        ),
    decreases sorted.len() - from,
{
    if from < sorted.len() && may_precede(leftmost(sorted[from]@), key) {
        lemma_place_among(sorted, key, from + 1);
    }
}

/// Sorting orders the polylines, and neither adds nor loses one.
pub proof fn lemma_sorted_lines(lines: Seq<Vec<Point>>)
    ensures
        ordered(sorted_lines(lines)),
        sorted_lines(lines).len() == lines.len(),
        sorted_lines(lines).to_multiset() == lines.to_multiset(),
    decreases lines.len(),
{
    if lines.len() == 0 {
        assert(lines =~= Seq::<Vec<Point>>::empty());
    } else {
        let rest = lines.drop_last();
        let sorted = sorted_lines(rest);
        let line = lines.last();
        let key = leftmost(line@);
        let p = place_among(sorted, key, 0);
        let result = sorted.insert(p, line);
        lemma_sorted_lines(rest);
        lemma_place_among(sorted, key, 0);
        assert forall|i: int, j: int| 0 <= i < j < result.len() implies may_precede(
            leftmost(#[trigger] result[i]@),
            leftmost(#[trigger] result[j]@),
        ) by {
            if j < p {
                assert(result[i] == sorted[i] && result[j] == sorted[j]);
            } else if j == p {
                assert(result[i] == sorted[i]);
            } else if i == p {
                assert(result[j] == sorted[j - 1]);
                if j - 1 > p {
                    assert(may_precede(leftmost(sorted[p]@), leftmost(sorted[j - 1]@)));
                }
            } else if i < p {
                assert(result[i] == sorted[i] && result[j] == sorted[j - 1]);
            } else {
                assert(result[i] == sorted[i - 1] && result[j] == sorted[j - 1]);
            }
        }
        vstd::seq_lib::lemma_multiset_commutative(sorted.subrange(0, p).push(line), sorted.subrange(p, sorted.len() as int));
        vstd::seq_lib::lemma_multiset_commutative(sorted.subrange(0, p), sorted.subrange(p, sorted.len() as int));
        assert(sorted.subrange(0, p) + sorted.subrange(p, sorted.len() as int) =~= sorted);
        assert(result =~= sorted.subrange(0, p).push(line) + sorted.subrange(p, sorted.len() as int));
        sorted.subrange(0, p).to_multiset_ensures();
        rest.to_multiset_ensures();
        assert(rest.push(line) =~= lines);
        assert(result.to_multiset() =~= lines.to_multiset());
    }
}

/// The leftmost point of the polyline.
pub fn leftmost_point(line: &Vec<Point>) -> (p: Option<Point>)
    ensures
        p == leftmost(line@),
{
    let mut best: Option<Point> = None;
    let mut i: usize = 0;
    while i < line.len()
        invariant
            i <= line.len(),
            best == leftmost(line@.take(i as int)),
        decreases line.len() - i,
    {
        proof {
            assert(line@.take(i + 1).drop_last() == line@.take(i as int));
        }
        let q: Point = line[i];
        best = match best {
            None => Some(q),
            Some(p) => if q.0 < p.0 {
                Some(q)
            } else {
                Some(p)
            },
        };
        i += 1;
    }
    proof {
        assert(line@.take(line.len() as int) == line@);
    }
    best
}

/// Whether a polyline with the leftmost point `a` may stand before one with
/// the leftmost point `b`.
pub fn precedes(a: Option<Point>, b: Option<Point>) -> (r: bool)
    ensures
        r == may_precede(a, b),
{
    match a {
        None => true,
        Some(p) => match b {
            None => false,
            Some(q) => p.0 < q.0 || (p.0 == q.0 && p.1 <= q.1),
        },
    }
}

impl DataSlice {
    /// Orders the polylines of the slice by their leftmost points; polylines
    /// that may stand either way keep the order they have.
    pub fn sort(&mut self)
        ensures
            final(self).time == old(self).time,
            final(self).datalines@ == sorted_lines(old(self).datalines@),
    {
        let mut lines: Vec<DataLine> = Vec::new();
        core::mem::swap(&mut self.datalines, &mut lines);
        let ghost all = lines@;
        for line in it: lines
            invariant
                it.seq() == all,
                self.time == old(self).time,
                self.datalines@ == sorted_lines(all.take(it.index() as int)),
        {
            proof {
                assert(all.take(it.index() + 1).drop_last() == all.take(it.index() as int));
            }
            let key: Option<Point> = leftmost_point(&line);
            let mut p: usize = 0;
            while p < self.datalines.len() && precedes(leftmost_point(&self.datalines[p]), key)
                invariant
                    p <= self.datalines.len(),
                    place_among(self.datalines@, key, 0) == place_among(
                        self.datalines@,
                        key,
                        p as int,
                    ),
                decreases self.datalines.len() - p,
            {
                p += 1;
            }
            self.datalines.insert(p, line);
        }
        proof {
            assert(all.take(all.len() as int) == all);
        }
    }

    /// The slice as text, for other programs to read: a line for each point,
    /// with the two coordinates as `format` writes them and a tab between
    /// them, and two empty lines after each polyline.
    pub fn to_string_gnuplot<F: Fn(i64) -> String>(&self, format: &F) -> (text: String)
        requires
            forall|v: i64| #[trigger] format.requires((v,)),
        ensures
            exists|cells: Seq<Seq<(Seq<char>, Seq<char>)>>|
                is_formatted(format, self.datalines@, cells) && text@ == #[trigger] gnuplot_text(
                    cells,
                ),
    {
        let mut text: String = String::new();
        let ghost mut cells: Seq<Seq<(Seq<char>, Seq<char>)>> = Seq::empty();
        let mut i: usize = 0;
        while i < self.datalines.len()
            invariant
                i <= self.datalines.len(),
                forall|v: i64| #[trigger] format.requires((v,)),
                is_formatted(format, self.datalines@.take(i as int), cells),
                text@ == gnuplot_text(cells),
            decreases self.datalines.len() - i,
        {
            let line: &Vec<Point> = &self.datalines[i];
            let ghost before = text@;
            let ghost mut row: Seq<(Seq<char>, Seq<char>)> = Seq::empty();
            let mut j: usize = 0;
            while j < line.len()
                invariant
                    j <= line.len(),
                    forall|v: i64| #[trigger] format.requires((v,)),
                    row.len() == j,
                    forall|k: int|
                        0 <= k < j ==> can_format(format, line@[k].0, (#[trigger] row[k]).0)
                            && can_format(format, line@[k].1, row[k].1),
                    text@ == before + line_text(row),
                decreases line.len() - j,
            {
                let x: String = format(line[j].0);
                let y: String = format(line[j].1);
                let ghost start = text@;
                text.append(x.as_str());
                text.append("\t");
                text.append(y.as_str());
                text.append("\n");
                proof {
                    let grown = row.push((x@, y@));
                    assert(grown.drop_last() == row);
                    assert(text@ =~= start + point_text(x@, y@));
                    assert(text@ =~= before + line_text(grown));
                    assert(can_format(format, line@[j as int].0, x@));
                    assert(can_format(format, line@[j as int].1, y@));
                    row = grown;
                }
                j += 1;
            }
            text.append("\n\n");
            proof {
                let grown = cells.push(row);
                assert(grown.drop_last() == cells);
                assert(text@ =~= gnuplot_text(grown));
                let lines = self.datalines@.take(i + 1);
                assert forall|a: int| 0 <= a < lines.len() implies (#[trigger] grown[a]).len()
                    == lines[a]@.len() by {
                    if a < i {
                        assert(grown[a] == cells[a]);
                        assert(lines[a] == self.datalines@.take(i as int)[a]);
                    }
                }
                assert forall|a: int, b: int|
                    0 <= a < lines.len() && 0 <= b < lines[a]@.len() implies can_format(
                    format,
                    lines[a]@[b].0,
                    (#[trigger] grown[a][b]).0,
                ) && can_format(format, lines[a]@[b].1, grown[a][b].1) by {
                    if a < i {
                        assert(grown[a] == cells[a]);
                        assert(lines[a] == self.datalines@.take(i as int)[a]);
                        assert(can_format(format, lines[a]@[b].0, cells[a][b].0));
                    }
                }
                cells = grown;
            }
            i += 1;
        }
        proof {
            assert(self.datalines@.take(self.datalines.len() as int) == self.datalines@);
        }
        text
    }

    /// A copy of the slice.
    pub fn copy(&self) -> (slice: DataSlice)
        ensures
            slice.time == self.time,
            lines_view(slice.datalines@) == lines_view(self.datalines@),
    {
        let mut datalines: Vec<DataLine> = Vec::new();
        let mut i: usize = 0;
        while i < self.datalines.len()
            invariant
                i <= self.datalines.len(),
                datalines.len() == i,
                forall|k: int| 0 <= k < i ==> (#[trigger] datalines[k])@ == self.datalines[k]@,
            decreases self.datalines.len() - i,
        {
            datalines.push(copy_line(&self.datalines[i]));
            i += 1;
        }
        assert(lines_view(datalines@) =~= lines_view(self.datalines@));
        DataSlice { time: self.time, datalines }
    }
}

/// Why a source gave nothing.
#[derive(Debug, Clone, Copy, PartialEq, Eq)]
pub enum ParseError {
    /// No time marker was found in the source.
    NoTimestamps,
}

/// Says that a source held no data: no time marker was found in it.
#[derive(Debug)]
pub struct DatafileReadError {
    filename: String,
}

impl DatafileReadError {
    /// The error for the source of the given name.
    pub fn new(filename: String) -> (e: DatafileReadError)
        ensures
            e.filename() == filename@,
    {
        DatafileReadError { filename }
    }

    /// The name of the source that was rejected.
    pub closed spec fn filename(&self) -> Seq<char> {
        self.filename@
    }

    /// The text of the error's message.
    pub open spec fn message_text(&self) -> Seq<char> {
        "Not a valid datafile: "@ + self.filename()
    }

    /// The message, as it is shown to a user.
    pub fn message(&self) -> (text: String)
        ensures
            text@ == self.message_text(),
    {
        let mut text = String::from_str("Not a valid datafile: ");
        text.append(self.filename.as_str());
        text
    }
}

/// A source as it was read: its name, and its records in the order in which
/// they stand in it, each a time and the polyline that follows its marker.
pub type Source = (String, Vec<(Time, DataLine)>);

/// The polylines as sequences of points.
pub open spec fn lines_view(lines: Seq<Vec<Point>>) -> Seq<Seq<Point>> {
    Seq::new(lines.len(), |i: int| lines[i]@)
}

/// Whether one of the recordings has the time among its times.
pub open spec fn recorded(series: Seq<Recording>, t: Time) -> bool {
    recorded_before(series, series.len() as int, 0, t)
}

/// Whether `t` is among the times of the recordings before the one of index `k`,
/// or among the first `i` times of that one.
pub open spec fn recorded_before(series: Seq<Recording>, k: int, i: int, t: Time) -> bool {
    exists|a: int, b: int|
        0 <= a < series.len() && 0 <= b < series[a].times.len() && (a < k || (a == k && b < i))
            && #[trigger] series[a].times[b] == t
}

/// The polylines that the recordings show at a time: for each recording in
/// its turn, all the polylines that it shows at that time.
pub open spec fn slice_lines(series: Seq<Recording>, t: Time) -> Seq<Seq<Point>>
    decreases series.len(),
{
    if series.len() == 0 {
        Seq::empty()
    } else {
        slice_lines(series.drop_last(), t) + series.last().valid_at(t)
    }
}

/// The indices of the sources that hold a record, in their order.
pub open spec fn kept_sources(sources: Seq<Source>) -> Seq<int>
    decreases sources.len(),
{
    if sources.len() == 0 {
        Seq::empty()
    } else if sources.last().1.len() > 0 {
        kept_sources(sources.drop_last()).push(sources.len() - 1)
    } else {
        kept_sources(sources.drop_last())
    }
}

/// The indices of the sources that hold no record, in their order.
pub open spec fn dropped_sources(sources: Seq<Source>) -> Seq<int>
    decreases sources.len(),
{
    if sources.len() == 0 {
        Seq::empty()
    } else if sources.last().1.len() > 0 {
        dropped_sources(sources.drop_last())
    } else {
        dropped_sources(sources.drop_last()).push(sources.len() - 1)
    }
}

/// Whether the recordings, with their names beside them, are those of the
/// sources that hold a record, in the order of the sources: each well
/// formed, and each holding under every time all the polylines that the
/// records of its source have for that time, in their order.
pub open spec fn are_kept(sources: Seq<Source>, series: Seq<Recording>, names: Seq<String>) -> bool {
    &&& series.len() == kept_sources(sources).len()
    &&& names.len() == series.len()
    &&& forall|k: int|
        0 <= k < series.len() ==> 0 <= #[trigger] kept_sources(sources)[k] < sources.len()
    &&& forall|k: int| 0 <= k < series.len() ==> (#[trigger] series[k]).wf()
    &&& forall|k: int|
        0 <= k < series.len() ==> (#[trigger] series[k])@ == grouped(
            records_view(sources[kept_sources(sources)[k]].1@),
        )
    &&& forall|k: int|
        0 <= k < series.len() ==> (#[trigger] names[k])@ == sources[kept_sources(sources)[k]].0@
}

/// The polylines that the sources show at a time: for each source in its
/// turn, all the polylines that stand in it under the latest of its times
/// that is not after the given one, in the order in which they stand in it,
/// and none of another time. A source gives nothing where it has no such
/// time, or no time that is not before the given one.
pub open spec fn shown_sources(sources: Seq<Source>, t: Time) -> Seq<Seq<Point>>
    decreases sources.len(),
{
    if sources.len() == 0 {
        Seq::empty()
    } else {
        shown_sources(sources.drop_last(), t) + shown_records(records_view(sources.last().1@), t)
    }
}

/// The recordings of sources show at every time what the sources show.
pub proof fn lemma_slice_of_sources(
    sources: Seq<Source>,
    series: Seq<Recording>,
    names: Seq<String>,
    t: Time,
)
    requires
        are_kept(sources, series, names),
    ensures
        slice_lines(series, t) == shown_sources(sources, t),
    decreases sources.len(),
{
    if sources.len() > 0 {
        let rest = sources.drop_last();
        let last = sources.last();
        let records = records_view(last.1@);
        if last.1.len() > 0 {
            let n = series.len() - 1;
            assert(kept_sources(sources) == kept_sources(rest).push(sources.len() - 1));
            assert(kept_sources(sources)[n] == sources.len() - 1);
            assert(are_kept(rest, series.drop_last(), names.drop_last())) by {
                assert forall|k: int| 0 <= k < n implies kept_sources(rest)[k] == kept_sources(
                    sources,
                )[k] && series.drop_last()[k] == series[k] && names.drop_last()[k]
                    == names[k] by {}
                assert forall|k: int| 0 <= k < n implies 0 <= #[trigger] kept_sources(rest)[k]
                    < rest.len() by {
                    lemma_kept_in_order(rest, k);
                }
                assert forall|k: int| 0 <= k < n implies (#[trigger] series.drop_last()[k])@
                    == grouped(records_view(rest[kept_sources(rest)[k]].1@)) by {
                    lemma_kept_in_order(rest, k);
                    assert(series[k]@ == grouped(
                        records_view(sources[kept_sources(sources)[k]].1@),
                    ));
                }
                assert forall|k: int| 0 <= k < n implies (#[trigger] names.drop_last()[k])@
                    == rest[kept_sources(rest)[k]].0@ by {
                    lemma_kept_in_order(rest, k);
                    assert(names[k]@ == sources[kept_sources(sources)[k]].0@);
                }
                assert forall|k: int| 0 <= k < n implies (#[trigger] series.drop_last()[k]).wf() by {
                    assert(series[k].wf());
                }
            }
            lemma_slice_of_sources(rest, series.drop_last(), names.drop_last(), t);
            assert(series.last()@ == grouped(records));
            lemma_shows_records(series.last(), records, t);
        } else {
            assert(kept_sources(sources) == kept_sources(rest));
            assert(are_kept(rest, series, names)) by {
                assert forall|k: int| 0 <= k < series.len() implies 0 <= #[trigger] kept_sources(
                    rest,
                )[k] < rest.len() by {
                    lemma_kept_in_order(rest, k);
                }
                assert forall|k: int| 0 <= k < series.len() implies (#[trigger] series[k])@
                    == grouped(records_view(rest[kept_sources(rest)[k]].1@)) by {
                    lemma_kept_in_order(rest, k);
                }
                assert forall|k: int| 0 <= k < series.len() implies (#[trigger] names[k])@
                    == rest[kept_sources(rest)[k]].0@ by {
                    lemma_kept_in_order(rest, k);
                }
            }
            lemma_slice_of_sources(rest, series, names, t);
            assert(records.len() == 0);
            assert(shown_records(records, t) == Seq::<Seq<Point>>::empty()) by {
                if exists|u: Time| is_latest(records, t, u) {
                    let u = choose|u: Time| is_latest(records, t, u);
                    assert(has_time(records, u));
                }
            }
            assert(shown_sources(rest, t) + Seq::<Seq<Point>>::empty() =~= shown_sources(rest, t));
        }
    } else {
        assert(series.len() == 0);
    }
}

/// The sources that are kept are sources, each after the ones before it.
pub proof fn lemma_kept_in_order(sources: Seq<Source>, k: int)
    requires
        0 <= k < kept_sources(sources).len(),
    ensures
        0 <= kept_sources(sources)[k] < sources.len(),
        sources[kept_sources(sources)[k]].1.len() > 0,
    decreases sources.len(),
{
    if sources.len() > 0 {
        let rest = sources.drop_last();
        if k < kept_sources(rest).len() {
            lemma_kept_in_order(rest, k);
        }
    }
}

/// Whether the errors name the sources that hold no record, in the order of
/// the sources.
pub open spec fn are_dropped(sources: Seq<Source>, rejected: Seq<DatafileReadError>) -> bool {
    &&& rejected.len() == dropped_sources(sources).len()
    &&& forall|k: int|
        0 <= k < rejected.len() ==> 0 <= #[trigger] dropped_sources(sources)[k] < sources.len()
    &&& forall|k: int|
        0 <= k < rejected.len() ==> (#[trigger] rejected[k]).filename()
            == sources[dropped_sources(sources)[k]].0@
}

/// Whether the two lists hold the same times in the same order.
pub fn same_times(a: &Vec<Time>, b: &Vec<Time>) -> (r: bool)
    ensures
        r == (a@ == b@),
{
    if a.len() != b.len() {
        return false;
    }
    let mut i: usize = 0;
    while i < a.len()
        invariant
            i <= a.len(),
            a.len() == b.len(),
            forall|k: int| 0 <= k < i ==> a[k] == b[k],
        decreases a.len() - i,
    {
        if a[i] != b[i] {
            return false;
        }
        i += 1;
    }
    assert(a@ =~= b@);
    true
}

/// Whether the two polylines hold the same points in the same order.
pub fn same_line(a: &Vec<Point>, b: &Vec<Point>) -> (r: bool)
    ensures
        r == (a@ == b@),
{
    if a.len() != b.len() {
        return false;
    }
    let mut i: usize = 0;
    while i < a.len()
        invariant
            i <= a.len(),
            a.len() == b.len(),
            forall|k: int| 0 <= k < i ==> a[k] == b[k],
        decreases a.len() - i,
    {
        if a[i].0 != b[i].0 || a[i].1 != b[i].1 {
            return false;
        }
        i += 1;
    }
    assert(a@ =~= b@);
    true
}

/// Whether the two lists hold the same polylines in the same order.
pub fn same_lines(a: &Vec<DataLine>, b: &Vec<DataLine>) -> (r: bool)
    ensures
        r == (lines_view(a@) == lines_view(b@)),
{
    if a.len() != b.len() {
        assert(lines_view(a@).len() != lines_view(b@).len());
        return false;
    }
    let mut i: usize = 0;
    while i < a.len()
        invariant
            i <= a.len(),
            a.len() == b.len(),
            forall|k: int| 0 <= k < i ==> (#[trigger] a[k])@ == b[k]@,
        decreases a.len() - i,
    {
        if !same_line(&a[i], &b[i]) {
            assert(lines_view(a@)[i as int] != lines_view(b@)[i as int]);
            return false;
        }
        i += 1;
    }
    assert(lines_view(a@) =~= lines_view(b@));
    true
}

/// A copy of the polyline.
pub fn copy_line(line: &Vec<Point>) -> (copy: Vec<Point>)
    ensures
        copy@ == line@,
{
    let mut copy: Vec<Point> = Vec::new();
    let mut i: usize = 0;
    while i < line.len()
        invariant
            i <= line.len(),
            copy@ == line@.take(i as int),
        decreases line.len() - i,
    {
        copy.push(line[i]);
        i += 1;
    }
    assert(line@.take(line.len() as int) == line@);
    copy
}

/// A data set: the recordings of its sources, and every time that one of
/// them records.
#[derive(Debug, Clone)]
pub struct Data {
    /// The recordings, one for each source, in the order of the sources.
    pub series: Vec<Recording>,
    /// The names of the sources, beside their recordings.
    pub names: Vec<String>,
    /// Every time that a source records, once, in ascending order.
    pub all_times: Vec<Time>,
    /// The earliest of the times, or 0 where there is none.
    pub start_time: Time,
    /// The latest of the times, or 0 where there is none.
    pub end_time: Time,
}

impl Data {
    /// Whether the data set is well formed: each recording is, each has its
    /// name, and the times are those of the recordings, ascending, between the
    /// start and the end of the set.
    pub open spec fn wf(&self) -> bool {
        &&& self.names.len() == self.series.len()
        &&& forall|k: int| 0 <= k < self.series.len() ==> (#[trigger] self.series[k]).wf()
        &&& ascending(self.all_times@)
        &&& forall|t: Time| self.all_times@.contains(t) <==> recorded(self.series@, t)
        &&& self.all_times.len() > 0 ==> self.start_time == self.all_times[0] && self.end_time
            == self.all_times[self.all_times.len() - 1]
        &&& self.all_times.len() == 0 ==> self.start_time == 0 && self.end_time == 0
    }

    /// Whether the data set is well formed.
    pub fn check(&self) -> (r: bool)
        ensures
            r == self.wf(),
    {
        if self.names.len() != self.series.len() || !is_ascending(&self.all_times) {
            return false;
        }
        let mut k: usize = 0;
        while k < self.series.len()
            invariant
                k <= self.series.len(),
                ascending(self.all_times@),
                forall|a: int| 0 <= a < k ==> (#[trigger] self.series[a]).wf(),
                forall|a: int, b: int|
                    0 <= a < k && 0 <= b < self.series[a].times.len() ==> self.all_times@.contains(
                        #[trigger] self.series[a].times[b],
                    ),
            decreases self.series.len() - k,
        {
            if !self.series[k].check() {
                return false;
            }
            let times: &Vec<Time> = &self.series[k].times;
            let mut i: usize = 0;
            while i < times.len()
                invariant
                    k < self.series.len(),
                    i <= times.len(),
                    times == &self.series[k as int].times,
                    ascending(self.all_times@),
                    forall|b: int| 0 <= b < i ==> self.all_times@.contains(#[trigger] times[b]),
                decreases times.len() - i,
            {
                if !contains_time(&self.all_times, times[i]) {
                    proof {
                        let t = times[i as int];
                        assert(self.series[k as int].times[i as int] == t);
                        assert(recorded(self.series@, t));
                    }
                    return false;
                }
                i += 1;
            }
            k += 1;
        }
        let mut j: usize = 0;
        while j < self.all_times.len()
            invariant
                j <= self.all_times.len(),
                forall|a: int| 0 <= a < self.series.len() ==> (#[trigger] self.series[a]).wf(),
                forall|c: int| 0 <= c < j ==> recorded(self.series@, #[trigger] self.all_times[c]),
            decreases self.all_times.len() - j,
        {
            let t: Time = self.all_times[j];
            let mut found: bool = false;
            let mut a: usize = 0;
            while a < self.series.len()
                invariant
                    a <= self.series.len(),
                    forall|a: int| 0 <= a < self.series.len() ==> (#[trigger] self.series[a]).wf(),
                    found ==> recorded(self.series@, t),
                    !found ==> forall|c: int, b: int|
                        0 <= c < a && 0 <= b < self.series[c].times.len()
                            ==> #[trigger] self.series[c].times[b] != t,
                decreases self.series.len() - a,
            {
                if contains_time(&self.series[a].times, t) {
                    proof {
                        let b = self.series[a as int].times@.index_of(t);
                        assert(self.series[a as int].times[b] == t);
                    }
                    found = true;
                }
                a += 1;
            }
            if !found {
                proof {
                    assert(self.all_times@.contains(t));
                    assert(!recorded(self.series@, t));
                }
                return false;
            }
            j += 1;
        }
        proof {
            assert forall|t: Time| self.all_times@.contains(t) <==> recorded(
                self.series@,
                t,
            ) by {
                if self.all_times@.contains(t) {
                    let c = self.all_times@.index_of(t);
                    assert(recorded(self.series@, self.all_times[c]));
                }
                if recorded(self.series@, t) {
                    let (a, b) = choose|a: int, b: int|
                        0 <= a < self.series.len() && 0 <= b < self.series[a].times.len() && (a
                            < self.series.len() || (a == self.series.len() && b < 0))
                            && #[trigger] self.series[a].times[b] == t;
                    assert(self.all_times@.contains(self.series[a].times[b]));
                }
            }
        }
        if self.all_times.len() > 0 {
            self.start_time == self.all_times[0] && self.end_time == self.all_times[
                self.all_times.len() - 1
            ]
        } else {
            self.start_time == 0 && self.end_time == 0
        }
    }

    /// Whether the data set holds nothing.
    pub open spec fn is_empty(&self) -> bool {
        self.series.len() == 0
    }

    /// Whether the data set holds a recording.
    pub fn has_series(&self) -> (r: bool)
        ensures
            r == !self.is_empty(),
    {
        self.series.len() > 0
    }

    /// The data set without a source.
    pub fn new() -> (data: Data)
        ensures
            data.wf(),
            data.is_empty(),
            data.all_times.len() == 0,
    {
        let data = Data {
            series: Vec::new(),
            names: Vec::new(),
            all_times: Vec::new(),
            start_time: 0,
            end_time: 0,
        };
        assert forall|t: Time| !recorded(data.series@, t) by {}
        data
    }

    /// The data set of the given recordings, each with the name of its source.
    pub fn from_series(series: Vec<Recording>, names: Vec<String>) -> (data: Data)
        requires
            names.len() == series.len(),
            forall|k: int| 0 <= k < series.len() ==> (#[trigger] series[k]).wf(),
        ensures
            data.wf(),
            data.series == series,
            data.names == names,
    {
        let mut all_times: Vec<Time> = Vec::new();
        let mut k: usize = 0;
        while k < series.len()
            invariant
                k <= series.len(),
                ascending(all_times@),
                forall|t: Time| all_times@.contains(t) <==> recorded_before(series@, k as int, 0, t),
            decreases series.len() - k,
        {
            let times: &Vec<Time> = &series[k].times;
            let mut i: usize = 0;
            while i < times.len()
                invariant
                    k < series.len(),
                    i <= times.len(),
                    times == &series[k as int].times,
                    ascending(all_times@),
                    forall|t: Time|
                        all_times@.contains(t) <==> recorded_before(
                            series@,
                            k as int,
                            i as int,
                            t,
                        ),
                decreases times.len() - i,
            {
                let ghost before = all_times@;
                insert_time(&mut all_times, times[i]);
                proof {
                    assert forall|t: Time| all_times@.contains(t) <==> recorded_before(
                        series@,
                        k as int,
                        i + 1,
                        t,
                    ) by {
                        if recorded_before(series@, k as int, i + 1, t) {
                            let (a, b) = choose|a: int, b: int|
                                0 <= a < series.len() && 0 <= b < series[a].times.len() && (a < k
                                    || (a == k && b < i + 1)) && #[trigger] series[a].times[b]
                                    == t;
                            if !(a == k && b == i) {
                                assert(recorded_before(series@, k as int, i as int, t));
                            }
                        }
                        if before.contains(t) {
                            assert(recorded_before(series@, k as int, i as int, t));
                            let (a, b) = choose|a: int, b: int|
                                0 <= a < series.len() && 0 <= b < series[a].times.len() && (a < k
                                    || (a == k && b < i)) && #[trigger] series[a].times[b] == t;
                            assert(series[a].times[b] == t);
                        }
                        if t == times[i as int] {
                            assert(series[k as int].times[i as int] == t);
                        }
                    }
                }
                i += 1;
            }
            proof {
                assert forall|t: Time| all_times@.contains(t) <==> recorded_before(
                    series@,
                    k + 1,
                    0,
                    t,
                ) by {
                    if recorded_before(series@, k + 1, 0, t) {
                        let (a, b) = choose|a: int, b: int|
                            0 <= a < series.len() && 0 <= b < series[a].times.len() && (a < k + 1
                                || (a == k + 1 && b < 0)) && #[trigger] series[a].times[b] == t;
                        assert(series[a].times[b] == t);
                        assert(recorded_before(series@, k as int, i as int, t));
                    }
                    if recorded_before(series@, k as int, i as int, t) {
                        let (a, b) = choose|a: int, b: int|
                            0 <= a < series.len() && 0 <= b < series[a].times.len() && (a < k || (a
                                == k && b < i)) && #[trigger] series[a].times[b] == t;
                        assert(series[a].times[b] == t);
                    }
                }
            }
            k += 1;
        }
        let mut start_time: Time = 0;
        let mut end_time: Time = 0;
        if all_times.len() > 0 {
            start_time = all_times[0];
            end_time = all_times[all_times.len() - 1];
        }
        Data { series, names, all_times, start_time, end_time }
    }

    /// The data set of the given sources. Each source gives a recording,
    /// which holds every polyline of the source under its time: several
    /// polylines of one time stay together, and none takes the place of
    /// another. A source without a record gives none: it is left out and
    /// named in the second part of the result. Where no source is left there
    /// is no data set.
    pub fn from_sources(sources: Vec<Source>) -> (loaded: (Option<Data>, Vec<DatafileReadError>))
        ensures
            loaded.0 is None <==> kept_sources(sources@).len() == 0,
            loaded.0 matches Some(data) ==> data.wf() && are_kept(
                sources@,
                data.series@,
                data.names@,
            ),
            loaded.0 matches Some(data) ==> forall|t: Time| #[trigger]
                slice_lines(data.series@, t) == shown_sources(sources@, t),
            are_dropped(sources@, loaded.1@),
    {
        let ghost all = sources@;
        let mut series: Vec<Recording> = Vec::new();
        let mut names: Vec<String> = Vec::new();
        let mut rejected: Vec<DatafileReadError> = Vec::new();
        let ghost mut n: int = 0;
        for source in it: sources
            invariant
                it.seq() == all,
                n == it.index(),
                0 <= n <= all.len(),
                series.len() == names.len(),
                are_kept(all.take(n), series@, names@),
                are_dropped(all.take(n), rejected@),
        {
            proof {
                assert(all.take(n + 1).drop_last() == all.take(n));
                assert(all.take(n + 1).last() == source);
                assert forall|j: int| 0 <= j < n implies all.take(n)[j] == all.take(n + 1)[j] by {}
            }
            match Recording::from_records(source.1) {
                Ok(one) => {
                    series.push(one);
                    names.push(source.0);
                },
                Err(_) => {
                    rejected.push(DatafileReadError::new(source.0));
                },
            }
            proof {
                n = n + 1;
            }
        }
        proof {
            assert(all.take(n) == all);
        }
        if series.len() == 0 {
            (None, rejected)
        } else {
            proof {
                assert forall|t: Time| #[trigger]
                    slice_lines(series@, t) == shown_sources(all, t) by {
                    lemma_slice_of_sources(all, series@, names@, t);
                }
            }
            (Some(Data::from_series(series, names)), rejected)
        }
    }

    /// What the data set shows at a time: for each source in its turn, the
    /// polylines that stand in it under the latest of its times that is not
    /// after the given one, all of them, in their order, and none of another
    /// time. A source whose times do not reach the given time gives nothing.
    pub fn at_time(&self, time: Time) -> (slice: DataSlice)
        requires
            self.wf(),
        ensures
            slice.time == time,
            lines_view(slice.datalines@) == slice_lines(self.series@, time),
    {
        let mut datalines: Vec<DataLine> = Vec::new();
        let mut k: usize = 0;
        proof {
            assert(lines_view(datalines@) =~= slice_lines(self.series@.take(0), time));
        }
        while k < self.series.len()
            invariant
                k <= self.series.len(),
                self.wf(),
                lines_view(datalines@) == slice_lines(self.series@.take(k as int), time),
            decreases self.series.len() - k,
        {
            proof {
                assert(self.series@.take(k + 1).drop_last() == self.series@.take(k as int));
            }
            let ghost before = lines_view(datalines@);
            match self.series[k].at_time(time) {
                Some(group) => {
                    let mut j: usize = 0;
                    while j < group.len()
                        invariant
                            j <= group.len(),
                            lines_view(datalines@) == before + lines_view(group@).take(j as int),
                        decreases group.len() - j,
                    {
                        let ghost was = lines_view(datalines@);
                        datalines.push(copy_line(&group[j]));
                        proof {
                            assert(lines_view(datalines@) =~= was.push(group[j as int]@));
                            assert(lines_view(group@).take(j + 1) =~= lines_view(group@).take(
                                j as int,
                            ).push(group[j as int]@));
                        }
                        j += 1;
                    }
                    proof {
                        assert(lines_view(group@).take(group.len() as int) =~= lines_view(group@));
                    }
                },
                None => {
                    proof {
                        assert(before + Seq::<Seq<Point>>::empty() =~= before);
                    }
                },
            }
            k += 1;
        }
        proof {
            assert(self.series@.take(self.series.len() as int) == self.series@);
        }
        DataSlice { time, datalines }
    }

    /// Every time that a series records, once, in ascending order.
    pub fn times(&self) -> (times: Vec<Time>)
        ensures
            times@ == self.all_times@,
    {
        let mut times: Vec<Time> = Vec::new();
        let mut i: usize = 0;
        while i < self.all_times.len()
            invariant
                i <= self.all_times.len(),
                times@ == self.all_times@.take(i as int),
            decreases self.all_times.len() - i,
        {
            times.push(self.all_times[i]);
            i += 1;
        }
        assert(self.all_times@.take(self.all_times.len() as int) == self.all_times@);
        times
    }
}

} // verus!
