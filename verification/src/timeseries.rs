//! One source of data: its polylines, ordered by the time they are valid at.

use vstd::prelude::*;
use crate::data::{DataLine, ParseError, Point, Time};

verus! {

/// Whether each time is later than the one before it.
pub open spec fn ascending(times: Seq<Time>) -> bool {
    forall|i: int, j: int| 0 <= i < j < times.len() ==> times[i] < times[j]
}

/// Whether `times[i]` is the latest of the times that is not after `t`.
pub open spec fn is_floor(times: Seq<Time>, t: Time, i: int) -> bool {
    &&& 0 <= i < times.len()
    &&& times[i] <= t
    &&& i + 1 < times.len() ==> t < times[i + 1]
}

/// The polyline of each time, for times and polylines that are listed side by
/// side.
pub open spec fn series_map(times: Seq<Time>, lines: Seq<Vec<Point>>) -> Map<Time, Seq<Point>> {
    Map::new(|t: Time| times.contains(t), |t: Time| lines[times.index_of(t)]@)
}

/// The polyline that a source's records give each time: where several
/// records have the same time, the last of them counts.
pub open spec fn record_map(records: Seq<(Time, Seq<Point>)>) -> Map<Time, Seq<Point>>
    decreases records.len(),
{
    if records.len() == 0 {
        Map::empty()
    } else {
        record_map(records.drop_last()).insert(records.last().0, records.last().1)
    }
}

/// The records as times and sequences of points.
pub open spec fn records_view(records: Seq<(Time, Vec<Point>)>) -> Seq<(Time, Seq<Point>)> {
    Seq::new(records.len(), |i: int| (records[i].0, records[i].1@))
}

/// Among ascending times the floor of a time is unique.
pub proof fn lemma_floor_unique(times: Seq<Time>, t: Time, i: int, j: int)
    requires
        ascending(times),
        is_floor(times, t, i),
        is_floor(times, t, j),
    ensures
        i == j,
{
    if i < j {
        assert(i + 1 <= j);
        if i + 1 < j {
            assert(times[i + 1] < times[j]);
        }
    } else if j < i {
        assert(j + 1 <= i);
        if j + 1 < i {
            assert(times[j + 1] < times[i]);
        }
    }
}

/// Side by side, ascending times and their polylines map each listed time to
/// the polyline beside it, and no other time to anything.
pub proof fn lemma_series_map(times: Seq<Time>, lines: Seq<Vec<Point>>)
    requires
        ascending(times),
        times.len() == lines.len(),
    ensures
        forall|i: int|
            0 <= i < times.len() ==> series_map(times, lines).dom().contains(#[trigger] times[i])
                && series_map(times, lines)[times[i]] == lines[i]@,
        forall|t: Time|
            series_map(times, lines).dom().contains(t) ==> 0 <= times.index_of(t) < times.len()
                && times[times.index_of(t)] == t,
{
    assert forall|i: int| 0 <= i < times.len() implies series_map(times, lines).dom().contains(
        #[trigger] times[i],
    ) && series_map(times, lines)[times[i]] == lines[i]@ by {
        let t = times[i];
        assert(times.contains(t));
        let k = times.index_of(t);
        assert(0 <= k < times.len() && times[k] == t);
        if k < i {
            assert(times[k] < times[i]);
        } else if i < k {
            assert(times[i] < times[k]);
        }
    }
}

/// The latest of the times that is not after `t`: the index of that time, or
/// `None` where every time is after `t`.
pub fn floor_step(times: &Vec<Time>, t: Time) -> (r: Option<usize>)
    requires
        ascending(times@),
    ensures
        r is None <==> times.len() == 0 || t < times[0],
        r matches Some(i) ==> is_floor(times@, t, i as int),
{
    let mut i: usize = times.len();
    while i > 0
        invariant
            i <= times.len(),
            ascending(times@),
            forall|k: int| i <= k < times.len() ==> t < times[k],
        decreases i,
    {
        if times[i - 1] <= t {
            assert(times.len() > 0 && times[0] <= times[i - 1]);
            return Some(i - 1);
        }
        i -= 1;
    }
    None
}

/// The index of the latest of the times that is not after `t`, where there is
/// one.
pub open spec fn floor_index(times: Seq<Time>, t: Time) -> int {
    choose|i: int| is_floor(times, t, i)
}

/// Whether each time is later than the one before it.
pub fn is_ascending(times: &Vec<Time>) -> (r: bool)
    ensures
        r == ascending(times@),
{
    let mut k: usize = 1;
    while k < times.len()
        invariant
            1 <= k,
            forall|i: int, j: int| 0 <= i < j < k && j < times.len() ==> times[i] < times[j],
        decreases times.len() - k,
    {
        if times[k - 1] >= times[k] {
            return false;
        }
        assert forall|i: int, j: int| 0 <= i < j < k + 1 && j < times.len() implies times[i]
            < times[j] by {
            if j == k && i < k - 1 {
                assert(times[i] < times[k - 1]);
            }
        }
        k += 1;
    }
    true
}

/// Whether the time is among the ascending times.
pub fn contains_time(times: &Vec<Time>, t: Time) -> (r: bool)
    requires
        ascending(times@),
    ensures
        r == times@.contains(t),
{
    match floor_step(times, t) {
        Some(i) => {
            if times[i] == t {
                true
            } else {
                assert forall|k: int| 0 <= k < times.len() implies times[k] != t by {
                    if k < i {
                        assert(times[k] < times[i as int]);
                    } else if k > i {
                        if k > i + 1 {
                            assert(times[i + 1] < times[k]);
                        }
                    }
                }
                false
            }
        },
        None => {
            assert forall|k: int| 0 <= k < times.len() implies times[k] != t by {
                if k > 0 {
                    assert(times[0] < times[k]);
                }
            }
            false
        },
    }
}

/// The number of times that are before `t`: the place of `t` among them.
pub fn place_of(times: &Vec<Time>, t: Time) -> (p: usize)
    requires
        ascending(times@),
    ensures
        p <= times.len(),
        forall|k: int| 0 <= k < p ==> times[k] < t,
        forall|k: int| p <= k < times.len() ==> t <= times[k],
{
    let mut p: usize = 0;
    while p < times.len() && times[p] < t
        invariant
            p <= times.len(),
            forall|k: int| 0 <= k < p ==> times[k] < t,
        decreases times.len() - p,
    {
        p += 1;
    }
    assert forall|k: int| p <= k < times.len() implies t <= times[k] by {
        if p < k {
            assert(times[p as int] < times[k]);
        }
    }
    p
}

/// Replacing the polyline beside a time replaces what the time maps to.
proof fn lemma_map_after_set(
    times: Seq<Time>,
    lines: Seq<Vec<Point>>,
    p: int,
    line: Vec<Point>,
)
    requires
        ascending(times),
        times.len() == lines.len(),
        0 <= p < times.len(),
    ensures
        series_map(times, lines.update(p, line)) == series_map(times, lines).insert(
            times[p],
            line@,
        ),
{
    let new_lines = lines.update(p, line);
    lemma_series_map(times, lines);
    lemma_series_map(times, new_lines);
    let new_map = series_map(times, new_lines);
    let want = series_map(times, lines).insert(times[p], line@);
    assert forall|u: Time| new_map.dom().contains(u) implies new_map[u] == want[u] by {
        let k = times.index_of(u);
        assert(times[k] == u);
        if k != p {
            assert(new_lines[k] == lines[k]);
            if k < p {
                assert(times[k] < times[p]);
            } else {
                assert(times[p] < times[k]);
            }
        }
    }
    assert(new_map =~= want);
}

/// Entering a new time in its place, with its polyline beside it, keeps the
/// times ascending and adds the time to what is mapped.
proof fn lemma_map_after_insert(
    times: Seq<Time>,
    lines: Seq<Vec<Point>>,
    p: int,
    t: Time,
    line: Vec<Point>,
)
    requires
        ascending(times),
        times.len() == lines.len(),
        0 <= p <= times.len(),
        forall|k: int| 0 <= k < p ==> times[k] < t,
        forall|k: int| p <= k < times.len() ==> t < times[k],
    ensures
        ascending(times.insert(p, t)),
        !times.contains(t),
        series_map(times.insert(p, t), lines.insert(p, line)) == series_map(times, lines).insert(
            t,
            line@,
        ),
{
    let new_times = times.insert(p, t);
    let new_lines = lines.insert(p, line);
    assert forall|i: int, j: int| 0 <= i < j < new_times.len() implies new_times[i]
        < new_times[j] by {
        let a = if i < p { i } else { i - 1 };
        let b = if j < p { j } else { j - 1 };
        if i != p && j != p {
            assert(times[a] < times[b]);
        }
    }
    if times.contains(t) {
        let k = times.index_of(t);
        assert(times[k] == t);
        assert(false);
    }
    lemma_series_map(times, lines);
    lemma_series_map(new_times, new_lines);
    let new_map = series_map(new_times, new_lines);
    let want = series_map(times, lines).insert(t, line@);
    assert(new_times[p] == t);
    assert forall|u: Time| new_map.dom().contains(u) <==> want.dom().contains(u) by {
        if new_map.dom().contains(u) && u != t {
            let k = new_times.index_of(u);
            let a = if k < p { k } else { k - 1 };
            assert(times[a] == u);
        }
        if want.dom().contains(u) && u != t {
            let a = times.index_of(u);
            let k = if a < p { a } else { a + 1 };
            assert(new_times[k] == u);
        }
    }
    assert forall|u: Time| new_map.dom().contains(u) implies new_map[u] == want[u] by {
        if u != t {
            let a = times.index_of(u);
            assert(times[a] == u);
            let k = if a < p { a } else { a + 1 };
            assert(new_times[k] == u);
            assert(new_lines[k] == lines[a]);
        }
    }
    assert(new_map =~= want);
}

/// Enters the polyline under its time, in place of the one that the time has
/// already, if it has one.
pub fn enter(times: &mut Vec<Time>, lines: &mut Vec<DataLine>, t: Time, line: DataLine)
    requires
        ascending(old(times)@),
        old(times).len() == old(lines).len(),
    ensures
        ascending(final(times)@),
        final(times).len() == final(lines).len(),
        series_map(final(times)@, final(lines)@) == series_map(old(times)@, old(lines)@).insert(
            t,
            line@,
        ),
        final(times).len() > 0,
{
    let p: usize = place_of(times, t);
    if p < times.len() && times[p] == t {
        proof {
            lemma_map_after_set(times@, lines@, p as int, line);
        }
        lines.set(p, line);
    } else {
        proof {
            lemma_map_after_insert(times@, lines@, p as int, t, line);
        }
        times.insert(p, t);
        lines.insert(p, line);
    }
}

/// Enters a time among ascending times, unless it is among them already.
pub fn insert_time(times: &mut Vec<Time>, t: Time)
    requires
        ascending(old(times)@),
    ensures
        ascending(final(times)@),
        forall|u: Time| final(times)@.contains(u) <==> old(times)@.contains(u) || u == t,
{
    let ghost old_times = times@;
    let p: usize = place_of(times, t);
    if p < times.len() && times[p] == t {
        assert(times@[p as int] == t);
    } else {
        times.insert(p, t);
        proof {
            assert(times@[p as int] == t);
            assert forall|i: int, j: int| 0 <= i < j < times.len() implies times[i] < times[j] by {
                let a = if i < p { i } else { i - 1 };
                let b = if j < p { j } else { j - 1 };
                if i != p && j != p {
                    assert(old_times[a] < old_times[b]);
                }
            }
            assert forall|u: Time| times@.contains(u) <==> old_times.contains(u) || u == t by {
                if times@.contains(u) && u != t {
                    let k = times@.index_of(u);
                    let a = if k < p { k } else { k - 1 };
                    assert(old_times[a] == u);
                }
                if old_times.contains(u) {
                    let a = old_times.index_of(u);
                    let k = if a < p { a } else { a + 1 };
                    assert(times[k] == u);
                }
            }
        }
    }
}

/// One source of data: polylines, each valid from its time until the next.
#[derive(Debug, Clone)]
pub struct TimeSeries {
    pub times: Vec<Time>,
    pub start_time: Time,
    pub end_time: Time,
    pub data_lines: Vec<DataLine>,
}

impl View for TimeSeries {
    type V = Map<Time, Seq<Point>>;

    /// The polyline of each of the series' times.
    open spec fn view(&self) -> Map<Time, Seq<Point>> {
        series_map(self.times@, self.lines())
    }
}

impl TimeSeries {
    /// The polylines, in the order of their times.
    pub open spec fn lines(&self) -> Seq<Vec<Point>> {
        self.data_lines@
    }

    /// Whether the series is well formed: it has a time, the times ascend,
    /// each has its polyline, and the first and the last of them are the
    /// series' start and end.
    pub open spec fn wf(&self) -> bool {
        &&& self.times.len() > 0
        &&& self.times.len() == self.lines().len()
        &&& ascending(self.times@)
        &&& self.start_time == self.times[0]
        &&& self.end_time == self.times[self.times.len() - 1]
    }

    /// Whether the series is well formed.
    pub fn check(&self) -> (r: bool)
        ensures
            r == self.wf(),
    {
        let n: usize = self.times.len();
        n > 0 && n == self.data_lines.len() && is_ascending(&self.times) && self.start_time
            == self.times[0] && self.end_time == self.times[n - 1]
    }

    /// The polyline that is valid at the given time, if one is: that of the
    /// latest of the series' times that is not after it, unless the time lies
    /// before the start or after the end of the series.
    pub open spec fn valid_at(&self, time: Time) -> Option<Seq<Point>> {
        if self.start_time <= time <= self.end_time {
            Some(self.lines()[floor_index(self.times@, time)]@)
        } else {
            None
        }
    }

    /// The series of a source's records, each a time and the polyline that
    /// follows its marker. The records may come in any order; of records with
    /// the same time the last counts. A source without records has no series.
    pub fn from_records(records: Vec<(Time, DataLine)>) -> (r: Result<TimeSeries, ParseError>)
        ensures
            r is Err <==> records.len() == 0,
            r matches Err(e) ==> e is NoTimestamps,
            r matches Ok(series) ==> series.wf() && series@ == record_map(records_view(records@)),
    {
        let ghost all = records@;
        let mut times: Vec<Time> = Vec::new();
        let mut lines: Vec<DataLine> = Vec::new();
        proof {
            assert(series_map(times@, lines@) =~= record_map(records_view(all.take(0))));
        }
        for record in it: records
            invariant
                it.seq() == all,
                ascending(times@),
                times.len() == lines.len(),
                series_map(times@, lines@) == record_map(records_view(all.take(it.index() as int))),
                it.index() > 0 <==> times.len() > 0,
        {
            proof {
                assert(records_view(all.take(it.index() + 1)).drop_last() =~= records_view(
                    all.take(it.index() as int),
                ));
            }
            enter(&mut times, &mut lines, record.0, record.1);
        }
        proof {
            assert(all.take(all.len() as int) == all);
        }
        if times.len() == 0 {
            Err(ParseError::NoTimestamps)
        } else {
            let start_time: Time = times[0];
            let end_time: Time = times[times.len() - 1];
            Ok(TimeSeries { times, start_time, end_time, data_lines: lines })
        }
    }

    /// The polyline that is valid at the given time: that of the latest of the
    /// series' times that is not after it. Before the start and after the end
    /// of the series nothing is valid.
    pub fn at_time(&self, time: Time) -> (r: Option<&DataLine>)
        requires
            self.wf(),
        ensures
            r is Some <==> self.start_time <= time <= self.end_time,
            r matches Some(line) ==> {
                let i = floor_index(self.times@, time);
                &&& is_floor(self.times@, time, i)
                &&& *line == self.lines()[i]
                &&& line@ == self@[self.times[i]]
            },
            match r {
                Some(line) => self.valid_at(time) == Some(line@),
                None => self.valid_at(time) is None,
            },
    {
        if time > self.end_time || time < self.start_time {
            None
        } else {
            match floor_step(&self.times, time) {
                Some(i) => {
                    proof {
                        lemma_series_map(self.times@, self.lines());
                        lemma_floor_unique(
                            self.times@,
                            time,
                            i as int,
                            floor_index(self.times@, time),
                        );
                    }
                    Some(&self.data_lines[i])
                },
                None => None,
            }
        }
    }

    /// The polyline of the time of the given index.
    pub fn line(&self, i: usize) -> (line: &DataLine)
        requires
            self.wf(),
            i < self.times.len(),
        ensures
            *line == self.lines()[i as int],
            line@ == self@[self.times[i as int]],
    {
        proof {
            lemma_series_map(self.times@, self.lines());
        }
        &self.data_lines[i]
    }
}

} // verus!
