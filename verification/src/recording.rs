//! All that one source records: for each of its times the polylines that
//! stand under a marker of that time.

use vstd::prelude::*;
use crate::data::{lines_view, DataLine, ParseError, Point, Time};
use crate::timeseries::{
    ascending, floor_index, floor_step, is_ascending, is_floor, lemma_floor_unique, place_of,
    records_view,
};

verus! {

/// Whether one of the records has the time.
pub open spec fn has_time(records: Seq<(Time, Seq<Point>)>, u: Time) -> bool {
    exists|i: int| 0 <= i < records.len() && (#[trigger] records[i]).0 == u
}

/// The polylines of the records that have the time `u`, in the order of the
/// records.
pub open spec fn recorded_at(records: Seq<(Time, Seq<Point>)>, u: Time) -> Seq<Seq<Point>>
    decreases records.len(),
{
    if records.len() == 0 {
        Seq::empty()
    } else {
        let rest = recorded_at(records.drop_last(), u);
        if records.last().0 == u {
            rest.push(records.last().1)
        } else {
            rest
        }
    }
}

/// The records by their times: each time that a record has, with the
/// polylines of all the records that have it, in the order of the records.
pub open spec fn grouped(records: Seq<(Time, Seq<Point>)>) -> Map<Time, Seq<Seq<Point>>> {
    Map::new(|u: Time| has_time(records, u), |u: Time| recorded_at(records, u))
}

/// The polylines of each time, for times and groups of polylines that are
/// listed side by side.
pub open spec fn group_map(times: Seq<Time>, lines: Seq<Vec<DataLine>>) -> Map<
    Time,
    Seq<Seq<Point>>,
> {
    Map::new(|t: Time| times.contains(t), |t: Time| lines_view(lines[times.index_of(t)]@))
}

/// The map with one more polyline under the time `t`, after those that the
/// time has already.
pub open spec fn added(m: Map<Time, Seq<Seq<Point>>>, t: Time, line: Seq<Point>) -> Map<
    Time,
    Seq<Seq<Point>>,
> {
    m.insert(
        t,
        (if m.dom().contains(t) {
            m[t]
        } else {
            Seq::empty()
        }).push(line),
    )
}

/// Whether `u` is the time that the records show at the time `t`: the latest
/// of their times that is not after `t`, where `t` is not after the last of
/// them.
pub open spec fn is_latest(records: Seq<(Time, Seq<Point>)>, t: Time, u: Time) -> bool {
    &&& has_time(records, u)
    &&& u <= t
    &&& forall|i: int| 0 <= i < records.len() && (#[trigger] records[i]).0 <= t ==> records[i].0 <= u
    &&& exists|i: int| 0 <= i < records.len() && (#[trigger] records[i]).0 >= t
}

/// The time that the records show at the time `t`, if they show one.
pub open spec fn latest(records: Seq<(Time, Seq<Point>)>, t: Time) -> Option<Time> {
    if exists|u: Time| is_latest(records, t, u) {
        Some(choose|u: Time| is_latest(records, t, u))
    } else {
        None
    }
}

/// The polylines that the records show at the time `t`: all the polylines
/// that stand under the latest of their times that is not after `t`, in the
/// order of the records, and none of another time; none at all where the
/// records have no such time, or no time that is not before `t`.
pub open spec fn shown_records(records: Seq<(Time, Seq<Point>)>, t: Time) -> Seq<Seq<Point>> {
    match latest(records, t) {
        Some(u) => recorded_at(records, u),
        None => Seq::empty(),
    }
}

/// Side by side, ascending times and their groups map each listed time to
/// the group beside it, and no other time to anything.
pub proof fn lemma_group_map(times: Seq<Time>, lines: Seq<Vec<DataLine>>)
    requires
        ascending(times),
        times.len() == lines.len(),
    ensures
        forall|i: int|
            0 <= i < times.len() ==> group_map(times, lines).dom().contains(#[trigger] times[i])
                && group_map(times, lines)[times[i]] == lines_view(lines[i]@),
        forall|t: Time|
            group_map(times, lines).dom().contains(t) ==> 0 <= times.index_of(t) < times.len()
                && times[times.index_of(t)] == t,
{
    assert forall|i: int| 0 <= i < times.len() implies group_map(times, lines).dom().contains(
        #[trigger] times[i],
    ) && group_map(times, lines)[times[i]] == lines_view(lines[i]@) by {
        let t = times[i];
        assert(times.contains(t));
        let k = times.index_of(t);
        assert(0 <= k < times.len() && times[k] == t);
        if k < i {
            assert(times[k] < times[i]);
        } else if i < k {
            assert(times[i] < times[k]);
        }
    }
}

/// One more record adds its polyline under its time.
pub proof fn lemma_grouped_push(records: Seq<(Time, Seq<Point>)>, t: Time, line: Seq<Point>)
    ensures
        grouped(records.push((t, line))) == added(grouped(records), t, line),
{
    let more = records.push((t, line));
    let got = grouped(more);
    let want = added(grouped(records), t, line);
    assert(more.drop_last() == records);
    assert(more.last() == (t, line));
    assert forall|u: Time| has_time(more, u) <==> (has_time(records, u) || u == t) by {
        if has_time(more, u) {
            let i = choose|i: int| 0 <= i < more.len() && (#[trigger] more[i]).0 == u;
            if i < records.len() {
                assert(records[i].0 == u);
            }
        }
        if has_time(records, u) {
            let i = choose|i: int| 0 <= i < records.len() && (#[trigger] records[i]).0 == u;
            assert(more[i].0 == u);
        }
        if u == t {
            assert(more[records.len() as int].0 == u);
        }
    }
    lemma_recorded_at_none(records, t);
    assert forall|u: Time| got.dom().contains(u) implies got[u] == want[u] by {}
    assert(got =~= want);
}

/// A time that no record has has no polylines.
pub proof fn lemma_recorded_at_none(records: Seq<(Time, Seq<Point>)>, u: Time)
    ensures
        !has_time(records, u) ==> recorded_at(records, u) == Seq::<Seq<Point>>::empty(),
        has_time(records, u) ==> recorded_at(records, u).len() > 0,
    decreases records.len(),
{
    if records.len() > 0 {
        let rest = records.drop_last();
        lemma_recorded_at_none(rest, u);
        if has_time(rest, u) {
            let i = choose|i: int| 0 <= i < rest.len() && (#[trigger] rest[i]).0 == u;
            assert(records[i].0 == u);
        }
        if records.last().0 == u {
            assert(records[records.len() - 1].0 == u);
        }
        if has_time(records, u) && records.last().0 != u {
            let i = choose|i: int| 0 <= i < records.len() && (#[trigger] records[i]).0 == u;
            assert(rest[i].0 == u);
        }
    }
}

/// The number of polylines in all the groups together.
pub open spec fn total_lines(lines: Seq<Vec<DataLine>>) -> nat
    decreases lines.len(),
{
    if lines.len() == 0 {
        0
    } else {
        total_lines(lines.drop_last()) + lines.last().len() as nat
    }
}

/// A group more makes as many polylines more as it holds.
proof fn lemma_total_after_insert(lines: Seq<Vec<DataLine>>, p: int, group: Vec<DataLine>)
    requires
        0 <= p <= lines.len(),
    ensures
        total_lines(lines.insert(p, group)) == total_lines(lines) + group.len(),
    decreases lines.len() - p,
{
    let more = lines.insert(p, group);
    if p == lines.len() {
        assert(more.drop_last() =~= lines);
        assert(more.last() == group);
    } else {
        assert(more.drop_last() =~= lines.drop_last().insert(p, group));
        assert(more.last() == lines.last());
        lemma_total_after_insert(lines.drop_last(), p, group);
    }
}

/// A group in the place of another changes the number of polylines by the
/// difference between the two.
proof fn lemma_total_after_update(lines: Seq<Vec<DataLine>>, p: int, group: Vec<DataLine>)
    requires
        0 <= p < lines.len(),
    ensures
        total_lines(lines.update(p, group)) + lines[p].len() == total_lines(lines) + group.len(),
    decreases lines.len(),
{
    let other = lines.update(p, group);
    if p == lines.len() - 1 {
        assert(other.drop_last() =~= lines.drop_last());
        assert(other.last() == group);
    } else {
        assert(other.drop_last() =~= lines.drop_last().update(p, group));
        assert(other.last() == lines.last());
        lemma_total_after_update(lines.drop_last(), p, group);
    }
}

/// One more polyline in the group beside a time adds it under that time.
proof fn lemma_group_after_push(
    times: Seq<Time>,
    lines: Seq<Vec<DataLine>>,
    new_lines: Seq<Vec<DataLine>>,
    p: int,
    line: Vec<Point>,
)
    requires
        ascending(times),
        times.len() == lines.len(),
        0 <= p < times.len(),
        new_lines.len() == lines.len(),
        forall|k: int| 0 <= k < lines.len() && k != p ==> new_lines[k] == lines[k],
        new_lines[p]@ == lines[p]@.push(line),
    ensures
        group_map(times, new_lines) == added(group_map(times, lines), times[p], line@),
{
    lemma_group_map(times, lines);
    lemma_group_map(times, new_lines);
    let got = group_map(times, new_lines);
    let want = added(group_map(times, lines), times[p], line@);
    assert(lines_view(new_lines[p]@) =~= lines_view(lines[p]@).push(line@));
    assert forall|u: Time| got.dom().contains(u) implies got[u] == want[u] by {
        let k = times.index_of(u);
        assert(times[k] == u);
        if k != p {
            assert(new_lines[k] == lines[k]);
            if k < p {
                assert(times[k] < times[p]);
            } else {
                assert(times[p] < times[k]);
            }
        }
    }
    assert(got =~= want);
}

/// A new time in its place, with a group of one polyline beside it, keeps
/// the times ascending and adds the polyline under the time.
proof fn lemma_group_after_insert(
    times: Seq<Time>,
    lines: Seq<Vec<DataLine>>,
    p: int,
    t: Time,
    group: Vec<DataLine>,
    line: Vec<Point>,
)
    requires
        ascending(times),
        times.len() == lines.len(),
        0 <= p <= times.len(),
        forall|k: int| 0 <= k < p ==> times[k] < t,
        forall|k: int| p <= k < times.len() ==> t < times[k],
        group@ == seq![line],
    ensures
        ascending(times.insert(p, t)),
        group_map(times.insert(p, t), lines.insert(p, group)) == added(
            group_map(times, lines),
            t,
            line@,
        ),
{
    let new_times = times.insert(p, t);
    let new_lines = lines.insert(p, group);
    assert forall|i: int, j: int| 0 <= i < j < new_times.len() implies new_times[i]
        < new_times[j] by {
        let a = if i < p { i } else { i - 1 };
        let b = if j < p { j } else { j - 1 };
        if i != p && j != p {
            assert(times[a] < times[b]);
        }
    }
    if times.contains(t) {
        let k = times.index_of(t);
        assert(times[k] == t);
        assert(false);
    }
    lemma_group_map(times, lines);
    lemma_group_map(new_times, new_lines);
    let got = group_map(new_times, new_lines);
    let want = added(group_map(times, lines), t, line@);
    assert(new_times[p] == t);
    assert(lines_view(new_lines[p]@) =~= Seq::<Seq<Point>>::empty().push(line@));
    assert forall|u: Time| got.dom().contains(u) <==> want.dom().contains(u) by {
        if got.dom().contains(u) && u != t {
            let k = new_times.index_of(u);
            let a = if k < p { k } else { k - 1 };
            assert(times[a] == u);
        }
        if want.dom().contains(u) && u != t {
            let a = times.index_of(u);
            let k = if a < p { a } else { a + 1 };
            assert(new_times[k] == u);
        }
    }
    assert forall|u: Time| got.dom().contains(u) implies got[u] == want[u] by {
        if u != t {
            let a = times.index_of(u);
            assert(times[a] == u);
            let k = if a < p { a } else { a + 1 };
            assert(new_times[k] == u);
            assert(new_lines[k] == lines[a]);
        }
    }
    assert(got =~= want);
}

/// Enters the polyline under its time: after the polylines that the time has
/// already, or as the first of a time that is new.
pub fn enter_line(times: &mut Vec<Time>, lines: &mut Vec<Vec<DataLine>>, t: Time, line: DataLine)
    requires
        ascending(old(times)@),
        old(times).len() == old(lines).len(),
        forall|k: int| 0 <= k < old(lines).len() ==> (#[trigger] old(lines)[k]).len() > 0,
    ensures
        ascending(final(times)@),
        final(times).len() == final(lines).len(),
        forall|k: int| 0 <= k < final(lines).len() ==> (#[trigger] final(lines)[k]).len() > 0,
        group_map(final(times)@, final(lines)@) == added(
            group_map(old(times)@, old(lines)@),
            t,
            line@,
        ),
        total_lines(final(lines)@) == total_lines(old(lines)@) + 1,
        final(times).len() > 0,
{
    let ghost old_lines = lines@;
    let p: usize = place_of(times, t);
    if p < times.len() && times[p] == t {
        let mut group: Vec<DataLine> = lines.remove(p);
        group.push(line);
        proof {
            lemma_total_after_update(old_lines, p as int, group);
            assert(lines@.insert(p as int, group) =~= old_lines.update(p as int, group));
        }
        lines.insert(p, group);
        proof {
            lemma_group_after_push(times@, old_lines, lines@, p as int, line);
        }
    } else {
        let mut group: Vec<DataLine> = Vec::new();
        group.push(line);
        proof {
            lemma_group_after_insert(times@, old_lines, p as int, t, group, line);
            lemma_total_after_insert(old_lines, p as int, group);
        }
        times.insert(p, t);
        lines.insert(p, group);
    }
}

/// All that one source records: its times, ascending, and beside each time
/// the polylines that the source holds under a marker of that time, in the
/// order in which they stand in the source.
#[derive(Debug, Clone)]
pub struct Recording {
    pub times: Vec<Time>,
    pub lines: Vec<Vec<DataLine>>,
}

impl View for Recording {
    type V = Map<Time, Seq<Seq<Point>>>;

    /// The polylines of each of the recording's times.
    open spec fn view(&self) -> Map<Time, Seq<Seq<Point>>> {
        group_map(self.times@, self.lines@)
    }
}

impl Recording {
    /// Whether the recording is well formed: it has a time, the times ascend,
    /// and each has at least one polyline.
    pub open spec fn wf(&self) -> bool {
        &&& self.times.len() > 0
        &&& self.times.len() == self.lines.len()
        &&& ascending(self.times@)
        &&& forall|k: int| 0 <= k < self.lines.len() ==> (#[trigger] self.lines[k]).len() > 0
    }

    /// Whether the recording is well formed.
    pub fn check(&self) -> (r: bool)
        ensures
            r == self.wf(),
    {
        if self.times.len() == 0 || self.times.len() != self.lines.len() || !is_ascending(
            &self.times,
        ) {
            return false;
        }
        let mut k: usize = 0;
        while k < self.lines.len()
            invariant
                k <= self.lines.len(),
                forall|j: int| 0 <= j < k ==> (#[trigger] self.lines[j]).len() > 0,
            decreases self.lines.len() - k,
        {
            if self.lines[k].len() == 0 {
                return false;
            }
            k += 1;
        }
        true
    }

    /// The first of the recording's times.
    pub open spec fn start(&self) -> Time
        recommends
            self.times.len() > 0,
    {
        self.times[0]
    }

    /// The last of the recording's times.
    pub open spec fn end(&self) -> Time
        recommends
            self.times.len() > 0,
    {
        self.times[self.times.len() - 1]
    }

    /// The polylines that the recording shows at the given time: those of
    /// the latest of its times that is not after it, all of them and no
    /// others; none before its first and after its last time.
    pub open spec fn valid_at(&self, time: Time) -> Seq<Seq<Point>> {
        if self.start() <= time <= self.end() {
            lines_view(self.lines[floor_index(self.times@, time)]@)
        } else {
            Seq::empty()
        }
    }

    /// The recording of a source's records, each a time and the polyline
    /// that follows its marker. The records may come in any order; records
    /// of the same time stay together, in the order in which they come, and
    /// the recording holds as many polylines as there are records. A source
    /// without records has no recording.
    pub fn from_records(records: Vec<(Time, DataLine)>) -> (r: Result<Recording, ParseError>)
        ensures
            r is Err <==> records.len() == 0,
            r matches Err(e) ==> e is NoTimestamps,
            r matches Ok(recording) ==> recording.wf() && recording@ == grouped(
                records_view(records@),
            ),
            r matches Ok(recording) ==> total_lines(recording.lines@) == records.len(),
    {
        let ghost all = records@;
        let mut times: Vec<Time> = Vec::new();
        let mut lines: Vec<Vec<DataLine>> = Vec::new();
        proof {
            assert(group_map(times@, lines@) =~= grouped(records_view(all.take(0))));
        }
        for record in it: records
            invariant
                it.seq() == all,
                ascending(times@),
                times.len() == lines.len(),
                forall|k: int| 0 <= k < lines.len() ==> (#[trigger] lines[k]).len() > 0,
                group_map(times@, lines@) == grouped(records_view(all.take(it.index() as int))),
                total_lines(lines@) == it.index(),
                it.index() > 0 <==> times.len() > 0,
        {
            proof {
                let before = records_view(all.take(it.index() as int));
                assert(records_view(all.take(it.index() + 1)) =~= before.push(
                    (record.0, record.1@),
                ));
                lemma_grouped_push(before, record.0, record.1@);
            }
            enter_line(&mut times, &mut lines, record.0, record.1);
        }
        proof {
            assert(all.take(all.len() as int) == all);
        }
        if times.len() == 0 {
            Err(ParseError::NoTimestamps)
        } else {
            Ok(Recording { times, lines })
        }
    }

    /// The polylines that the recording shows at the given time: those that
    /// stand under the latest of its times that is not after the given one.
    /// Before its first and after its last time it shows nothing.
    pub fn at_time(&self, time: Time) -> (r: Option<&Vec<DataLine>>)
        requires
            self.wf(),
        ensures
            r is Some <==> self.start() <= time <= self.end(),
            r matches Some(group) ==> {
                let i = floor_index(self.times@, time);
                &&& is_floor(self.times@, time, i)
                &&& *group == self.lines[i]
                &&& group.len() > 0
                &&& lines_view(group@) == self@[self.times[i]]
            },
            match r {
                Some(group) => self.valid_at(time) == lines_view(group@),
                None => self.valid_at(time) == Seq::<Seq<Point>>::empty(),
            },
    {
        if time > self.times[self.times.len() - 1] || time < self.times[0] {
            None
        } else {
            match floor_step(&self.times, time) {
                Some(i) => {
                    proof {
                        lemma_group_map(self.times@, self.lines@);
                        lemma_floor_unique(
                            self.times@,
                            time,
                            i as int,
                            floor_index(self.times@, time),
                        );
                    }
                    Some(&self.lines[i])
                },
                None => None,
            }
        }
    }
}

/// What a recording shows at a time is what its source records under the
/// latest of the source's times that is not after it: every polyline of that
/// time, in the order of the source, and none of another time. Where the
/// source has no such time, or none that is not before the given one, the
/// recording shows nothing.
pub proof fn lemma_shows_latest(
    recording: Recording,
    records: Seq<(Time, Seq<Point>)>,
    t: Time,
    u: Time,
)
    requires
        recording.wf(),
        recording@ == grouped(records),
    ensures
        is_latest(records, t, u) ==> recording.valid_at(t) == recorded_at(records, u),
        (forall|v: Time| !is_latest(records, t, v)) ==> recording.valid_at(t) == Seq::<
            Seq<Point>,
        >::empty(),
{
    let times = recording.times@;
    let n = times.len() as int;
    lemma_group_map(times, recording.lines@);
    assert forall|i: int| 0 <= i < n implies has_time(records, #[trigger] times[i]) by {
        assert(recording@.dom().contains(times[i]));
    }
    assert forall|i: int| 0 <= i < records.len() implies times.contains(
        (#[trigger] records[i]).0,
    ) by {
        assert(has_time(records, records[i].0));
        assert(grouped(records).dom().contains(records[i].0));
    }
    if recording.start() <= t <= recording.end() {
        let i = choose|i: int| is_floor(times, t, i);
        assert(is_floor(times, t, i)) by {
            lemma_floor_exists(times, t);
        }
        let w = times[i];
        assert(is_latest(records, t, w)) by {
            assert(has_time(records, w));
            assert forall|j: int| 0 <= j < records.len() && (#[trigger] records[j]).0
                <= t implies records[j].0 <= w by {
                let k = times.index_of(records[j].0);
                assert(times[k] == records[j].0);
                if k > i {
                    if k > i + 1 {
                        assert(times[i + 1] < times[k]);
                    }
                }
            }
            let last = times[n - 1];
            assert(has_time(records, last));
            let j = choose|j: int| 0 <= j < records.len() && (#[trigger] records[j]).0 == last;
            assert(records[j].0 >= t);
        }
        if is_latest(records, t, u) {
            let a = choose|a: int| 0 <= a < records.len() && (#[trigger] records[a]).0 == u;
            let b = choose|b: int| 0 <= b < records.len() && (#[trigger] records[b]).0 == w;
            assert(records[a].0 <= w);
            assert(records[b].0 <= u);
            assert(recording@[w] == recorded_at(records, w));
        }
    } else {
        if is_latest(records, t, u) {
            let a = choose|a: int| 0 <= a < records.len() && (#[trigger] records[a]).0 == u;
            let k = times.index_of(records[a].0);
            assert(times[k] == u);
            if k > 0 {
                assert(times[0] < times[k]);
            }
            let b = choose|b: int| 0 <= b < records.len() && (#[trigger] records[b]).0 >= t;
            let m = times.index_of(records[b].0);
            assert(times[m] == records[b].0);
            if m < n - 1 {
                assert(times[m] < times[n - 1]);
            }
            assert(false);
        }
    }
}

/// The records show the polylines of one time: where `u` is the latest of
/// their times that is not after `t`, and `t` is not after the last of
/// them, they show at `t` what they hold under `u`.
pub proof fn lemma_latest_unique(records: Seq<(Time, Seq<Point>)>, t: Time, u: Time)
    requires
        is_latest(records, t, u),
    ensures
        latest(records, t) == Some(u),
        shown_records(records, t) == recorded_at(records, u),
{
    let v = choose|v: Time| is_latest(records, t, v);
    let a = choose|a: int| 0 <= a < records.len() && (#[trigger] records[a]).0 == u;
    let b = choose|b: int| 0 <= b < records.len() && (#[trigger] records[b]).0 == v;
    assert(records[a].0 <= v);
    assert(records[b].0 <= u);
}

/// A recording shows at every time what the records of its source show.
pub proof fn lemma_shows_records(recording: Recording, records: Seq<(Time, Seq<Point>)>, t: Time)
    requires
        recording.wf(),
        recording@ == grouped(records),
    ensures
        recording.valid_at(t) == shown_records(records, t),
{
    match latest(records, t) {
        Some(u) => {
            lemma_shows_latest(recording, records, t, u);
        },
        None => {
            lemma_shows_latest(recording, records, t, 0);
        },
    }
}

/// Among ascending times, a time that is not before the first of them has a
/// floor.
pub proof fn lemma_floor_exists(times: Seq<Time>, t: Time)
    requires
        ascending(times),
        times.len() > 0,
        times[0] <= t,
    ensures
        exists|i: int| is_floor(times, t, i),
        is_floor(times, t, floor_index(times, t)),
    decreases times.len(),
{
    let n = times.len() as int;
    if times[n - 1] <= t {
        assert(is_floor(times, t, n - 1));
    } else {
        let shorter = times.drop_last();
        assert(shorter.len() > 0);
        assert(ascending(shorter)) by {
            assert forall|i: int, j: int| 0 <= i < j < shorter.len() implies shorter[i]
                < shorter[j] by {
                assert(times[i] < times[j]);
            }
        }
        lemma_floor_exists(shorter, t);
        let i = choose|i: int| is_floor(shorter, t, i);
        assert(is_floor(times, t, i)) by {
            assert(shorter[i] == times[i]);
            if i + 1 < shorter.len() {
                assert(shorter[i + 1] == times[i + 1]);
            }
        }
    }
}

} // verus!
