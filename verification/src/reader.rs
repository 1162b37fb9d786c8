//! The text of a source: blocks of lines, each block a marker line with a
//! time and, after it, one line for each point of the polyline that is valid
//! at that time.
//!
//! The numbers themselves are read by the caller. This module says where in
//! a line they stand, and what the numbers that were read amount to.

use vstd::prelude::*;
use crate::data::{DataLine, ParseError, Point, Time};
use crate::rank::{is_nan, rank, rank_of_bits};
use crate::timeseries::{record_map, records_view, TimeSeries};

verus! {

/// The byte that ends a line.
pub const NEWLINE: u8 = 10;

/// The byte that may stand before the end of a line.
pub const CARRIAGE_RETURN: u8 = 13;

/// The byte that a marker, or any other line that holds no point, starts
/// with.
pub const QUOTE: u8 = 34;

/// Whether the byte separates words: a blank, a tab, or one of the bytes
/// that end a line or a page.
pub open spec fn is_space(b: u8) -> bool {
    b == 32 || 9 <= b <= 13
}

/// The start of a marker: `"Time = `.
pub open spec fn marker_start() -> Seq<u8> {
    seq![34u8, 84u8, 105u8, 109u8, 101u8, 32u8, 61u8, 32u8]
}

/// The line without the carriage return at its end, if it has one.
pub open spec fn without_return(line: Seq<u8>) -> Seq<u8> {
    if line.len() > 0 && line.last() == CARRIAGE_RETURN {
        line.drop_last()
    } else {
        line
    }
}

/// The lines that end among the first `n` bytes of the text, and with them
/// the place where the line that is still open starts.
pub open spec fn lines_upto(text: Seq<u8>, n: nat) -> (Seq<Seq<u8>>, int)
    decreases n,
{
    if n == 0 {
        (Seq::empty(), 0)
    } else {
        let (lines, start) = lines_upto(text, (n - 1) as nat);
        if text[n - 1] == NEWLINE {
            (lines.push(without_return(text.subrange(start, n - 1))), n as int)
        } else {
            (lines, start)
        }
    }
}

/// The lines of a text: what stands between its line ends, with what follows
/// the last line end if anything does. A line is without its line end, and
/// without the carriage return before it.
pub open spec fn lines_of(text: Seq<u8>) -> Seq<Seq<u8>> {
    let (lines, start) = lines_upto(text, text.len());
    if start < text.len() {
        lines.push(text.subrange(start, text.len() as int))
    } else {
        lines
    }
}

/// The first place at or after `from` where the line has a space, if `space`,
/// or something else, if not; the length of the line if there is no such
/// place.
pub open spec fn scan(line: Seq<u8>, from: int, space: bool) -> int
    decreases line.len() - from,
{
    if from < 0 || from >= line.len() {
        line.len() as int
    } else if is_space(line[from]) == space {
        from
    } else {
        scan(line, from + 1, space)
    }
}

/// The text without the quotes at its start and at its end.
pub open spec fn trim_quotes(s: Seq<u8>) -> Seq<u8>
    decreases s.len(),
{
    if s.len() > 0 && s[0] == QUOTE {
        trim_quotes(s.drop_first())
    } else if s.len() > 0 && s.last() == QUOTE {
        trim_quotes(s.drop_last())
    } else {
        s
    }
}

/// What a line is, with the text of the numbers it holds.
pub enum LineShape {
    /// The empty line.
    Blank,
    /// A marker: the text of its time.
    Marker(Seq<u8>),
    /// Another line that starts with a quote.
    Comment,
    /// A line of at least two words: the first two, which stand for the
    /// coordinates of a point.
    Coordinates(Seq<u8>, Seq<u8>),
    /// A line of fewer than two words.
    Malformed,
}

/// What a line is, with the text of the numbers it holds.
#[derive(Debug)]
pub enum LineKind {
    /// The empty line.
    Blank,
    /// A marker: the text of its time.
    Marker(Vec<u8>),
    /// Another line that starts with a quote.
    Comment,
    /// A line of at least two words: the first two, which stand for the
    /// coordinates of a point.
    Coordinates(Vec<u8>, Vec<u8>),
    /// A line of fewer than two words.
    Malformed,
}

impl View for LineKind {
    type V = LineShape;

    open spec fn view(&self) -> LineShape {
        match self {
            LineKind::Blank => LineShape::Blank,
            LineKind::Marker(t) => LineShape::Marker(t@),
            LineKind::Comment => LineShape::Comment,
            LineKind::Coordinates(x, y) => LineShape::Coordinates(x@, y@),
            LineKind::Malformed => LineShape::Malformed,
        }
    }
}

/// What the line is.
///
/// A line that starts with `"Time = ` is a marker, and its time is the rest
/// of the line without the quotes around it. Any other line that starts with
/// a quote is a comment. Of the other lines, one with two words or more
/// gives the coordinates of a point, in its first two words.
pub open spec fn shape_of(line: Seq<u8>) -> LineShape {
    if line.len() == 0 {
        LineShape::Blank
    } else if line[0] == QUOTE {
        if marker_start().is_prefix_of(line) {
            LineShape::Marker(trim_quotes(line.subrange(8, line.len() as int)))
        } else {
            LineShape::Comment
        }
    } else {
        let a1 = scan(line, 0, false);
        let b1 = scan(line, a1, true);
        let a2 = scan(line, b1, false);
        let b2 = scan(line, a2, true);
        if a2 < line.len() {
            LineShape::Coordinates(line.subrange(a1, b1), line.subrange(a2, b2))
        } else {
            LineShape::Malformed
        }
    }
}

/// The bytes of the text from `from` up to `to`.
pub fn copy_bytes(text: &[u8], from: usize, to: usize) -> (bytes: Vec<u8>)
    requires
        from <= to <= text.len(),
    ensures
        bytes@ == text@.subrange(from as int, to as int),
{
    let mut bytes: Vec<u8> = Vec::new();
    let mut i: usize = from;
    while i < to
        invariant
            from <= i <= to <= text.len(),
            bytes@ == text@.subrange(from as int, i as int),
        decreases to - i,
    {
        bytes.push(text[i]);
        i += 1;
    }
    bytes
}

/// The lines of a text.
pub fn split_lines(text: &[u8]) -> (lines: Vec<Vec<u8>>)
    ensures
        lines.len() == lines_of(text@).len(),
        forall|k: int| 0 <= k < lines.len() ==> (#[trigger] lines[k])@ == lines_of(text@)[k],
{
    let mut lines: Vec<Vec<u8>> = Vec::new();
    let mut start: usize = 0;
    let mut i: usize = 0;
    while i < text.len()
        invariant
            start <= i <= text.len(),
            start == lines_upto(text@, i as nat).1,
            lines.len() == lines_upto(text@, i as nat).0.len(),
            forall|k: int|
                0 <= k < lines.len() ==> (#[trigger] lines[k])@ == lines_upto(text@, i as nat).0[k],
        decreases text.len() - i,
    {
        if text[i] == NEWLINE {
            let end: usize = if i > start && text[i - 1] == CARRIAGE_RETURN {
                i - 1
            } else {
                i
            };
            proof {
                let whole = text@.subrange(start as int, i as int);
                assert(text@.subrange(start as int, end as int) == without_return(whole)) by {
                    if i > start {
                        assert(whole.last() == text@[i - 1]);
                    }
                }
            }
            lines.push(copy_bytes(text, start, end));
            start = i + 1;
        }
        i += 1;
    }
    if start < text.len() {
        lines.push(copy_bytes(text, start, text.len()));
    }
    lines
}

/// Whether the byte separates words.
pub fn byte_is_space(b: u8) -> (r: bool)
    ensures
        r == is_space(b),
{
    b == 32 || (9 <= b && b <= 13)
}

/// The first place at or after `from` where the line has a space, if `space`,
/// or something else, if not; the length of the line if there is none.
fn scan_from(line: &[u8], from: usize, space: bool) -> (at: usize)
    requires
        from <= line.len(),
    ensures
        at == scan(line@, from as int, space),
        from <= at <= line.len(),
{
    let mut at: usize = from;
    while at < line.len() && byte_is_space(line[at]) != space
        invariant
            from <= at <= line.len(),
            scan(line@, from as int, space) == scan(line@, at as int, space),
        decreases line.len() - at,
    {
        at += 1;
    }
    at
}

/// Whether the line starts as a marker does.
fn starts_marker(line: &[u8]) -> (r: bool)
    ensures
        r == marker_start().is_prefix_of(line@),
{
    if line.len() < 8 {
        assert(marker_start().len() == 8);
        return false;
    }
    let r: bool = line[0] == 34 && line[1] == 84 && line[2] == 105 && line[3] == 109 && line[4]
        == 101 && line[5] == 32 && line[6] == 61 && line[7] == 32;
    proof {
        let m = marker_start();
        assert(m.len() == 8);
        assert(m[0] == 34 && m[1] == 84 && m[2] == 105 && m[3] == 109 && m[4] == 101 && m[5] == 32
            && m[6] == 61 && m[7] == 32);
        if r {
            assert(m =~= line@.subrange(0, 8));
        } else if m.is_prefix_of(line@) {
            assert(m == line@.subrange(0, 8));
            assert(forall|k: int| 0 <= k < 8 ==> m[k] == line@.subrange(0, 8)[k]);
        }
    }
    r
}

/// The line from `from` on, without the quotes at its start and its end.
fn trimmed_quotes(line: &[u8], from: usize) -> (text: Vec<u8>)
    requires
        from <= line.len(),
    ensures
        text@ == trim_quotes(line@.subrange(from as int, line.len() as int)),
{
    let ghost whole = line@.subrange(from as int, line.len() as int);
    let mut a: usize = from;
    while a < line.len() && line[a] == QUOTE
        invariant
            from <= a <= line.len(),
            trim_quotes(whole) == trim_quotes(line@.subrange(a as int, line.len() as int)),
        decreases line.len() - a,
    {
        proof {
            let s = line@.subrange(a as int, line.len() as int);
            assert(s.drop_first() == line@.subrange(a + 1, line.len() as int));
        }
        a += 1;
    }
    let mut b: usize = line.len();
    while b > a && line[b - 1] == QUOTE
        invariant
            a <= b <= line.len(),
            a < line.len() ==> line[a as int] != QUOTE,
            trim_quotes(whole) == trim_quotes(line@.subrange(a as int, b as int)),
        decreases b - a,
    {
        proof {
            let s = line@.subrange(a as int, b as int);
            assert(s[0] == line@[a as int]);
            assert(s.drop_last() == line@.subrange(a as int, b - 1));
        }
        b -= 1;
    }
    proof {
        let s = line@.subrange(a as int, b as int);
        if s.len() > 0 {
            assert(s[0] == line@[a as int]);
            assert(s.last() == line@[b - 1]);
        }
    }
    copy_bytes(line, a, b)
}

/// What the line is, with the text of the numbers it holds.
pub fn classify_line(line: &[u8]) -> (kind: LineKind)
    ensures
        kind@ == shape_of(line@),
{
    if line.len() == 0 {
        LineKind::Blank
    } else if line[0] == QUOTE {
        if starts_marker(line) {
            LineKind::Marker(trimmed_quotes(line, 8))
        } else {
            LineKind::Comment
        }
    } else {
        let a1: usize = scan_from(line, 0, false);
        let b1: usize = scan_from(line, a1, true);
        let a2: usize = scan_from(line, b1, false);
        let b2: usize = scan_from(line, a2, true);
        if a2 < line.len() {
            LineKind::Coordinates(copy_bytes(line, a1, b1), copy_bytes(line, a2, b2))
        } else {
            LineKind::Malformed
        }
    }
}

/// A line as it was read: the bit patterns of the numbers that stand in it,
/// each `None` where the text is not that of a number.
#[derive(Debug, Clone, Copy)]
pub enum Entry {
    /// A marker, with its time.
    Marker(Option<u64>),
    /// The two coordinates of a point.
    Coordinates(Option<u64>, Option<u64>),
    /// A line without numbers.
    Nothing,
}

/// The rank that a number has, if it was read and is a number.
pub open spec fn rank_read(number: Option<u64>) -> Option<i64> {
    match number {
        Some(bits) => if is_nan(bits) {
            None
        } else {
            Some(rank(bits) as i64)
        },
        None => None,
    }
}

/// The time that a line gives a new block, if it starts one.
pub open spec fn marked_time(entry: Entry) -> Option<Time> {
    match entry {
        Entry::Marker(time) => rank_read(time),
        _ => None,
    }
}

/// The point that a line gives, if it gives one: both of its coordinates
/// were read and are numbers.
pub open spec fn point_read(entry: Entry) -> Option<Point> {
    match entry {
        Entry::Coordinates(x, y) => match (rank_read(x), rank_read(y)) {
            (Some(a), Some(b)) => Some((a, b)),
            _ => None,
        },
        _ => None,
    }
}

/// The records that the lines give, and whether the last of them is still
/// open, so that points can follow.
///
/// A marker starts a record, which then holds the points of the lines that
/// follow, up to the next marker. A line that gives no point is passed over.
/// A marker whose time is not a number starts nothing: the points that follow
/// it belong to no record. So do the points before the first marker.
pub open spec fn records_upto(entries: Seq<Entry>, n: nat) -> (Seq<(Time, Seq<Point>)>, bool)
    decreases n,
{
    if n == 0 {
        (Seq::empty(), false)
    } else {
        let (records, open) = records_upto(entries, (n - 1) as nat);
        let entry = entries[n - 1];
        if entry is Marker {
            match marked_time(entry) {
                Some(t) => (records.push((t, Seq::empty())), true),
                None => (records, false),
            }
        } else if open && point_read(entry) is Some {
            let last = records.last();
            (records.drop_last().push((last.0, last.1.push(point_read(entry)->0))), true)
        } else {
            (records, open)
        }
    }
}

/// The records that the lines of a source give.
pub open spec fn records_of(entries: Seq<Entry>) -> Seq<(Time, Seq<Point>)> {
    records_upto(entries, entries.len()).0
}

/// The rank that a number has, if it was read and is a number.
fn read_rank(number: Option<u64>) -> (r: Option<i64>)
    ensures
        r == rank_read(number),
{
    match number {
        Some(bits) => rank_of_bits(bits),
        None => None,
    }
}

/// The records that the lines of a source give, in the order in which they
/// stand in it.
pub fn read_datalines(entries: &Vec<Entry>) -> (records: Vec<(Time, DataLine)>)
    ensures
        records_view(records@) == records_of(entries@),
{
    let mut records: Vec<(Time, DataLine)> = Vec::new();
    let mut open: bool = false;
    let mut time: Time = 0;
    let mut line: DataLine = Vec::new();
    let mut i: usize = 0;
    proof {
        assert(records_view(records@) =~= records_upto(entries@, 0).0);
    }
    while i < entries.len()
        invariant
            i <= entries.len(),
            open == records_upto(entries@, i as nat).1,
            !open ==> line@.len() == 0,
            !open ==> records_view(records@) == records_upto(entries@, i as nat).0,
            open ==> records_view(records@).push((time, line@)) == records_upto(
                entries@,
                i as nat,
            ).0,
        decreases entries.len() - i,
    {
        let ghost before = records_upto(entries@, i as nat).0;
        let ghost done = records_view(records@);
        match entries[i] {
            Entry::Marker(number) => {
                if open {
                    records.push((time, line));
                    line = Vec::new();
                    proof {
                        assert(records_view(records@) =~= before);
                    }
                }
                match read_rank(number) {
                    Some(t) => {
                        time = t;
                        open = true;
                        proof {
                            assert(line@ =~= Seq::<Point>::empty());
                        }
                    },
                    None => {
                        open = false;
                    },
                }
            },
            Entry::Coordinates(x, y) => {
                if open {
                    match (read_rank(x), read_rank(y)) {
                        (Some(a), Some(b)) => {
                            let ghost old_line = line@;
                            line.push((a, b));
                            proof {
                                assert(before.drop_last() =~= done);
                                assert(before.last() == (time, old_line));
                            }
                        },
                        _ => {},
                    }
                }
            },
            Entry::Nothing => {},
        }
        proof {
            if open {
                assert(records_view(records@).push((time, line@)) =~= records_upto(
                    entries@,
                    (i + 1) as nat,
                ).0);
            }
        }
        i += 1;
    }
    if open {
        records.push((time, line));
        proof {
            assert(records_view(records@) =~= records_upto(entries@, i as nat).0);
        }
    }
    records
}

/// Whether `entry` is what a line of the given kind reads as, with numbers
/// that `number` can have made of the texts in the line.
pub open spec fn is_reading<N: Fn(Vec<u8>) -> Option<u64>>(
    number: &N,
    kind: LineKind,
    entry: Entry,
) -> bool {
    match kind {
        LineKind::Marker(t) => entry matches Entry::Marker(v) && number.ensures((t,), v),
        LineKind::Coordinates(x, y) => entry matches Entry::Coordinates(a, b) && number.ensures(
            (x,),
            a,
        ) && number.ensures((y,), b),
        _ => entry is Nothing,
    }
}

/// Whether `kinds` are what the lines of the text are, and `entries` what
/// they read as.
pub open spec fn reads_as<N: Fn(Vec<u8>) -> Option<u64>>(
    number: &N,
    text: Seq<u8>,
    kinds: Seq<LineKind>,
    entries: Seq<Entry>,
) -> bool {
    &&& kinds.len() == lines_of(text).len()
    &&& entries.len() == kinds.len()
    &&& forall|k: int|
        0 <= k < kinds.len() ==> (#[trigger] kinds[k])@ == shape_of(lines_of(text)[k])
    &&& forall|k: int|
        0 <= k < kinds.len() ==> is_reading(number, kinds[k], #[trigger] entries[k])
}

/// Whether `entries` are what the lines of the text read as, one for each
/// line.
pub open spec fn are_entries_of<N: Fn(Vec<u8>) -> Option<u64>>(
    number: &N,
    text: Seq<u8>,
    entries: Seq<Entry>,
) -> bool {
    exists|kinds: Seq<LineKind>| reads_as(number, text, kinds, entries)
}

/// The lines of a text as they read. `number` is handed the text of each
/// number and returns its bit pattern, or `None` where the text is not that
/// of a number.
pub fn read_entries<N: Fn(Vec<u8>) -> Option<u64>>(text: &[u8], number: &N) -> (entries: Vec<
    Entry,
>)
    requires
        forall|t: Vec<u8>| #[trigger] number.requires((t,)),
    ensures
        are_entries_of(number, text@, entries@),
{
    let lines: Vec<Vec<u8>> = split_lines(text);
    let mut entries: Vec<Entry> = Vec::new();
    let ghost mut kinds: Seq<LineKind> = Seq::empty();
    let mut i: usize = 0;
    while i < lines.len()
        invariant
            i <= lines.len(),
            forall|t: Vec<u8>| #[trigger] number.requires((t,)),
            lines.len() == lines_of(text@).len(),
            forall|k: int| 0 <= k < lines.len() ==> (#[trigger] lines[k])@ == lines_of(text@)[k],
            kinds.len() == i,
            entries.len() == i,
            forall|k: int| 0 <= k < i ==> (#[trigger] kinds[k])@ == shape_of(lines_of(text@)[k]),
            forall|k: int| 0 <= k < i ==> is_reading(number, kinds[k], #[trigger] entries[k]),
        decreases lines.len() - i,
    {
        let kind: LineKind = classify_line(lines[i].as_slice());
        let ghost seen = kind;
        let entry: Entry = match kind {
            LineKind::Marker(t) => Entry::Marker(number(t)),
            LineKind::Coordinates(x, y) => {
                let a: Option<u64> = number(x);
                let b: Option<u64> = number(y);
                Entry::Coordinates(a, b)
            },
            _ => Entry::Nothing,
        };
        entries.push(entry);
        proof {
            assert(is_reading(number, seen, entry));
            kinds = kinds.push(seen);
        }
        i += 1;
    }
    proof {
        assert(reads_as(number, text@, kinds, entries@));
    }
    entries
}

/// Whether `r` is what the text of a source parses to: the series of the
/// records that its lines give, or an error where they give none.
pub open spec fn is_parse_of<N: Fn(Vec<u8>) -> Option<u64>>(
    number: &N,
    text: Seq<u8>,
    r: Result<TimeSeries, ParseError>,
) -> bool {
    exists|entries: Seq<Entry>| #[trigger]
        are_entries_of(number, text, entries) && match r {
            Ok(series) => records_of(entries).len() > 0 && series.wf() && series@ == record_map(
                records_of(entries),
            ),
            Err(e) => records_of(entries).len() == 0 && e is NoTimestamps,
        }
}

impl TimeSeries {
    /// The series of a source, from its text. A line that is neither a
    /// marker nor the two coordinates of a point is passed over, and so is
    /// one whose numbers `number` cannot read. A text without a marker gives
    /// no series.
    pub fn parse<N: Fn(Vec<u8>) -> Option<u64>>(text: &[u8], number: &N) -> (r: Result<
        TimeSeries,
        ParseError,
    >)
        requires
            forall|t: Vec<u8>| #[trigger] number.requires((t,)),
        ensures
            is_parse_of(number, text@, r),
    {
        let entries: Vec<Entry> = read_entries(text, number);
        let records: Vec<(Time, DataLine)> = read_datalines(&entries);
        TimeSeries::from_records(records)
    }
}

} // verus!
