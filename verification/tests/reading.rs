use muninn::data::Data;
use muninn::data::ParseError;
use muninn::reader::{
    byte_is_space, classify_line, copy_bytes, read_datalines, read_entries, split_lines, Entry,
    LineKind,
};
use muninn::rank::rank_of_bits;
use muninn::timeseries::TimeSeries;

fn r(x: f64) -> i64 {
    rank_of_bits(x.to_bits()).expect("not a number")
}

fn number(text: Vec<u8>) -> Option<u64> {
    String::from_utf8(text).ok()?.parse::<f64>().ok().map(|v| v.to_bits())
}

fn entries_of(text: &str) -> Vec<Entry> {
    read_entries(text.as_bytes(), &number)
}

#[test]
fn lines_are_split_at_line_ends() {
    assert_eq!(split_lines(b""), Vec::<Vec<u8>>::new());
    assert_eq!(split_lines(b"abc"), vec![b"abc".to_vec()]);
    assert_eq!(split_lines(b"abc\n"), vec![b"abc".to_vec()]);
    assert_eq!(split_lines(b"a\n\nb"), vec![b"a".to_vec(), b"".to_vec(), b"b".to_vec()]);
    assert_eq!(split_lines(b"\n"), vec![b"".to_vec()]);
    assert_eq!(split_lines(b"a\r\nb\r\n"), vec![b"a".to_vec(), b"b".to_vec()]);
    assert_eq!(split_lines(b"a\rb\n"), vec![b"a\rb".to_vec()]);
    assert_eq!(split_lines(b"a\n\r\n"), vec![b"a".to_vec(), b"".to_vec()]);
    // only the carriage return before a line end belongs to it
    assert_eq!(split_lines(b"a\r"), vec![b"a\r".to_vec()]);
    assert_eq!(split_lines(b"a\r\r\n"), vec![b"a\r".to_vec()]);
}

#[test]
fn lines_are_split_as_the_standard_library_splits_them() {
    for text in ["x y\n1 2\r\n\n\"Time = 1\"\nlast", "\n\n", "one", "\r\n\r\n", "a\n"] {
        let expected: Vec<Vec<u8>> = text.lines().map(|l| l.as_bytes().to_vec()).collect();
        assert_eq!(split_lines(text.as_bytes()), expected);
    }
}

#[test]
fn bytes_are_copied_from_a_stretch() {
    assert_eq!(copy_bytes(b"hello", 1, 4), b"ell".to_vec());
    assert_eq!(copy_bytes(b"hello", 0, 5), b"hello".to_vec());
    assert_eq!(copy_bytes(b"hello", 2, 2), Vec::<u8>::new());
}

#[test]
fn spaces_are_the_ascii_white_space() {
    for b in 0..=255u8 {
        assert_eq!(byte_is_space(b), (b as char).is_ascii_whitespace() || b == 11);
    }
}

#[test]
fn marker_line_gives_the_text_of_its_time() {
    assert!(matches!(classify_line(b"\"Time = 1.5\""), LineKind::Marker(t) if t == b"1.5"));
    assert!(matches!(classify_line(b"\"Time = 1.5"), LineKind::Marker(t) if t == b"1.5"));
    assert!(matches!(classify_line(b"\"Time = \"\"2e3\"\"\""), LineKind::Marker(t) if t == b"2e3"));
    assert!(matches!(classify_line(b"\"Time = "), LineKind::Marker(t) if t.is_empty()));
    assert!(matches!(classify_line(b"\"Time = \""), LineKind::Marker(t) if t.is_empty()));
    assert!(matches!(classify_line(b"\"Time = 1 \"x"), LineKind::Marker(t) if t == b"1 \"x"));
}

#[test]
fn other_quoted_line_is_a_comment() {
    assert!(matches!(classify_line(b"\""), LineKind::Comment));
    assert!(matches!(classify_line(b"\"Time =1\""), LineKind::Comment));
    assert!(matches!(classify_line(b"\"time = 1\""), LineKind::Comment));
    assert!(matches!(classify_line(b"\"Time = "[..7].as_ref()), LineKind::Comment));
    assert!(matches!(classify_line(b"\"x\" \"y\""), LineKind::Comment));
}

#[test]
fn coordinate_line_gives_its_first_two_words() {
    assert!(matches!(classify_line(b"1.0 2.0"),
        LineKind::Coordinates(x, y) if x == b"1.0" && y == b"2.0"));
    assert!(matches!(classify_line(b"  1e3\t-2.5   7 8 "),
        LineKind::Coordinates(x, y) if x == b"1e3" && y == b"-2.5"));
    assert!(matches!(classify_line(b"a b"),
        LineKind::Coordinates(x, y) if x == b"a" && y == b"b"));
    assert!(matches!(classify_line(b"1.0 2.0\r"),
        LineKind::Coordinates(x, y) if x == b"1.0" && y == b"2.0"));
}

#[test]
fn line_of_fewer_than_two_words_is_malformed() {
    assert!(matches!(classify_line(b""), LineKind::Blank));
    assert!(matches!(classify_line(b" "), LineKind::Malformed));
    assert!(matches!(classify_line(b"1.0"), LineKind::Malformed));
    assert!(matches!(classify_line(b"  1.0  "), LineKind::Malformed));
    assert!(matches!(classify_line(b"\t\t"), LineKind::Malformed));
}

#[test]
fn records_are_the_blocks_of_a_source() {
    let entries = entries_of(
        "\"Time = 1.0\"\n0 0\n1 1\n\n\"Time = 3.0\"\n0 2\n1 1\n",
    );
    let records = read_datalines(&entries);
    assert_eq!(
        records,
        vec![
            (r(1.0), vec![(r(0.0), r(0.0)), (r(1.0), r(1.0))]),
            (r(3.0), vec![(r(0.0), r(2.0)), (r(1.0), r(1.0))]),
        ]
    );
}

#[test]
fn malformed_lines_are_passed_over() {
    let entries = entries_of(
        "5 5\n\"a title\"\n\"Time = 2\"\n1 2\nx y\n3\nNaN 1\n1 nan\n4 5 6\n\"note\"\n7 8\n9 1e",
    );
    let records = read_datalines(&entries);
    assert_eq!(
        records,
        vec![(r(2.0), vec![(r(1.0), r(2.0)), (r(4.0), r(5.0)), (r(7.0), r(8.0))])]
    );
}

#[test]
fn marker_without_a_time_starts_nothing() {
    let records = read_datalines(&vec![
        Entry::Marker(Some(1.0f64.to_bits())),
        Entry::Coordinates(Some(1.0f64.to_bits()), Some(2.0f64.to_bits())),
        Entry::Marker(None),
        Entry::Coordinates(Some(3.0f64.to_bits()), Some(4.0f64.to_bits())),
        Entry::Marker(Some(f64::NAN.to_bits())),
        Entry::Coordinates(Some(5.0f64.to_bits()), Some(6.0f64.to_bits())),
        Entry::Marker(Some(2.0f64.to_bits())),
        Entry::Nothing,
        Entry::Coordinates(None, Some(6.0f64.to_bits())),
        Entry::Coordinates(Some(7.0f64.to_bits()), Some(8.0f64.to_bits())),
        Entry::Marker(Some(2.0f64.to_bits())),
    ]);
    assert_eq!(
        records,
        vec![
            (r(1.0), vec![(r(1.0), r(2.0))]),
            (r(2.0), vec![(r(7.0), r(8.0))]),
            (r(2.0), Vec::new()),
        ]
    );
}

#[test]
fn source_without_a_marker_gives_no_records() {
    assert!(read_datalines(&entries_of("1 2\n3 4\n")).is_empty());
    assert!(read_datalines(&entries_of("")).is_empty());
    assert!(read_datalines(&Vec::new()).is_empty());
    let r = TimeSeries::from_records(read_datalines(&entries_of("1 2\n\"no time\"\n")));
    assert!(r.is_err());
}

#[test]
fn text_of_two_sources_becomes_a_data_set() {
    let a = read_datalines(&entries_of("\"Time = 0.5\"\n1 1\n\"Time = 1.5\"\n2 2\n"));
    let b = read_datalines(&entries_of("\"Time = 1.0\"\n3 3\n"));
    let c = read_datalines(&entries_of("garbage\n"));
    let (data, rejected) = Data::from_sources(vec![
        (String::from("a"), a),
        (String::from("b"), b),
        (String::from("c"), c),
    ]);
    let data = data.unwrap();
    assert_eq!(data.times(), vec![r(0.5), r(1.0), r(1.5)]);
    assert_eq!(
        data.at_time(r(1.0)).datalines,
        vec![vec![(r(1.0), r(1.0))], vec![(r(3.0), r(3.0))]]
    );
    assert_eq!(rejected.len(), 1);
    assert_eq!(rejected[0].message(), "Not a valid datafile: c");
}

#[test]
fn entries_are_the_lines_as_they_read() {
    let entries = entries_of("\"Time = 1.5\"\n1 2\nx 3\n\n\"note\"\n4\n\"Time = soon\"\n");
    assert_eq!(entries.len(), 7);
    assert!(matches!(entries[0], Entry::Marker(Some(b)) if b == 1.5f64.to_bits()));
    assert!(matches!(entries[1],
        Entry::Coordinates(Some(a), Some(b)) if a == 1.0f64.to_bits() && b == 2.0f64.to_bits()));
    assert!(matches!(entries[2], Entry::Coordinates(None, Some(b)) if b == 3.0f64.to_bits()));
    assert!(matches!(entries[3], Entry::Nothing));
    assert!(matches!(entries[4], Entry::Nothing));
    assert!(matches!(entries[5], Entry::Nothing));
    assert!(matches!(entries[6], Entry::Marker(None)));
}

#[test]
fn series_is_parsed_from_the_text_of_a_source() {
    let text = b"\"Time = 1.0\"\n0 0\n1 1\n\"Time = 3.0\"\n0 2\n1 1\n";
    let series = TimeSeries::parse(text, &number).unwrap();
    let first = vec![(r(0.0), r(0.0)), (r(1.0), r(1.0))];
    let second = vec![(r(0.0), r(2.0)), (r(1.0), r(1.0))];
    assert_eq!(series.times, vec![r(1.0), r(3.0)]);
    assert_eq!(series.at_time(r(2.0)), Some(&first));
    assert_eq!(series.at_time(r(3.5)), None);
    assert_eq!(series.at_time(r(3.0)), Some(&second));
}

#[test]
fn text_without_a_marker_is_no_series() {
    assert!(matches!(TimeSeries::parse(b"", &number), Err(ParseError::NoTimestamps)));
    assert!(matches!(TimeSeries::parse(b"1 2\n3 4\n", &number), Err(ParseError::NoTimestamps)));
    assert!(matches!(
        TimeSeries::parse(b"\"Time = never\"\n1 2\n", &number),
        Err(ParseError::NoTimestamps)
    ));
    assert!(TimeSeries::parse(b"\"Time = 0\"", &number).is_ok());
}

#[test]
fn parsing_does_not_read_numbers_itself() {
    let ones = |_text: Vec<u8>| Some(1.0f64.to_bits());
    let series = TimeSeries::parse(b"\"Time = x\"\na b\n", &ones).unwrap();
    assert_eq!(series.times, vec![r(1.0)]);
    assert_eq!(series.at_time(r(1.0)), Some(&vec![(r(1.0), r(1.0))]));
}
