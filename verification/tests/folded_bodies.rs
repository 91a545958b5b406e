use pyroscope::folded::parse_folded;
use pyroscope::report::Report;
use pyroscope::stack::ReportMetadata;

fn metadata() -> ReportMetadata {
    ReportMetadata {
        tags: vec![],
        sample_rate: 100,
        spy_name: "void".to_string(),
        application_name: "t1".to_string(),
    }
}

fn lines(body: &[u8]) -> Option<Vec<(Vec<u8>, u64)>> {
    parse_folded(body).map(|parsed| parsed.into_iter().map(|l| (l.stack, l.count)).collect())
}

#[test]
fn reading_back_what_was_recorded() {
    let recorded: [(&str, u64); 5] = [
        ("main;handler;parse", 17),
        ("main;handler;render", 4),
        ("main", 1),
        ("operator new;alloc", 1000),
        ("héllo;wörld", u64::MAX),
    ];
    let mut report = Report::new(metadata());
    for (stack, count) in recorded {
        report.record_with_count(stack.to_string(), count).unwrap();
    }
    let body = report.to_folded();
    let expected: Vec<(Vec<u8>, u64)> =
        recorded.iter().map(|(stack, count)| (stack.as_bytes().to_vec(), *count)).collect();
    assert_eq!(lines(&body), Some(expected));
}

#[test]
fn reading_back_an_empty_body() {
    assert_eq!(lines(b""), Some(vec![]));
    assert_eq!(lines(&Report::new(metadata()).to_folded()), Some(vec![]));
}

#[test]
fn reading_lines() {
    assert_eq!(lines(b"a;b;c 5\n"), Some(vec![(b"a;b;c".to_vec(), 5)]));
    assert_eq!(
        lines(b"a;b 4\na;c 2\n"),
        Some(vec![(b"a;b".to_vec(), 4), (b"a;c".to_vec(), 2)])
    );
    assert_eq!(lines(b" 7\n"), Some(vec![(b"".to_vec(), 7)]));
    assert_eq!(lines(b"a b 007\n"), Some(vec![(b"a b".to_vec(), 7)]));
    assert_eq!(
        lines(b"x 18446744073709551615\n"),
        Some(vec![(b"x".to_vec(), u64::MAX)])
    );
}

#[test]
fn bodies_that_are_not_folded_text_are_refused() {
    assert_eq!(lines(b"a;b 4"), None);
    assert_eq!(lines(b"a;b 4\na;c 2"), None);
    assert_eq!(lines(b"\n"), None);
    assert_eq!(lines(b"a;b\n"), None);
    assert_eq!(lines(b"a;b \n"), None);
    assert_eq!(lines(b"a;b 4x\n"), None);
    assert_eq!(lines(b"a;b -4\n"), None);
    assert_eq!(lines(b"a;b 4 \n"), None);
    assert_eq!(lines(b"a;b 4\n\n"), None);
    assert_eq!(lines(b"x 18446744073709551616\n"), None);
    assert_eq!(lines(b"x 99999999999999999999999\n"), None);
}

#[test]
fn a_newline_inside_a_stack_breaks_the_round_trip() {
    let mut report = Report::new(metadata());
    report.record_with_count("a\nb".to_string(), 1).unwrap();
    assert_eq!(lines(&report.to_folded()), None);
}
