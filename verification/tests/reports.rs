use pyroscope::buffer::ReportBuffer;
use pyroscope::error::{ConfigField, ConfigReason, PyroscopeError, SerializationReason};
use pyroscope::report::{Report, ReportEncoding};
use pyroscope::stack::{FrameOrder, ReportMetadata, StackFrame, StackTrace};
use pyroscope::tags::Tag;

fn metadata(tags: &[(&str, &str)]) -> ReportMetadata {
    ReportMetadata {
        tags: tags.iter().map(|(k, v)| Tag::new(k, v)).collect(),
        sample_rate: 100,
        spy_name: "void".to_string(),
        application_name: "t1".to_string(),
    }
}

fn frame(name: &str) -> StackFrame {
    StackFrame {
        module: None,
        function_name: Some(name.to_string()),
        short_filename: None,
        absolute_path: None,
        relative_path: None,
        line: None,
    }
}

fn trace_with(names: &[&str], tags: &[(&str, &str)]) -> StackTrace {
    StackTrace {
        pid: Some(1),
        thread_id: Some(2),
        thread_name: None,
        frames: names.iter().map(|n| frame(n)).collect(),
        order: FrameOrder::OutermostFirst,
        metadata: metadata(tags),
    }
}

fn trace(names: &[&str]) -> StackTrace {
    trace_with(names, &[])
}

fn overflow() -> PyroscopeError {
    PyroscopeError::Serialization { cause: SerializationReason::CountOverflow }
}

fn mismatch() -> PyroscopeError {
    PyroscopeError::InvalidConfig { field: ConfigField::Metadata, reason: ConfigReason::Mismatch }
}

#[test]
fn folding_joins_names_from_caller_to_callee() {
    assert_eq!(trace(&["a", "b", "c"]).fold(), "a;b;c");
    assert_eq!(trace(&["main"]).fold(), "main");
    assert_eq!(trace(&[]).fold(), "");
}

#[test]
fn folding_reverses_traces_listed_innermost_first() {
    let mut t = trace(&["c", "b", "a"]);
    t.order = FrameOrder::InnermostFirst;
    assert_eq!(t.fold(), "a;b;c");
}

#[test]
fn a_frame_without_a_name_folds_to_an_empty_name() {
    let mut t = trace(&["a", "b", "c"]);
    t.frames[1].function_name = None;
    assert_eq!(t.fold(), "a;;c");
    t.frames[0].function_name = None;
    assert_eq!(t.fold(), ";;c");
}

#[test]
fn single_trace_recorded_five_times() {
    let mut report = Report::new(metadata(&[]));
    for _ in 0..5 {
        assert_eq!(report.record(&trace(&["a", "b", "c"])), Ok(()));
    }
    assert_eq!(report.serialize(ReportEncoding::Folded, &[]), b"a;b;c 5\n".to_vec());
    assert_eq!(report.count("a;b;c"), 5);
    assert_eq!(report.len(), 1);
}

#[test]
fn merged_counts() {
    let mut report = Report::new(metadata(&[]));
    for _ in 0..3 {
        report.record(&trace(&["a", "b"])).unwrap();
    }
    for _ in 0..2 {
        report.record(&trace(&["a", "c"])).unwrap();
    }
    report.record(&trace(&["a", "b"])).unwrap();
    let body = String::from_utf8(report.to_folded()).unwrap();
    let mut lines: Vec<&str> = body.lines().collect();
    lines.sort();
    assert_eq!(lines, vec!["a;b 4", "a;c 2"]);
    assert_eq!(body, "a;b 4\na;c 2\n");
    assert_eq!(report.count("a;b"), 4);
    assert_eq!(report.count("a;c"), 2);
    assert_eq!(report.count("a"), 0);
}

#[test]
fn an_empty_report_has_an_empty_body() {
    let report = Report::new(metadata(&[]));
    assert!(report.is_empty());
    assert_eq!(report.to_folded(), Vec::<u8>::new());
}

#[test]
fn lines_have_no_surrounding_whitespace() {
    let mut report = Report::new(metadata(&[]));
    report.record_with_count("x;y".to_string(), 12).unwrap();
    report.record_with_count("z".to_string(), 1).unwrap();
    let body = String::from_utf8(report.to_folded()).unwrap();
    assert!(body.ends_with('\n'));
    for line in body.lines() {
        assert_eq!(line, line.trim());
    }
    assert_eq!(body, "x;y 12\nz 1\n");
}

#[test]
fn recording_a_count_of_zero_changes_nothing() {
    let mut report = Report::new(metadata(&[]));
    assert_eq!(report.record_with_count("a".to_string(), 0), Ok(()));
    assert!(report.is_empty());
    report.record_with_count("a".to_string(), 2).unwrap();
    assert_eq!(report.record_with_count("a".to_string(), 0), Ok(()));
    assert_eq!(report.count("a"), 2);
}

#[test]
fn a_counter_does_not_wrap() {
    let mut report = Report::new(metadata(&[]));
    report.record_with_count("a".to_string(), u64::MAX - 1).unwrap();
    assert_eq!(report.record_with_count("a".to_string(), 2), Err(overflow()));
    assert_eq!(report.count("a"), u64::MAX - 1);
    assert_eq!(report.record_with_count("a".to_string(), 1), Ok(()));
    assert_eq!(report.count("a"), u64::MAX);
    let t = StackTrace { frames: vec![frame("a")], ..trace(&[]) };
    assert_eq!(report.record(&t), Err(overflow()));
    assert_eq!(report.count("a"), u64::MAX);
    assert_eq!(report.to_folded(), b"a 18446744073709551615\n".to_vec());
}

#[test]
fn recording_under_another_metadata_is_refused() {
    let mut report = Report::new(metadata(&[("env", "prod")]));
    assert_eq!(report.record(&trace_with(&["a"], &[("env", "dev")])), Err(mismatch()));
    assert_eq!(report.record(&trace(&["a"])), Err(mismatch()));
    assert!(report.is_empty());
    assert_eq!(report.record(&trace_with(&["a"], &[("env", "prod")])), Ok(()));
    assert_eq!(report.count("a"), 1);
}

#[test]
fn metadata_are_equal_whatever_the_order_of_their_tags() {
    let a = metadata(&[("env", "prod"), ("region", "eu")]);
    let b = metadata(&[("region", "eu"), ("env", "prod")]);
    assert!(a.same(&b));
    assert!(b.same(&a));
    assert!(!a.same(&metadata(&[("env", "prod")])));
    assert!(!a.same(&metadata(&[("env", "prod"), ("region", "us")])));
    let mut c = metadata(&[("env", "prod"), ("region", "eu")]);
    c.sample_rate = 50;
    assert!(!a.same(&c));
    let mut d = a.duplicate();
    assert!(a.same(&d));
    d.spy_name = "other".to_string();
    assert!(!a.same(&d));
    let mut e = a.duplicate();
    e.application_name = "t2".to_string();
    assert!(!a.same(&e));
}

#[test]
fn merge_adds_the_counts_stack_by_stack() {
    let mut left = Report::new(metadata(&[]));
    left.record_with_count("a;b".to_string(), 3).unwrap();
    left.record_with_count("a;c".to_string(), 2).unwrap();
    let mut right = Report::new(metadata(&[]));
    right.record_with_count("a;d".to_string(), 7).unwrap();
    right.record_with_count("a;b".to_string(), 1).unwrap();
    assert_eq!(left.merge(&right), Ok(()));
    assert_eq!(left.to_folded(), b"a;b 4\na;c 2\na;d 7\n".to_vec());
    assert_eq!(right.to_folded(), b"a;d 7\na;b 1\n".to_vec());
}

#[test]
fn merge_refuses_another_metadata_and_overflow() {
    let mut left = Report::new(metadata(&[]));
    left.record_with_count("a".to_string(), 1).unwrap();
    left.record_with_count("b".to_string(), u64::MAX).unwrap();
    let mut other = Report::new(metadata(&[("env", "prod")]));
    other.record_with_count("a".to_string(), 1).unwrap();
    assert_eq!(left.merge(&other), Err(mismatch()));
    let mut right = Report::new(metadata(&[]));
    right.record_with_count("a".to_string(), 5).unwrap();
    right.record_with_count("b".to_string(), 1).unwrap();
    assert_eq!(left.merge(&right), Err(overflow()));
    assert_eq!(left.count("a"), 1);
    assert_eq!(left.count("b"), u64::MAX);
}

#[test]
fn clear_empties_the_report_and_keeps_the_metadata() {
    let mut report = Report::new(metadata(&[("env", "prod")]));
    report.record_with_count("a".to_string(), 1).unwrap();
    report.clear();
    assert!(report.is_empty());
    assert_eq!(report.metadata().tags.len(), 1);
    assert_eq!(report.metadata().tags[0].key, "env");
    let copy = report.duplicate();
    assert!(copy.is_empty());
}

#[test]
fn the_profile_format_is_handed_on_as_the_encoder_made_it() {
    let mut report = Report::new(metadata(&[]));
    report.record_with_count("a".to_string(), 1).unwrap();
    let profile = vec![10u8, 2, 8, 1, 0, 255];
    assert_eq!(report.serialize(ReportEncoding::Pprof, &profile), profile);
    assert_eq!(report.serialize(ReportEncoding::Pprof, &[]), Vec::<u8>::new());
    assert_eq!(report.serialize(ReportEncoding::Folded, &profile), b"a 1\n".to_vec());
}

#[test]
fn the_buffer_keeps_one_report_per_metadata() {
    let mut buffer = ReportBuffer::new();
    assert!(buffer.is_empty());
    buffer.record(&trace_with(&["a"], &[("env", "prod"), ("region", "eu")])).unwrap();
    buffer.record(&trace_with(&["b"], &[("env", "dev")])).unwrap();
    buffer.record(&trace_with(&["a"], &[("region", "eu"), ("env", "prod")])).unwrap();
    buffer.record(&trace_with(&["a"], &[("env", "dev")])).unwrap();
    assert!(!buffer.is_empty());
    let reports = buffer.drain();
    assert_eq!(reports.len(), 2);
    assert_eq!(reports[0].to_folded(), b"a 2\n".to_vec());
    assert_eq!(reports[0].metadata().tags.len(), 2);
    assert_eq!(reports[1].to_folded(), b"b 1\na 1\n".to_vec());
    assert_eq!(reports[1].metadata().tags[0].value, "dev");
}

#[test]
fn every_sample_between_two_drains_is_counted_once() {
    let mut buffer = ReportBuffer::new();
    let first = ["a;b", "a;c", "a;b", "x", "a;b"];
    for stack in first {
        let names: Vec<&str> = stack.split(';').collect();
        buffer.record(&trace(&names)).unwrap();
    }
    let drained = buffer.drain();
    assert_eq!(drained.len(), 1);
    assert_eq!(drained[0].count("a;b"), 3);
    assert_eq!(drained[0].count("a;c"), 1);
    assert_eq!(drained[0].count("x"), 1);
    assert!(buffer.is_empty());
    assert!(buffer.drain().is_empty());
    buffer.record(&trace(&["a", "b"])).unwrap();
    let drained = buffer.drain();
    assert_eq!(drained.len(), 1);
    assert_eq!(drained[0].count("a;b"), 1);
    assert_eq!(drained[0].count("a;c"), 0);
}
