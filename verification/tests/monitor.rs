use copernica::monitor::plain_ext::{parse_whole_part, split_fields, GraphVizPlainExt, PlainExtError};
use copernica::text::{parse_unsigned, splitn3};

fn fields(s: &str) -> Vec<String> {
    split_fields(s)
}

#[test]
fn split_keeps_empty_fields() {
    assert_eq!(fields("a b"), vec!["a", "b"]);
    assert_eq!(fields("a  b "), vec!["a", "", "b", ""]);
    assert_eq!(fields(""), vec![""]);
}

#[test]
fn whole_parts_of_decimals() {
    assert_eq!(parse_whole_part("0"), Some(0));
    assert_eq!(parse_whole_part("+17"), Some(17));
    assert_eq!(parse_whole_part("4294967295"), Some(4294967295));
    assert_eq!(parse_whole_part("4294967296"), None);
    assert_eq!(parse_whole_part("4294967295.99"), Some(4294967295));
    assert_eq!(parse_whole_part("0.84028"), Some(0));
    assert_eq!(parse_whole_part("1.6806"), Some(1));
    assert_eq!(parse_whole_part("12.5"), Some(12));
    assert_eq!(parse_whole_part("3."), Some(3));
    assert_eq!(parse_whole_part(".5"), Some(0));
    assert_eq!(parse_whole_part("+.5"), Some(0));
    assert_eq!(parse_whole_part(""), None);
    assert_eq!(parse_whole_part("+"), None);
    assert_eq!(parse_whole_part("."), None);
    assert_eq!(parse_whole_part("1.2.3"), None);
    assert_eq!(parse_whole_part("++1"), None);
    assert_eq!(parse_whole_part("-1"), None);
    assert_eq!(parse_whole_part(" 1"), None);
    assert_eq!(parse_whole_part("1e3"), None);
}

#[test]
fn parse_u64_bounds() {
    assert_eq!(parse_unsigned("18446744073709551615", u64::MAX), Some(u64::MAX));
    assert_eq!(parse_unsigned("18446744073709551616", u64::MAX), None);
    assert_eq!(parse_unsigned("99999999999999999999999", u64::MAX), None);
}

#[test]
fn splitn3_cuts_at_the_first_two_separators() {
    assert_eq!(splitn3("a"), vec!["a"]);
    assert_eq!(splitn3("a::b"), vec!["a", "b"]);
    assert_eq!(splitn3("a::b::c::d"), vec!["a", "b", "c::d"]);
    assert_eq!(splitn3(":::"), vec!["", ":"]);
    assert_eq!(splitn3("::"), vec!["", ""]);
}

#[test]
fn node_lines_are_read() {
    let line = "node n1 1 2 30 40 echo solid record black lightgrey";
    let e = fields(line);
    match GraphVizPlainExt::node_from_fields(&e).unwrap() {
        GraphVizPlainExt::Node { name, x, y, width, height, label, style, shape, color, fillcolor } => {
            assert_eq!(name, "n1");
            assert_eq!((x, y, width, height), (1, 2, 30, 40));
            assert_eq!(label, "echo");
            assert_eq!(style, "solid");
            assert_eq!(shape, "record");
            assert_eq!(color, "black");
            assert_eq!(fillcolor, "lightgrey");
        },
        _ => panic!("expected a node"),
    }
}

#[test]
fn documented_node_line_is_read() {
    let line = "node id1z6pks9fdd6r3x6nmzzrkjc7pt50r7uhhxg0cevtfr53k284ja6yjpyhdmwjkpk75fhlz4p5murndq2am8q9hw24u8x4x3nvkp3vmcsse6kvn2 0.84028 0.32639 1.6806 0.51389 echo_protocol0 solid record black lightgrey";
    match GraphVizPlainExt::node_from_fields(&fields(line)).unwrap() {
        GraphVizPlainExt::Node { name, x, y, width, height, label, style, shape, color, fillcolor } => {
            assert_eq!(name, "id1z6pks9fdd6r3x6nmzzrkjc7pt50r7uhhxg0cevtfr53k284ja6yjpyhdmwjkpk75fhlz4p5murndq2am8q9hw24u8x4x3nvkp3vmcsse6kvn2");
            assert_eq!((x, y, width, height), (0, 0, 1, 0));
            assert_eq!(label, "echo_protocol0");
            assert_eq!(style, "solid");
            assert_eq!(shape, "record");
            assert_eq!(color, "black");
            assert_eq!(fillcolor, "lightgrey");
        },
        _ => panic!("expected a node"),
    }
}

#[test]
fn node_lines_with_words_for_numbers_are_refused() {
    let line = "node n1 a 2 30 40 echo solid record black lightgrey";
    assert!(matches!(GraphVizPlainExt::node_from_fields(&fields(line)), Err(PlainExtError::InvalidNumber)));
}

use copernica::monitor::tally::{Expected, LogEntry, TallyError, TallyStep};

fn reg(l: &str) -> LogEntry {
    LogEntry::Register { label: l.to_string() }
}

fn msg(l: &str) -> LogEntry {
    LogEntry::Message { label: l.to_string() }
}

#[test]
fn a_log_as_expected_ends_done() {
    let mut e = Expected::new(vec![(reg("link0"), 1), (msg("link0"), 2)]);
    assert_eq!(e.record(&msg("link0")).unwrap(), TallyStep::Continue);
    assert_eq!(e.record(&reg("link0")).unwrap(), TallyStep::Continue);
    assert_eq!(e.record(&msg("link0")).unwrap(), TallyStep::Continue);
    assert_eq!(e.record(&LogEntry::End).unwrap(), TallyStep::Done);
}

#[test]
fn an_unexpected_event_is_refused() {
    let mut e = Expected::new(vec![(reg("link0"), 1)]);
    match e.record(&msg("link0")) {
        Err(TallyError::NotExpected(LogEntry::Message { label })) => assert_eq!(label, "link0"),
        other => panic!("unexpected {:?}", other),
    }
    match e.record(&reg("link1")) {
        Err(TallyError::NotExpected(_)) => {},
        other => panic!("unexpected {:?}", other),
    }
}

#[test]
fn counts_that_are_off_are_listed() {
    let mut e = Expected::new(vec![(reg("a"), 1), (msg("b"), 3), (msg("c"), 1)]);
    e.record(&reg("a")).unwrap();
    e.record(&msg("b")).unwrap();
    e.record(&msg("c")).unwrap();
    e.record(&msg("c")).unwrap();
    match e.record(&LogEntry::End) {
        Err(TallyError::Corrections(c)) => {
            assert_eq!(c.len(), 2);
            assert!(matches!(&c[0].0, LogEntry::Message { label } if label == "b"));
            assert_eq!(c[0].1, 1);
            assert!(matches!(&c[1].0, LogEntry::Message { label } if label == "c"));
            assert_eq!(c[1].1, 2);
        },
        other => panic!("unexpected {:?}", other),
    }
}
