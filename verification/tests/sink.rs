use beamium::batch::{payload, relabel_into};
use beamium::sink::{Sink, SinkError};

fn sink(name: &str, selector: Option<&str>) -> Sink {
    Sink::new(String::from(name), selector.map(String::from)).unwrap()
}

#[test]
fn sink_keeps_name_and_selector() {
    let s = sink("warp", Some("^foo"));
    assert_eq!(s.name(), "warp");
    assert_eq!(s.selector(), Some("^foo"));
    let s = sink("warp", None);
    assert_eq!(s.selector(), None);
}

#[test]
fn sink_refuses_a_selector_that_does_not_compile() {
    assert_eq!(Sink::new(String::from("warp"), Some(String::from("foo(bar"))).err(),
        Some(SinkError::BadSelector));
    assert_eq!(Sink::new(String::from("warp"), Some(String::from("["))).err(),
        Some(SinkError::BadSelector));
    assert!(Sink::new(String::from("warp"), Some(String::new())).is_ok());
}

#[test]
fn sink_without_selector_excludes_nothing() {
    let s = sink("all", None);
    assert!(!s.excludes("1 foo 5"));
    assert!(!s.excludes("foo{} 5"));
    assert!(!s.excludes(""));
}

#[test]
fn selector_is_tested_against_the_second_token() {
    let s = sink("nofoo", Some("^foo$"));
    assert!(s.excludes("1500 foo 5"));
    assert!(s.excludes("  1500\tfoo\t5"));
    assert!(!s.excludes("foo 1500 5"));
    assert!(!s.excludes("1500 bar foo"));
    assert!(!s.excludes("1500 foobar 5"));
    assert!(!s.excludes("foo"));
    assert!(!s.excludes(""));
}

#[test]
fn selector_matches_anywhere_in_the_token() {
    let s = sink("nocpu", Some("cpu"));
    assert!(s.excludes("1500// node.cpu.idle{host=a} 5"));
    assert!(!s.excludes("1500// node.mem.free{host=a} 5"));
    assert!(!s.excludes("cpu other 5"));
}

#[test]
fn selector_is_not_echoed() {
    let s = sink("s", Some("a+b"));
    assert!(s.excludes("x aaab y"));
    assert!(!s.excludes("x a+b y"));
}

#[test]
fn payload_leaves_out_what_the_selector_matches() {
    let lines = vec![
        String::from("1 foo 5"),
        String::from("2 bar 6"),
        String::from("3 foo 7"),
        String::from("4 foobar 8"),
        String::from("foo"),
    ];
    assert_eq!(payload(&lines, &sink("nofoo", Some("^foo$"))), "2 bar 6\n4 foobar 8\nfoo\n");
    assert_eq!(payload(&lines, &sink("all", None)), "1 foo 5\n2 bar 6\n3 foo 7\n4 foobar 8\nfoo\n");
    assert_eq!(payload(&lines, &sink("none", Some(""))), "foo\n");
    assert_eq!(payload(&Vec::new(), &sink("all", None)), "");
}

#[test]
fn relabel_into_appends_relabelled_lines() {
    let mut out = vec![String::from("kept")];
    let mut dropped = vec![String::from("old")];
    relabel_into(&mut out, &mut dropped, "foo{} 1\n\nbroken 2\r\nbar{a=b} 3", "env=prod");
    assert_eq!(out, vec!["kept", "foo{env=prod} 1", "bar{env=prod,a=b} 3"]);
    assert_eq!(dropped, vec!["old", "broken 2"]);
}

#[test]
fn relabel_into_without_labels_keeps_lines_that_are_not_empty() {
    let mut out = Vec::new();
    let mut dropped = Vec::new();
    relabel_into(&mut out, &mut dropped, "foo{} 1\n\nbroken 2\n", "");
    assert_eq!(out, vec!["foo{} 1", "broken 2"]);
    assert!(dropped.is_empty());
}
