use beamium::router::{Action, Event, Phase, Router};
use beamium::sink::Sink;
use std::collections::BTreeMap;

/// The two staging directories, held in memory.
struct Disk {
    source: BTreeMap<String, Option<String>>,
    sink: BTreeMap<String, String>,
    fail_rename: Option<usize>,
    fail_listing: bool,
    log: Vec<Action>,
}

fn disk(files: &[(&str, Option<&str>)]) -> Disk {
    let mut source = BTreeMap::new();
    for (name, text) in files {
        source.insert(String::from(*name), text.map(String::from));
    }
    Disk { source, sink: BTreeMap::new(), fail_rename: None, fail_listing: false, log: Vec::new() }
}

fn sinks(list: &[(&str, Option<&str>)]) -> Vec<Sink> {
    list.iter()
        .map(|(name, selector)| Sink::new(String::from(*name), selector.map(String::from)).unwrap())
        .collect()
}

fn labels(list: &[(&str, &str)]) -> Vec<(String, String)> {
    list.iter().map(|(k, v)| (String::from(*k), String::from(*v))).collect()
}

/// Runs one cycle against the disk, with the clock standing at `now`.
fn cycle(router: &mut Router, disk: &mut Disk, now: i64) -> bool {
    let mut action = router.begin();
    loop {
        disk.log.push(action);
        let event = match action {
            Action::List => {
                if disk.fail_listing {
                    Event::Failed
                } else {
                    Event::Listed(disk.source.keys().cloned().collect())
                }
            }
            Action::Read { entry } => {
                let name = router.entry(entry).unwrap();
                match disk.source.get(name).unwrap() {
                    Some(text) => Event::Content(text.clone()),
                    None => Event::Failed,
                }
            }
            Action::Create { sink } => {
                disk.sink.insert(router.pending_name(sink).unwrap(), String::new());
                Event::Done
            }
            Action::Write { sink } => {
                let text = router.payload(sink).unwrap();
                disk.sink.get_mut(&router.pending_name(sink).unwrap()).unwrap().push_str(&text);
                Event::Done
            }
            Action::Flush { sink } => {
                assert!(disk.sink.contains_key(&router.pending_name(sink).unwrap()));
                Event::Done
            }
            Action::Rename { sink, stamp } => {
                if disk.fail_rename == Some(sink) {
                    Event::Failed
                } else {
                    let text = disk.sink.remove(&router.pending_name(sink).unwrap()).unwrap();
                    disk.sink.insert(router.committed_name(sink, stamp).unwrap(), text);
                    Event::Done
                }
            }
            Action::Remove { entry } => {
                let name = String::from(router.entry(entry).unwrap());
                assert!(disk.source.remove(&name).is_some());
                Event::Done
            }
            Action::Finish { ok } => return ok,
        };
        action = router.advance(event, now);
    }
}

fn names(map: &BTreeMap<String, String>) -> Vec<&str> {
    map.keys().map(|k| k.as_str()).collect()
}

#[test]
fn empty_source_is_a_no_op() {
    let mut router = Router::new(sinks(&[("a", None), ("b", None)]), &labels(&[("env", "prod")]), 10, 1000);
    let mut d = disk(&[]);
    assert!(cycle(&mut router, &mut d, 7));
    assert_eq!(d.log, vec![Action::List, Action::Finish { ok: true }]);
    assert!(d.sink.is_empty());
    assert!(d.source.is_empty());
}

#[test]
fn other_files_are_left_alone() {
    let mut router = Router::new(sinks(&[("a", None)]), &Vec::new(), 10, 1000);
    let mut d = disk(&[("x.tmp", Some("foo{} 1\n")), (".metrics", Some("foo{} 1\n")), ("notes", None)]);
    assert!(cycle(&mut router, &mut d, 7));
    assert_eq!(d.log, vec![Action::List, Action::Finish { ok: true }]);
    assert_eq!(d.source.len(), 3);
    assert!(d.sink.is_empty());
}

#[test]
fn file_count_is_passed_by_one_file() {
    let n: u64 = 3;
    let mut router = Router::new(sinks(&[("a", None)]), &Vec::new(), n, 1_000_000);
    let mut d = disk(&[
        ("f0.metrics", Some("m{} 0\n")),
        ("f1.metrics", Some("m{} 1\n")),
        ("f2.metrics", Some("m{} 2\n")),
        ("f3.metrics", Some("m{} 3\n")),
        ("f4.metrics", Some("m{} 4\n")),
    ]);
    let mut action = router.begin();
    let mut reads = 0;
    loop {
        let event = match action {
            Action::List => Event::Listed(d.source.keys().cloned().collect()),
            Action::Read { entry } => {
                assert_eq!(entry, reads);
                reads += 1;
                Event::Content(d.source.get(router.entry(entry).unwrap()).unwrap().clone().unwrap())
            }
            _ => break,
        };
        action = router.advance(event, 0);
    }
    assert_eq!(reads, 4);
    assert_eq!(router.batch_len(), 4);
    assert_eq!(action, Action::Create { sink: 0 });
    assert_eq!(router.phase(), Phase::Creating(0));
    assert_eq!(router.payload(0).unwrap(), "m{} 0\nm{} 1\nm{} 2\nm{} 3\n");
    d.log.clear();
}

#[test]
fn backlog_is_drained_in_iterations() {
    let mut router = Router::new(sinks(&[("a", None)]), &Vec::new(), 1, 1_000_000);
    let mut d = disk(&[
        ("f0.metrics", Some("m{} 0\n")),
        ("f1.metrics", Some("m{} 1\n")),
        ("f2.metrics", Some("m{} 2\n")),
    ]);
    assert!(cycle(&mut router, &mut d, 42));
    assert!(d.source.is_empty());
    assert_eq!(names(&d.sink), vec!["a-42.metrics"]);
    assert_eq!(d.log.iter().filter(|a| **a == Action::List).count(), 3);
    assert_eq!(d.log.iter().filter(|a| matches!(a, Action::Remove { .. })).count(), 3);
}

#[test]
fn other_entries_do_not_count_for_the_file_count() {
    let mut router = Router::new(sinks(&[("a", None)]), &Vec::new(), 1, 1_000_000);
    let mut d = disk(&[
        ("a.txt", None),
        ("b.txt", None),
        ("c.metrics", Some("m{} 0\n")),
    ]);
    assert!(cycle(&mut router, &mut d, 42));
    assert_eq!(
        d.log,
        vec![
            Action::List,
            Action::Read { entry: 2 },
            Action::Create { sink: 0 },
            Action::Write { sink: 0 },
            Action::Flush { sink: 0 },
            Action::Rename { sink: 0, stamp: 42 },
            Action::Remove { entry: 2 },
            Action::List,
            Action::Finish { ok: true },
        ]
    );
    assert_eq!(d.source.keys().map(|k| k.as_str()).collect::<Vec<_>>(), vec!["a.txt", "b.txt"]);
    assert_eq!(d.sink["a-42.metrics"], "m{} 0\n");
}

#[test]
fn unreadable_files_do_not_count_for_the_file_count() {
    let mut router = Router::new(sinks(&[("a", None)]), &Vec::new(), 0, 1_000_000);
    let mut d = disk(&[("a.metrics", None), ("b.metrics", Some("m{} 1\n")), ("c.metrics", Some("m{} 2\n"))]);
    assert!(cycle(&mut router, &mut d, 42));
    assert_eq!(d.source.keys().map(|k| k.as_str()).collect::<Vec<_>>(), vec!["a.metrics"]);
    assert_eq!(d.sink["a-42.metrics"], "m{} 2\n");
    assert_eq!(d.log.iter().filter(|a| **a == Action::List).count(), 3);
    assert_eq!(d.log.last(), Some(&Action::Finish { ok: true }));
}

#[test]
fn mixed_backlog_is_drained() {
    let mut router = Router::new(sinks(&[("a", None)]), &Vec::new(), 1, 8);
    let mut d = disk(&[
        ("00.txt", Some("x")),
        ("01.metrics", None),
        ("02.metrics", Some("m{} 2\n")),
        ("03", None),
        ("04.metrics", Some("m{} 4\n")),
        ("05.metrics", None),
        ("06.tmp", Some("y")),
        ("07.metrics", Some("m{} 7\n")),
        ("08.metrics", Some("m{} 8\n")),
        ("09.metrics", Some("m{} 9\n")),
    ]);
    assert!(cycle(&mut router, &mut d, 1));
    assert_eq!(
        d.source.keys().map(|k| k.as_str()).collect::<Vec<_>>(),
        vec!["00.txt", "01.metrics", "03", "05.metrics", "06.tmp"]
    );
    assert_eq!(d.source["00.txt"], Some(String::from("x")));
    assert_eq!(d.source["06.tmp"], Some(String::from("y")));
    assert_eq!(d.log.iter().filter(|a| matches!(a, Action::Remove { .. })).count(), 5);
}

#[test]
fn byte_size_is_passed_by_one_file() {
    let mut router = Router::new(sinks(&[("a", None)]), &Vec::new(), 100, 10);
    let mut d = disk(&[
        ("f0.metrics", Some("m{} 0\n")),
        ("f1.metrics", Some("m{} 1\n")),
        ("f2.metrics", Some("m{} 2\n")),
        ("f3.metrics", Some("m{} 3\n")),
    ]);
    let mut action = router.begin();
    let mut reads = 0;
    loop {
        let event = match action {
            Action::List => Event::Listed(d.source.keys().cloned().collect()),
            Action::Read { entry } => {
                reads += 1;
                Event::Content(d.source.get(router.entry(entry).unwrap()).unwrap().clone().unwrap())
            }
            _ => break,
        };
        action = router.advance(event, 0);
    }
    assert_eq!(reads, 2);
    assert_eq!(router.batch_len(), 2);
    d.log.clear();
}

#[test]
fn byte_size_counts_bytes_not_characters() {
    let mut router = Router::new(sinks(&[("a", None)]), &Vec::new(), 100, 5);
    let mut d = disk(&[
        ("f0.metrics", Some("éé{}\n")),
        ("f1.metrics", Some("m{} 1\n")),
    ]);
    assert_eq!(router.begin(), Action::List);
    let listed = Event::Listed(d.source.keys().cloned().collect());
    assert_eq!(router.advance(listed, 0), Action::Read { entry: 0 });
    let text = String::from("éé{}\n");
    assert_eq!(text.chars().count(), 5);
    assert_eq!(router.advance(Event::Content(text), 0), Action::Create { sink: 0 });
    d.log.clear();
}

#[test]
fn commit_is_atomic() {
    let mut router = Router::new(
        sinks(&[("warp", None), ("backup", None)]),
        &labels(&[("env", "prod")]),
        10,
        1_000_000,
    );
    let mut d = disk(&[
        ("s1.metrics", Some("foo{} 1\n")),
        ("s2.metrics", Some("bar{a=b} 2\n")),
        ("s3.metrics", Some("baz{} 3")),
    ]);
    assert!(cycle(&mut router, &mut d, 1500000000));
    assert!(d.source.is_empty());
    assert_eq!(names(&d.sink), vec!["backup-1500000000.metrics", "warp-1500000000.metrics"]);
    let expected = "foo{env=prod} 1\nbar{env=prod,a=b} 2\nbaz{env=prod} 3\n";
    assert_eq!(d.sink["warp-1500000000.metrics"], expected);
    assert_eq!(d.sink["backup-1500000000.metrics"], expected);
    assert_eq!(
        d.log,
        vec![
            Action::List,
            Action::Read { entry: 0 },
            Action::Read { entry: 1 },
            Action::Read { entry: 2 },
            Action::Create { sink: 0 },
            Action::Create { sink: 1 },
            Action::Write { sink: 0 },
            Action::Write { sink: 1 },
            Action::Flush { sink: 0 },
            Action::Flush { sink: 1 },
            Action::Rename { sink: 0, stamp: 1500000000 },
            Action::Rename { sink: 1, stamp: 1500000000 },
            Action::Remove { entry: 0 },
            Action::Remove { entry: 1 },
            Action::Remove { entry: 2 },
            Action::List,
            Action::Finish { ok: true },
        ]
    );
}

#[test]
fn failed_rename_keeps_the_source() {
    let mut router = Router::new(
        sinks(&[("warp", None), ("backup", None)]),
        &labels(&[("env", "prod")]),
        10,
        1_000_000,
    );
    let mut d = disk(&[("s1.metrics", Some("foo{} 1\n")), ("s2.metrics", Some("bar{} 2\n"))]);
    d.fail_rename = Some(1);
    assert!(!cycle(&mut router, &mut d, 100));
    assert_eq!(d.source.len(), 2);
    assert!(!d.log.iter().any(|a| matches!(a, Action::Remove { .. })));
    assert_eq!(d.log.last(), Some(&Action::Finish { ok: false }));
    assert_eq!(router.phase(), Phase::Finished(false));
    assert_eq!(names(&d.sink), vec!["backup.tmp", "warp-100.metrics"]);
    let first = d.sink["warp-100.metrics"].clone();

    d.fail_rename = None;
    d.log.clear();
    assert!(cycle(&mut router, &mut d, 200));
    assert!(d.source.is_empty());
    assert_eq!(names(&d.sink), vec!["backup-200.metrics", "warp-100.metrics", "warp-200.metrics"]);
    assert_eq!(d.sink["warp-200.metrics"], first);
    assert_eq!(d.sink["backup-200.metrics"], first);
}

#[test]
fn failed_rename_of_the_first_sink_commits_nothing() {
    let mut router = Router::new(sinks(&[("warp", None), ("backup", None)]), &Vec::new(), 10, 1000);
    let mut d = disk(&[("s1.metrics", Some("foo{} 1\n"))]);
    d.fail_rename = Some(0);
    assert!(!cycle(&mut router, &mut d, 100));
    assert_eq!(d.source.len(), 1);
    assert_eq!(names(&d.sink), vec!["backup.tmp", "warp.tmp"]);
}

#[test]
fn failed_listing_ends_the_cycle() {
    let mut router = Router::new(sinks(&[("warp", None)]), &Vec::new(), 10, 1000);
    let mut d = disk(&[("s1.metrics", Some("foo{} 1\n"))]);
    d.fail_listing = true;
    assert!(!cycle(&mut router, &mut d, 100));
    assert_eq!(d.log, vec![Action::List, Action::Finish { ok: false }]);
    assert_eq!(d.source.len(), 1);
    assert!(d.sink.is_empty());
}

#[test]
fn broken_listing_fails_where_it_broke_off() {
    let mut router = Router::new(sinks(&[("warp", None)]), &Vec::new(), 10, 1000);
    assert_eq!(router.begin(), Action::List);
    let listed = Event::Partial(vec![String::from("a.metrics"), String::from("b.txt")]);
    assert_eq!(router.advance(listed, 0), Action::Read { entry: 0 });
    assert_eq!(router.advance(Event::Content(String::from("foo{} 1\n")), 0), Action::Finish { ok: false });
    assert_eq!(router.phase(), Phase::Finished(false));
    assert_eq!(router.begin(), Action::List);
    assert_eq!(router.advance(Event::Partial(Vec::new()), 0), Action::Finish { ok: false });
}

#[test]
fn broken_listing_behind_a_ceiling_does_no_harm() {
    let mut router = Router::new(sinks(&[("warp", None)]), &Vec::new(), 0, 1000);
    assert_eq!(router.begin(), Action::List);
    let listed = Event::Partial(vec![
        String::from("x.txt"),
        String::from("a.metrics"),
        String::from("b.metrics"),
    ]);
    assert_eq!(router.advance(listed, 0), Action::Read { entry: 1 });
    assert_eq!(router.advance(Event::Content(String::from("foo{} 1\n")), 0), Action::Create { sink: 0 });
    assert_eq!(router.batch_len(), 1);
    assert_eq!(router.advance(Event::Done, 0), Action::Write { sink: 0 });
    assert_eq!(router.advance(Event::Done, 0), Action::Flush { sink: 0 });
    assert_eq!(router.advance(Event::Done, 3), Action::Rename { sink: 0, stamp: 3 });
    assert_eq!(router.advance(Event::Done, 0), Action::Remove { entry: 1 });
    assert_eq!(router.advance(Event::Done, 0), Action::List);
}

#[test]
fn unreadable_file_is_passed_over() {
    let mut router = Router::new(sinks(&[("warp", None)]), &Vec::new(), 10, 1000);
    let mut d = disk(&[
        ("s1.metrics", Some("foo{} 1\n")),
        ("s2.metrics", None),
        ("s3.metrics", Some("baz{} 3\n")),
    ]);
    let mut action = router.begin();
    let mut steps = 0;
    loop {
        d.log.push(action);
        let event = match action {
            Action::List if steps == 0 => Event::Listed(d.source.keys().cloned().collect()),
            Action::List => break,
            Action::Read { entry } => match d.source.get(router.entry(entry).unwrap()).unwrap() {
                Some(text) => Event::Content(text.clone()),
                None => Event::Failed,
            },
            Action::Remove { entry } => {
                let name = String::from(router.entry(entry).unwrap());
                d.source.remove(&name);
                Event::Done
            }
            Action::Write { sink } => {
                assert_eq!(router.payload(sink).unwrap(), "foo{} 1\nbaz{} 3\n");
                Event::Done
            }
            Action::Finish { .. } => break,
            _ => Event::Done,
        };
        steps += 1;
        action = router.advance(event, 5);
    }
    assert_eq!(d.source.keys().map(|k| k.as_str()).collect::<Vec<_>>(), vec!["s2.metrics"]);
    assert!(d.log.contains(&Action::Remove { entry: 0 }));
    assert!(d.log.contains(&Action::Remove { entry: 2 }));
    assert!(!d.log.contains(&Action::Remove { entry: 1 }));
}

#[test]
fn malformed_line_is_dropped_and_the_file_removed() {
    let mut router = Router::new(
        sinks(&[("warp", None), ("backup", None)]),
        &labels(&[("env", "prod")]),
        10,
        1000,
    );
    let mut d = disk(&[("s1.metrics", Some("foo{} 1\nno brace here 2\n"))]);
    assert!(cycle(&mut router, &mut d, 9));
    assert!(d.source.is_empty());
    assert_eq!(d.sink["warp-9.metrics"], "foo{env=prod} 1\n");
    assert_eq!(d.sink["backup-9.metrics"], "foo{env=prod} 1\n");
}

#[test]
fn dropped_lines_are_kept_for_the_log() {
    let mut router = Router::new(sinks(&[("warp", None)]), &labels(&[("env", "prod")]), 10, 1000);
    assert_eq!(router.begin(), Action::List);
    let listed = Event::Listed(vec![String::from("a.metrics"), String::from("b.metrics")]);
    assert_eq!(router.advance(listed, 0), Action::Read { entry: 0 });
    assert!(router.dropped().is_empty());
    let text = String::from("foo{} 1\nno brace here 2\n\nbar 3\r\n");
    assert_eq!(router.advance(Event::Content(text), 0), Action::Read { entry: 1 });
    assert_eq!(router.dropped(), &vec![String::from("no brace here 2"), String::from("bar 3")]);
    assert_eq!(router.line_count(), 1);
    assert_eq!(router.advance(Event::Content(String::from("}\n")), 0), Action::Create { sink: 0 });
    assert_eq!(router.dropped().len(), 3);
    assert_eq!(router.begin(), Action::List);
    assert!(router.dropped().is_empty());
}

#[test]
fn nothing_is_dropped_without_labels() {
    let mut router = Router::new(sinks(&[("warp", None)]), &Vec::new(), 10, 1000);
    assert_eq!(router.begin(), Action::List);
    assert_eq!(router.advance(Event::Listed(vec![String::from("a.metrics")]), 0), Action::Read { entry: 0 });
    router.advance(Event::Content(String::from("no brace\n\nfoo{} 1\n")), 0);
    assert!(router.dropped().is_empty());
    assert_eq!(router.line_count(), 2);
}

#[test]
fn file_of_malformed_lines_is_still_removed() {
    let mut router = Router::new(sinks(&[("warp", None)]), &labels(&[("env", "prod")]), 10, 1000);
    let mut d = disk(&[("s1.metrics", Some("broken\n\nalso broken\n"))]);
    assert!(cycle(&mut router, &mut d, 9));
    assert!(d.source.is_empty());
    assert_eq!(d.sink["warp-9.metrics"], "");
}

#[test]
fn each_sink_gets_what_it_does_not_exclude() {
    let mut router = Router::new(
        sinks(&[("all", None), ("nofoo", Some("^foo\\{")), ("nothing", Some(""))]),
        &labels(&[("env", "prod"), ("dc", "eu")]),
        10,
        1000,
    );
    let mut d = disk(&[("s1.metrics", Some("1// foo{} 1\n2// bar{a=b} 2\n3// foo{c=d} 3\nfoo{} 4\n"))]);
    assert!(cycle(&mut router, &mut d, 9));
    assert_eq!(
        d.sink["all-9.metrics"],
        "1// foo{env=prod,dc=eu} 1\n2// bar{env=prod,dc=eu,a=b} 2\n3// foo{env=prod,dc=eu,c=d} 3\nfoo{env=prod,dc=eu} 4\n"
    );
    assert_eq!(d.sink["nofoo-9.metrics"], "2// bar{env=prod,dc=eu,a=b} 2\nfoo{env=prod,dc=eu} 4\n");
    assert_eq!(d.sink["nothing-9.metrics"], "");
}

#[test]
fn without_sinks_the_batch_is_removed() {
    let mut router = Router::new(Vec::new(), &Vec::new(), 10, 1000);
    let mut d = disk(&[("s1.metrics", Some("foo{} 1\n"))]);
    assert!(cycle(&mut router, &mut d, 9));
    assert!(d.source.is_empty());
    assert!(d.sink.is_empty());
    assert_eq!(
        d.log,
        vec![
            Action::List,
            Action::Read { entry: 0 },
            Action::Remove { entry: 0 },
            Action::List,
            Action::Finish { ok: true },
        ]
    );
}

#[test]
fn unexpected_event_ends_the_cycle() {
    let mut router = Router::new(sinks(&[("warp", None)]), &Vec::new(), 10, 1000);
    assert_eq!(router.begin(), Action::List);
    assert_eq!(router.advance(Event::Done, 0), Action::Finish { ok: false });
    assert_eq!(router.advance(Event::Done, 0), Action::Finish { ok: false });
    assert_eq!(router.begin(), Action::List);
    let listed = Event::Listed(vec![String::from("a.metrics")]);
    assert_eq!(router.advance(listed, 0), Action::Read { entry: 0 });
    assert_eq!(router.advance(Event::Done, 0), Action::Finish { ok: false });
}

#[test]
fn router_at_rest_has_finished() {
    let mut router = Router::new(sinks(&[("warp", None)]), &labels(&[("a", "b"), ("c", "d")]), 10, 1000);
    assert_eq!(router.phase(), Phase::Finished(true));
    assert_eq!(router.labels(), "a=b,c=d");
    assert_eq!(router.sinks().len(), 1);
    assert_eq!(router.advance(Event::Done, 0), Action::Finish { ok: true });
    assert_eq!(router.entry(0), None);
    assert_eq!(router.payload(1), None);
    assert_eq!(router.pending_name(1), None);
    assert_eq!(router.committed_name(1, 0), None);
    assert_eq!(router.pending_name(0), Some(String::from("warp.tmp")));
    assert_eq!(router.line_count(), 0);
}

#[test]
fn step_stamps_the_commit_with_the_clock() {
    let mut router = Router::new(sinks(&[("warp", None), ("backup", None)]), &Vec::new(), 10, 1000);
    assert_eq!(router.begin(), Action::List);
    assert_eq!(router.step(Event::Listed(vec![String::from("a.metrics")])), Action::Read { entry: 0 });
    assert_eq!(router.step(Event::Content(String::from("foo{} 1\n"))), Action::Create { sink: 0 });
    assert_eq!(router.step(Event::Done), Action::Create { sink: 1 });
    assert_eq!(router.step(Event::Done), Action::Write { sink: 0 });
    assert_eq!(router.step(Event::Done), Action::Write { sink: 1 });
    assert_eq!(router.step(Event::Done), Action::Flush { sink: 0 });
    assert_eq!(router.step(Event::Done), Action::Flush { sink: 1 });
    let first = router.step(Event::Done);
    let stamp = match first {
        Action::Rename { sink: 0, stamp } => stamp,
        other => panic!("{:?}", other),
    };
    assert!(stamp > 1_500_000_000);
    assert_eq!(router.step(Event::Done), Action::Rename { sink: 1, stamp });
    assert_eq!(router.step(Event::Done), Action::Remove { entry: 0 });
    assert_eq!(router.step(Event::Done), Action::List);
}
