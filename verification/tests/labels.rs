use beamium::labels::{flatten, inject};

#[test]
fn inject_into_empty_label_set() {
    assert_eq!(inject("foo{} 5", "env=prod"), Some(String::from("foo{env=prod} 5")));
}

#[test]
fn inject_into_label_set() {
    assert_eq!(inject("foo{bar=1} 5", "env=prod"), Some(String::from("foo{env=prod,bar=1} 5")));
}

#[test]
fn inject_without_labels_keeps_the_line() {
    assert_eq!(inject("foo{bar=1} 5", ""), Some(String::from("foo{bar=1} 5")));
    assert_eq!(inject("no brace at all", ""), Some(String::from("no brace at all")));
    assert_eq!(inject("", ""), Some(String::new()));
}

#[test]
fn inject_drops_a_line_without_brace() {
    assert_eq!(inject("foo 5", "env=prod"), None);
    assert_eq!(inject("foo} 5", "env=prod"), None);
    assert_eq!(inject("", "env=prod"), None);
}

#[test]
fn inject_cuts_at_the_first_brace() {
    assert_eq!(inject("a{b={c}} 1", "k=v"), Some(String::from("a{k=v,b={c}} 1")));
    assert_eq!(inject("{} 1", "k=v"), Some(String::from("{k=v} 1")));
    assert_eq!(inject("a{", "k=v"), Some(String::from("a{k=v,")));
}

#[test]
fn inject_sees_through_white_space_before_the_closing_brace() {
    assert_eq!(inject("foo{  } 5", "env=prod"), Some(String::from("foo{env=prod  } 5")));
    assert_eq!(inject("foo{\t\u{a0}} 5", "env=prod"), Some(String::from("foo{env=prod\t\u{a0}} 5")));
    assert_eq!(inject("foo{ a=1} 5", "env=prod"), Some(String::from("foo{env=prod, a=1} 5")));
    assert_eq!(inject("foo{   ", "env=prod"), Some(String::from("foo{env=prod,   ")));
}

#[test]
fn inject_keeps_text_outside_ascii() {
    assert_eq!(inject("été{ville=Orléans} 1", "région=Centre"),
        Some(String::from("été{région=Centre,ville=Orléans} 1")));
}

#[test]
fn inject_merges_labels_once() {
    let out = inject("foo{env=prod} 5", "env=prod").unwrap();
    assert_eq!(out, "foo{env=prod,env=prod} 5");
    let out = inject("foo{} 5", "a=1,b=2").unwrap();
    assert_eq!(out.matches("a=1,b=2").count(), 1);
}

#[test]
fn flatten_keeps_order() {
    let labels = vec![
        (String::from("env"), String::from("prod")),
        (String::from("dc"), String::from("eu")),
        (String::from("a"), String::from("")),
    ];
    assert_eq!(flatten(&labels), "env=prod,dc=eu,a=");
}

#[test]
fn flatten_of_nothing_is_empty() {
    assert_eq!(flatten(&Vec::new()), "");
}

#[test]
fn flatten_of_one_label_has_no_comma() {
    assert_eq!(flatten(&vec![(String::from("env"), String::from("prod"))]), "env=prod");
}
