//! Sinks: named destinations, each with an optional exclusion pattern.

use crate::text::{chars_of, lemma_scan, scan, scan_from, string_of};
use regex::Regex;
use vstd::prelude::*;

verus! {

/// Whether `regex::Regex::new` accepts `pattern`.
pub uninterp spec fn regex_compiles(pattern: Seq<char>) -> bool;

/// Whether the regular expression compiled from `pattern` by
/// `regex::Regex::new` matches somewhere in `text` (`Regex::is_match`).
pub uninterp spec fn regex_is_match(pattern: Seq<char>, text: Seq<char>) -> bool;

/// Compiles `pattern` with `regex::Regex::new` and searches `text` with
/// `Regex::is_match`.
///
/// Trusted: that both depend on the two texts alone, that the result is
/// `None` exactly when the pattern does not compile, and that otherwise it
/// holds what `is_match` returned. Nothing is claimed about which patterns
/// compile or what they match.
#[verifier::external_body]
fn search(pattern: &str, text: &str) -> (found: Option<bool>)
    ensures
        found == if regex_compiles(pattern@) {
            Some(regex_is_match(pattern@, text@))
        } else {
            None::<bool>
        },
{
    match Regex::new(pattern) {
        Ok(re) => Some(re.is_match(text)),
        Err(_) => None,
    }
}

/// The second white-space-delimited token of `line`, if it has two.
pub open spec fn token2(line: Seq<char>) -> Option<Seq<char>> {
    let first = scan(line, 0, false);
    let gap = scan(line, first, true);
    let start = scan(line, gap, false);
    let end = scan(line, start, true);
    if start < line.len() {
        Some(line.subrange(start, end))
    } else {
        None
    }
}

/// Extracts the second white-space-delimited token of `line`.
pub fn second_token(line: &str) -> (tok: Option<String>)
    ensures
        match token2(line@) {
            Some(t) => tok matches Some(s) && s@ == t,
            None => tok is None,
        },
{
    let v = chars_of(line);
    let first = scan_from(&v, 0, false);
    let gap = scan_from(&v, first, true);
    let start = scan_from(&v, gap, false);
    let end = scan_from(&v, start, true);
    if start < v.len() {
        Some(string_of(&v, start, end))
    } else {
        None
    }
}

/// A token is not empty and holds no white space, and white space or the
/// start of the line precedes it.
pub proof fn lemma_token2(line: Seq<char>)
    requires
        token2(line) is Some,
    ensures
        token2(line)->0.len() > 0,
        forall|i: int| 0 <= i < token2(line)->0.len() ==> !crate::text::is_space(
            #[trigger] token2(line)->0[i],
        ),
{
    let first = scan(line, 0, false);
    lemma_scan(line, 0, false);
    let gap = scan(line, first, true);
    lemma_scan(line, first, true);
    let start = scan(line, gap, false);
    lemma_scan(line, gap, false);
    let end = scan(line, start, true);
    lemma_scan(line, start, true);
    let t = token2(line)->0;
    assert forall|i: int| 0 <= i < t.len() implies !crate::text::is_space(#[trigger] t[i]) by {
        assert(t[i] == line[start + i]);
    }
}

/// Why a sink could not be made.
#[derive(Debug, Clone, Copy, PartialEq, Eq)]
pub enum SinkError {
    /// The selector is not a regular expression that compiles.
    BadSelector,
}

/// A destination: its name and, optionally, the pattern of the metrics it
/// does not want.
pub struct Sink {
    name: String,
    selector: Option<String>,
}

/// Whether a sink with the given selector leaves `line` out: it has a
/// selector, the line has a second token, and the selector matches in it.
pub open spec fn excluded(selector: Option<Seq<char>>, line: Seq<char>) -> bool {
    selector matches Some(p) && token2(line) matches Some(t) && regex_is_match(p, t)
}

impl Sink {
    #[verifier::type_invariant]
    spec fn selector_compiles(self) -> bool {
        self.selector matches Some(p) ==> regex_compiles(p@)
    }

    /// The sink's name.
    pub closed spec fn spec_name(self) -> Seq<char> {
        self.name@
    }

    /// The sink's exclusion pattern.
    pub closed spec fn spec_selector(self) -> Option<Seq<char>> {
        match self.selector {
            Some(p) => Some(p@),
            None => None,
        }
    }

    /// Makes a sink. A selector must compile as a regular expression.
    pub fn new(name: String, selector: Option<String>) -> (made: Result<Sink, SinkError>)
        ensures
            match made {
                Ok(sink) => {
                    &&& sink.spec_name() == name@
                    &&& match selector {
                        Some(p) => sink.spec_selector() == Some(p@) && regex_compiles(p@),
                        None => sink.spec_selector() is None,
                    }
                },
                Err(e) => {
                    &&& e == SinkError::BadSelector
                    &&& selector matches Some(p)
                    &&& !regex_compiles(p@)
                },
            },
    {
        match &selector {
            None => {},
            Some(p) => {
                if search(p.as_str(), "").is_none() {
                    return Err(SinkError::BadSelector);
                }
            },
        }
        Ok(Sink { name, selector })
    }

    /// The sink's name.
    pub fn name(&self) -> (name: &str)
        ensures
            name@ == self.spec_name(),
    {
        self.name.as_str()
    }

    /// The sink's exclusion pattern, if it has one.
    pub fn selector(&self) -> (pattern: Option<&str>)
        ensures
            match self.spec_selector() {
                Some(p) => pattern matches Some(s) && s@ == p,
                None => pattern is None,
            },
    {
        match &self.selector {
            Some(p) => Some(p.as_str()),
            None => None,
        }
    }

    /// Whether this sink leaves `line` out.
    pub fn excludes(&self, line: &str) -> (out: bool)
        ensures
            out == excluded(self.spec_selector(), line@),
    {
        proof {
            use_type_invariant(self);
        }
        match &self.selector {
            None => false,
            Some(p) => match second_token(line) {
                None => false,
                Some(tok) => match search(p.as_str(), tok.as_str()) {
                    Some(found) => found,
                    None => false,
                },
            },
        }
    }
}

} // verus!
