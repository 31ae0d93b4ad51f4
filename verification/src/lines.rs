//! Splitting a file's text into lines.

use crate::text::{chars_of, find_from, index_from, lemma_index_from, lemma_views_push, string_of, views};
use vstd::prelude::*;

verus! {

/// `s` without one trailing carriage return, if it has one.
pub open spec fn strip_cr(s: Seq<char>) -> Seq<char> {
    if s.len() > 0 && s.last() == '\r' {
        s.drop_last()
    } else {
        s
    }
}

/// The lines of `s` from position `from` on.
///
/// A line ends at a line feed, which is not part of it, nor is a carriage
/// return directly before that line feed. What follows the last line feed is
/// a line of its own unless it is empty; it keeps a trailing carriage return.
pub open spec fn lines_from(s: Seq<char>, from: int) -> Seq<Seq<char>>
    decreases s.len() - from,
{
    if from < 0 || from >= s.len() {
        Seq::empty()
    } else {
        let n = index_from(s, from, '\n');
        if n >= s.len() {
            seq![s.subrange(from, s.len() as int)]
        } else {
            proof {
                lemma_index_from(s, from, '\n');
            }
            seq![strip_cr(s.subrange(from, n))] + lines_from(s, n + 1)
        }
    }
}

/// The lines of `s`.
pub open spec fn lines_of(s: Seq<char>) -> Seq<Seq<char>> {
    lines_from(s, 0)
}

/// Splits `text` into its lines.
pub fn split_lines(text: &str) -> (out: Vec<String>)
    ensures
        views(out@) == lines_of(text@),
{
    let v = chars_of(text);
    let mut out: Vec<String> = Vec::new();
    let mut pos: usize = 0;
    while pos < v.len()
        invariant
            pos <= v.len(),
            v@ == text@,
            lines_of(text@) == views(out@) + lines_from(v@, pos as int),
        decreases v.len() - pos,
    {
        let n = find_from(&v, pos, '\n');
        let ghost before = out@;
        if n >= v.len() {
            let line = string_of(&v, pos, v.len());
            proof {
                lemma_views_push(before, line);
                assert(lines_from(v@, v.len() as int) =~= Seq::<Seq<char>>::empty());
                assert(views(before) + lines_from(v@, pos as int) =~= views(before).push(line@)
                    + lines_from(v@, v.len() as int));
            }
            out.push(line);
            pos = v.len();
        } else {
            let end = if n > pos && v[n - 1] == '\r' {
                n - 1
            } else {
                n
            };
            let line = string_of(&v, pos, end);
            proof {
                lemma_views_push(before, line);
                let raw = v@.subrange(pos as int, n as int);
                assert(line@ =~= strip_cr(raw));
                assert(views(before) + lines_from(v@, pos as int) =~= views(before).push(line@)
                    + lines_from(v@, n + 1));
            }
            out.push(line);
            pos = n + 1;
        }
    }
    proof {
        assert(views(out@) + lines_from(v@, pos as int) =~= views(out@));
    }
    out
}

} // verus!
