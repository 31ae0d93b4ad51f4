//! Global labels: flattening them once, and merging them into metric lines.

use crate::text::{
    chars_of, find_from, index_of, lemma_index_from, push_range, scan, scan_from, string_of,
};
use vstd::prelude::*;
use vstd::string::StringExecFns;

verus! {

/// The flattened form of an ordered list of labels: `key=value` tokens, in
/// the order of the list, separated by commas.
pub open spec fn flat(labels: Seq<(String, String)>) -> Seq<char>
    decreases labels.len(),
{
    if labels.len() == 0 {
        Seq::empty()
    } else {
        let head = flat(labels.drop_last());
        let sep = if head.len() == 0 {
            Seq::<char>::empty()
        } else {
            seq![',']
        };
        head + sep + labels.last().0@ + seq!['='] + labels.last().1@
    }
}

/// Only an empty list of labels flattens to nothing: with any label at all,
/// lines are relabelled.
pub proof fn lemma_flat_empty(labels: Seq<(String, String)>)
    ensures
        flat(labels).len() == 0 <==> labels.len() == 0,
{
}

/// Flattens `labels` into the string that is merged into every line.
pub fn flatten(labels: &Vec<(String, String)>) -> (out: String)
    ensures
        out@ == flat(labels@),
{
    let mut out = String::new();
    let mut i: usize = 0;
    while i < labels.len()
        invariant
            i <= labels.len(),
            out@ == flat(labels@.take(i as int)),
        decreases labels.len() - i,
    {
        proof {
            assert(labels@.take(i + 1).drop_last() =~= labels@.take(i as int));
        }
        if !out.as_str().is_empty() {
            out.push(',');
        }
        out.append(labels[i].0.as_str());
        out.push('=');
        out.append(labels[i].1.as_str());
        proof {
            let head = flat(labels@.take(i as int));
            let sep = if head.len() == 0 {
                Seq::<char>::empty()
            } else {
                seq![',']
            };
            assert(out@ =~= head + sep + labels@[i as int].0@ + seq!['='] + labels@[i as int].1@);
        }
        i += 1;
    }
    proof {
        assert(labels@.take(labels.len() as int) =~= labels@);
    }
    out
}

/// Whether the first character of `s` at or after `from` that is not white
/// space is a closing brace: the label set that starts at `from` is empty.
pub open spec fn closes_at(s: Seq<char>, from: int) -> bool {
    let k = scan(s, from, false);
    k < s.len() && s[k] == '}'
}

/// The line that results from merging the flattened `labels` into `line`.
///
/// With no labels the line is unchanged. Otherwise the line is cut at its
/// first opening brace, and the labels are put directly behind that brace,
/// followed by a comma unless the line's own label set is empty. A line
/// without an opening brace has no label section and gives `None`.
pub open spec fn injected(line: Seq<char>, labels: Seq<char>) -> Option<Seq<char>> {
    if labels.len() == 0 {
        Some(line)
    } else {
        let brace = index_of(line, '{');
        if brace >= line.len() {
            None
        } else {
            let sep = if closes_at(line, brace + 1) {
                Seq::<char>::empty()
            } else {
                seq![',']
            };
            Some(
                line.subrange(0, brace) + seq!['{'] + labels + sep + line.subrange(
                    brace + 1,
                    line.len() as int,
                ),
            )
        }
    }
}

/// Merges the flattened `labels` into `line`; `None` for a malformed line.
pub fn inject(line: &str, labels: &str) -> (out: Option<String>)
    ensures
        match injected(line@, labels@) {
            Some(t) => out matches Some(s) && s@ == t,
            None => out is None,
        },
{
    if labels.is_empty() {
        return Some(line.to_owned());
    }
    let v = chars_of(line);
    let brace = find_from(&v, 0, '{');
    if brace >= v.len() {
        return None;
    }
    let k = scan_from(&v, brace + 1, false);
    let closes = k < v.len() && v[k] == '}';
    let mut s = string_of(&v, 0, brace);
    s.push('{');
    s.append(labels);
    if !closes {
        s.push(',');
    }
    push_range(&mut s, &v, brace + 1, v.len());
    proof {
        let t = injected(line@, labels@);
        assert(t is Some);
        assert(s@ =~= t->0);
    }
    Some(s)
}

/// Every line that comes out of [`inject`] with labels holds them directly
/// behind its first opening brace, and nothing of the line is lost: the line
/// is what precedes the brace and what follows the labels and their
/// separator.
pub proof fn lemma_injected_shape(line: Seq<char>, labels: Seq<char>)
    requires
        labels.len() > 0,
        injected(line, labels) is Some,
    ensures
        ({
            let out = injected(line, labels)->0;
            let brace = index_of(line, '{');
            let extra = out.len() - line.len();
            &&& 0 <= brace < line.len()
            &&& extra == labels.len() || extra == labels.len() + 1
            &&& out.subrange(0, brace + 1) == line.subrange(0, brace + 1)
            &&& out.subrange(brace + 1, brace + 1 + labels.len()) == labels
            &&& out.subrange(brace + 1 + extra, out.len() as int) == line.subrange(
                brace + 1,
                line.len() as int,
            )
            &&& extra == labels.len() <==> closes_at(line, brace + 1)
        }),
{
    lemma_index_from(line, 0, '{');
    let out = injected(line, labels)->0;
    let brace = index_of(line, '{');
    let extra = out.len() - line.len();
    assert(out.subrange(0, brace + 1) =~= line.subrange(0, brace + 1));
    assert(out.subrange(brace + 1, brace + 1 + labels.len()) =~= labels);
    assert(out.subrange(brace + 1 + extra, out.len() as int) =~= line.subrange(
        brace + 1,
        line.len() as int,
    ));
}

/// A line is dropped as malformed exactly when there are labels to merge
/// and the line has no opening brace.
pub proof fn lemma_injected_none(line: Seq<char>, labels: Seq<char>)
    ensures
        injected(line, labels) is None <==> labels.len() > 0 && !line.contains('{'),
{
    lemma_index_from(line, 0, '{');
    let brace = index_of(line, '{');
    if brace < line.len() {
        assert(line[brace] == '{');
        assert(line.contains('{'));
    }
}

} // verus!
