//! What a batch holds: the relabelled lines of its files, and what of them
//! each sink is sent.

use crate::labels::{inject, injected};
use crate::lines::{lines_of, split_lines};
use crate::sink::{excluded, Sink};
use crate::text::{lemma_views_push, views};
use vstd::prelude::*;
use vstd::string::StringExecFns;

verus! {

/// The lines that `lines` contribute to a batch: each line that is not
/// empty, with the labels merged in, in order; malformed lines are dropped.
pub open spec fn relabel(lines: Seq<Seq<char>>, labels: Seq<char>) -> Seq<Seq<char>>
    decreases lines.len(),
{
    if lines.len() == 0 {
        Seq::empty()
    } else {
        let head = relabel(lines.drop_last(), labels);
        let line = lines.last();
        if line.len() == 0 {
            head
        } else {
            match injected(line, labels) {
                Some(merged) => head.push(merged),
                None => head,
            }
        }
    }
}

/// The lines that a file with the given text contributes to a batch.
pub open spec fn file_lines(text: Seq<char>, labels: Seq<char>) -> Seq<Seq<char>> {
    relabel(lines_of(text), labels)
}

/// The lines of `lines` that are dropped as malformed: each line that is
/// not empty and has no label section to merge the labels into, as it is and
/// in order.
pub open spec fn rejects(lines: Seq<Seq<char>>, labels: Seq<char>) -> Seq<Seq<char>>
    decreases lines.len(),
{
    if lines.len() == 0 {
        Seq::empty()
    } else {
        let head = rejects(lines.drop_last(), labels);
        let line = lines.last();
        if line.len() > 0 && injected(line, labels) is None {
            head.push(line)
        } else {
            head
        }
    }
}

/// The lines of a file with the given text that are dropped as malformed.
pub open spec fn file_rejects(text: Seq<char>, labels: Seq<char>) -> Seq<Seq<char>> {
    rejects(lines_of(text), labels)
}

/// Appends to `out` the lines that a file with the given text contributes,
/// and to `dropped` its malformed lines, which contribute nothing.
pub fn relabel_into(out: &mut Vec<String>, dropped: &mut Vec<String>, text: &str, labels: &str)
    ensures
        views(final(out)@) == views(old(out)@) + file_lines(text@, labels@),
        views(final(dropped)@) == views(old(dropped)@) + file_rejects(text@, labels@),
{
    let parts = split_lines(text);
    let ghost all = views(parts@);
    let mut i: usize = 0;
    proof {
        assert(views(out@) + relabel(all.take(0), labels@) =~= views(out@));
        assert(views(dropped@) + rejects(all.take(0), labels@) =~= views(dropped@));
    }
    while i < parts.len()
        invariant
            i <= parts.len(),
            all == views(parts@),
            views(out@) == views(old(out)@) + relabel(all.take(i as int), labels@),
            views(dropped@) == views(old(dropped)@) + rejects(all.take(i as int), labels@),
        decreases parts.len() - i,
    {
        let ghost before = out@;
        let ghost aside = dropped@;
        proof {
            assert(all.take(i + 1).drop_last() =~= all.take(i as int));
            assert(all.take(i + 1).last() == parts@[i as int]@);
        }
        if !parts[i].as_str().is_empty() {
            match inject(parts[i].as_str(), labels) {
                Some(merged) => {
                    proof {
                        lemma_views_push(before, merged);
                        assert((views(old(out)@) + relabel(all.take(i as int), labels@)).push(
                            merged@,
                        ) =~= views(old(out)@) + relabel(all.take(i as int), labels@).push(
                            merged@,
                        ));
                    }
                    out.push(merged);
                },
                None => {
                    let line = parts[i].clone();
                    proof {
                        lemma_views_push(aside, line);
                        assert((views(old(dropped)@) + rejects(all.take(i as int), labels@)).push(
                            line@,
                        ) =~= views(old(dropped)@) + rejects(all.take(i as int), labels@).push(
                            line@,
                        ));
                    }
                    dropped.push(line);
                },
            }
        }
        i += 1;
    }
    proof {
        assert(all.take(parts.len() as int) =~= all);
    }
}

/// What a sink with the given selector is sent of `lines`: every line that
/// it does not leave out, unchanged and in order, each followed by a line
/// feed.
pub open spec fn payload_of(lines: Seq<Seq<char>>, selector: Option<Seq<char>>) -> Seq<char>
    decreases lines.len(),
{
    if lines.len() == 0 {
        Seq::empty()
    } else {
        let head = payload_of(lines.drop_last(), selector);
        if excluded(selector, lines.last()) {
            head
        } else {
            head + lines.last() + seq!['\n']
        }
    }
}

/// Builds what `sink` is sent of `lines`.
pub fn payload(lines: &Vec<String>, sink: &Sink) -> (out: String)
    ensures
        out@ == payload_of(views(lines@), sink.spec_selector()),
{
    let mut out = String::new();
    let ghost all = views(lines@);
    let mut i: usize = 0;
    while i < lines.len()
        invariant
            i <= lines.len(),
            all == views(lines@),
            out@ == payload_of(all.take(i as int), sink.spec_selector()),
        decreases lines.len() - i,
    {
        proof {
            assert(all.take(i + 1).drop_last() =~= all.take(i as int));
            assert(all.take(i + 1).last() == lines@[i as int]@);
        }
        if !sink.excludes(lines[i].as_str()) {
            out.append(lines[i].as_str());
            out.push('\n');
            proof {
                assert(out@ =~= payload_of(all.take(i as int), sink.spec_selector())
                    + lines@[i as int]@ + seq!['\n']);
            }
        }
        i += 1;
    }
    proof {
        assert(all.take(lines.len() as int) =~= all);
    }
    out
}

/// No line of a batch is empty.
pub proof fn lemma_relabel_nonempty(lines: Seq<Seq<char>>, labels: Seq<char>)
    ensures
        forall|i: int|
            0 <= i < relabel(lines, labels).len() ==> (#[trigger] relabel(lines, labels)[i]).len()
                > 0,
        relabel(lines, labels).len() <= lines.len(),
    decreases lines.len(),
{
    if lines.len() > 0 {
        lemma_relabel_nonempty(lines.drop_last(), labels);
    }
}

/// Every line that is not empty is either taken, relabelled, or dropped as
/// malformed; none is lost without a trace, and none is both.
pub proof fn lemma_lines_accounted(lines: Seq<Seq<char>>, labels: Seq<char>)
    ensures
        relabel(lines, labels).len() + rejects(lines, labels).len() == lines.filter(
            |l: Seq<char>| l.len() > 0,
        ).len(),
        labels.len() == 0 ==> rejects(lines, labels).len() == 0,
    decreases lines.len(),
{
    reveal(Seq::filter);
    if lines.len() > 0 {
        lemma_lines_accounted(lines.drop_last(), labels);
    }
}

/// Without labels a batch holds the lines that are not empty, as they are.
pub proof fn lemma_relabel_without_labels(lines: Seq<Seq<char>>)
    ensures
        relabel(lines, Seq::empty()) == lines.filter(|l: Seq<char>| l.len() > 0),
    decreases lines.len(),
{
    let keep = |l: Seq<char>| l.len() > 0;
    reveal(Seq::filter);
    if lines.len() > 0 {
        lemma_relabel_without_labels(lines.drop_last());
    }
}

/// A selector only takes lines away: what a sink is sent is what a sink
/// without a selector would be sent of the lines that the sink does not
/// leave out. Every other line reaches it unchanged, in its place.
pub proof fn lemma_payload_filters(lines: Seq<Seq<char>>, selector: Option<Seq<char>>)
    ensures
        payload_of(lines, selector) == payload_of(
            lines.filter(|l: Seq<char>| !excluded(selector, l)),
            None,
        ),
    decreases lines.len(),
{
    let keep = |l: Seq<char>| !excluded(selector, l);
    reveal(Seq::filter);
    if lines.len() > 0 {
        lemma_payload_filters(lines.drop_last(), selector);
        let kept = lines.drop_last().filter(keep);
        if keep(lines.last()) {
            assert(kept.push(lines.last()).drop_last() =~= kept);
        }
    }
}

} // verus!
