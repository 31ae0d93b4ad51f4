//! File names in the two staging directories.

use crate::text::chars_of;
use vstd::prelude::*;

verus! {

/// The extension of pending source files and of committed sink files, with
/// its dot.
pub open spec fn metrics_suffix() -> Seq<char> {
    seq!['.', 'm', 'e', 't', 'r', 'i', 'c', 's']
}

/// The extension of a sink file that is still being written, with its dot.
pub open spec fn pending_suffix() -> Seq<char> {
    seq!['.', 't', 'm', 'p']
}

/// Whether a file of this name is a pending metrics file: its extension, the
/// part behind the last dot that is not the name's first character, is
/// `metrics`. That is, the name ends in `.metrics` and is longer than that.
pub open spec fn is_metrics_name(name: Seq<char>) -> bool {
    name.len() > 8 && name.subrange(name.len() - 8, name.len() as int) == metrics_suffix()
}

/// Decides [`is_metrics_name`].
pub fn metrics_name(name: &str) -> (b: bool)
    ensures
        b == is_metrics_name(name@),
{
    let v = chars_of(name);
    let n = v.len();
    if n <= 8 {
        return false;
    }
    let b = v[n - 8] == '.' && v[n - 7] == 'm' && v[n - 6] == 'e' && v[n - 5] == 't' && v[n - 4]
        == 'r' && v[n - 3] == 'i' && v[n - 2] == 'c' && v[n - 1] == 's';
    proof {
        let tail = v@.subrange(n - 8, n as int);
        if b {
            assert(tail =~= metrics_suffix());
        } else {
            assert(tail[0] == v@[n - 8] && tail[1] == v@[n - 7] && tail[2] == v@[n - 6] && tail[3]
                == v@[n - 5] && tail[4] == v@[n - 4] && tail[5] == v@[n - 3] && tail[6] == v@[n
                - 2] && tail[7] == v@[n - 1]);
        }
    }
    b
}

/// The character of a decimal digit.
pub open spec fn digit_char(d: int) -> char {
    if d == 0 {
        '0'
    } else if d == 1 {
        '1'
    } else if d == 2 {
        '2'
    } else if d == 3 {
        '3'
    } else if d == 4 {
        '4'
    } else if d == 5 {
        '5'
    } else if d == 6 {
        '6'
    } else if d == 7 {
        '7'
    } else if d == 8 {
        '8'
    } else {
        '9'
    }
}

/// The decimal digits of `n`, most significant first, without leading zeros.
pub open spec fn digits(n: nat) -> Seq<char>
    decreases n,
{
    if n < 10 {
        seq![digit_char(n as int)]
    } else {
        digits(n / 10).push(digit_char((n % 10) as int))
    }
}

/// `n` in decimal, with a minus sign in front if it is negative.
pub open spec fn decimal(n: int) -> Seq<char> {
    if n < 0 {
        seq!['-'] + digits((-n) as nat)
    } else {
        digits(n as nat)
    }
}

fn digit(d: u64) -> (c: char)
    requires
        d < 10,
    ensures
        c == digit_char(d as int),
{
    if d == 0 {
        '0'
    } else if d == 1 {
        '1'
    } else if d == 2 {
        '2'
    } else if d == 3 {
        '3'
    } else if d == 4 {
        '4'
    } else if d == 5 {
        '5'
    } else if d == 6 {
        '6'
    } else if d == 7 {
        '7'
    } else if d == 8 {
        '8'
    } else {
        '9'
    }
}

/// Appends `n` in decimal to `s`.
pub fn push_decimal(s: &mut String, n: i64)
    ensures
        final(s)@ == old(s)@ + decimal(n as int),
{
    let mag: u64 = if n < 0 {
        (-(n as i128)) as u64
    } else {
        n as u64
    };
    let mut low: Vec<char> = Vec::new();
    let mut m: u64 = mag;
    while m >= 10
        invariant
            digits(mag as nat) == digits(m as nat) + low@.reverse(),
        decreases m,
    {
        let ghost before = low@;
        low.push(digit(m % 10));
        proof {
            assert(digits(m as nat) == digits((m / 10) as nat).push(digit_char((m % 10) as int)));
            assert(digits((m / 10) as nat).push(digit_char((m % 10) as int)) + before.reverse()
                =~= digits((m / 10) as nat) + low@.reverse());
        }
        m = m / 10;
    }
    low.push(digit(m));
    proof {
        assert(digits(mag as nat) =~= low@.reverse());
    }
    if n < 0 {
        s.push('-');
    }
    let ghost head = s@;
    let mut i: usize = low.len();
    while i > 0
        invariant
            i <= low.len(),
            s@ == head + low@.reverse().subrange(0, low.len() - i),
        decreases i,
    {
        i -= 1;
        s.push(low[i]);
        proof {
            let r = low@.reverse();
            assert(r[low.len() - 1 - i] == low@[i as int]);
            assert(r.subrange(0, low.len() - i) =~= r.subrange(0, low.len() - 1 - i).push(
                low@[i as int],
            ));
        }
    }
    proof {
        assert(low@.reverse().subrange(0, low.len() as int) =~= low@.reverse());
        assert(s@ =~= old(s)@ + decimal(n as int));
    }
}

/// The name of the file that a sink's lines are written to during a cycle.
pub open spec fn pending_name_of(sink: Seq<char>) -> Seq<char> {
    sink + pending_suffix()
}

/// The name under which a sink's file is committed at `stamp`, in seconds
/// since the Unix epoch.
pub open spec fn committed_name_of(sink: Seq<char>, stamp: int) -> Seq<char> {
    sink + seq!['-'] + decimal(stamp) + metrics_suffix()
}

/// `<sink>.tmp`.
pub fn pending_name(sink: &str) -> (name: String)
    ensures
        name@ == pending_name_of(sink@),
{
    let mut name = sink.to_owned();
    name.push('.');
    name.push('t');
    name.push('m');
    name.push('p');
    proof {
        assert(name@ =~= pending_name_of(sink@));
    }
    name
}

/// `<sink>-<stamp>.metrics`.
pub fn committed_name(sink: &str, stamp: i64) -> (name: String)
    ensures
        name@ == committed_name_of(sink@, stamp as int),
{
    let mut name = sink.to_owned();
    name.push('-');
    push_decimal(&mut name, stamp);
    name.push('.');
    name.push('m');
    name.push('e');
    name.push('t');
    name.push('r');
    name.push('i');
    name.push('c');
    name.push('s');
    proof {
        assert(name@ =~= committed_name_of(sink@, stamp as int));
    }
    name
}

/// A committed sink file carries the extension by which pending metrics
/// files are recognised: what the router commits, a reader of the sink
/// directory picks up.
pub proof fn lemma_committed_is_metrics(sink: Seq<char>, stamp: int)
    ensures
        is_metrics_name(committed_name_of(sink, stamp)),
        !is_metrics_name(pending_name_of(sink)),
{
    let name = committed_name_of(sink, stamp);
    assert(decimal(stamp).len() > 0) by {
        if stamp >= 0 {
            lemma_digits_nonempty(stamp as nat);
        }
    }
    assert(name.subrange(name.len() - 8, name.len() as int) =~= metrics_suffix());
    let tmp = pending_name_of(sink);
    if tmp.len() > 8 {
        let tail = tmp.subrange(tmp.len() - 8, tmp.len() as int);
        assert(tail[7] == 'p');
        assert(metrics_suffix()[7] == 's');
    }
}

/// A number has at least one digit.
pub proof fn lemma_digits_nonempty(n: nat)
    ensures
        digits(n).len() > 0,
    decreases n,
{
    if n >= 10 {
        lemma_digits_nonempty(n / 10);
    }
}

} // verus!
