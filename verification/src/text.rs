//! Character-level primitives shared by the line-oriented modules.
//!
//! Text is modelled as `Seq<char>`, the view of `str` and `String`.

use vstd::prelude::*;

verus! {

/// `String::push` appends one character.
pub assume_specification[ String::push ](s: &mut String, c: char)
    ensures
        final(s)@ == old(s)@.push(c),
;

/// Whether `c` is white space: the code points that carry the Unicode
/// property `White_Space`.
pub open spec fn is_space(c: char) -> bool {
    let n = c as u32;
    ||| 0x09 <= n <= 0x0D
    ||| n == 0x20
    ||| n == 0x85
    ||| n == 0xA0
    ||| n == 0x1680
    ||| 0x2000 <= n <= 0x200A
    ||| n == 0x2028
    ||| n == 0x2029
    ||| n == 0x202F
    ||| n == 0x205F
    ||| n == 0x3000
}

/// Decides [`is_space`].
pub fn space(c: char) -> (b: bool)
    ensures
        b == is_space(c),
{
    let n: u32 = c as u32;
    (0x09 <= n && n <= 0x0D) || n == 0x20 || n == 0x85 || n == 0xA0 || n == 0x1680 || (0x2000 <= n
        && n <= 0x200A) || n == 0x2028 || n == 0x2029 || n == 0x202F || n == 0x205F || n == 0x3000
}

/// The least index `j >= from` at which `s[j] == c`, or `s.len()` if there is none.
pub open spec fn index_from(s: Seq<char>, from: int, c: char) -> int
    decreases s.len() - from,
{
    if from < 0 || from >= s.len() {
        s.len() as int
    } else if s[from] == c {
        from
    } else {
        index_from(s, from + 1, c)
    }
}

/// The least index at which `s` holds `c`, or `s.len()` if it holds none.
pub open spec fn index_of(s: Seq<char>, c: char) -> int {
    index_from(s, 0, c)
}

/// The least index `j >= from` at which `is_space(s[j]) == space`, or
/// `s.len()` if there is none.
pub open spec fn scan(s: Seq<char>, from: int, space: bool) -> int
    decreases s.len() - from,
{
    if from < 0 || from >= s.len() {
        s.len() as int
    } else if is_space(s[from]) == space {
        from
    } else {
        scan(s, from + 1, space)
    }
}

/// `index_from` is the first occurrence at or after `from`.
pub proof fn lemma_index_from(s: Seq<char>, from: int, c: char)
    requires
        0 <= from <= s.len(),
    ensures
        from <= index_from(s, from, c) <= s.len(),
        index_from(s, from, c) < s.len() ==> s[index_from(s, from, c)] == c,
        forall|j: int| from <= j < index_from(s, from, c) ==> s[j] != c,
    decreases s.len() - from,
{
    if from < s.len() && s[from] != c {
        lemma_index_from(s, from + 1, c);
    }
}

/// `scan` is the first position at or after `from` of the wanted kind.
pub proof fn lemma_scan(s: Seq<char>, from: int, space: bool)
    requires
        0 <= from <= s.len(),
    ensures
        from <= scan(s, from, space) <= s.len(),
        scan(s, from, space) < s.len() ==> is_space(s[scan(s, from, space)]) == space,
        forall|j: int| from <= j < scan(s, from, space) ==> is_space(#[trigger] s[j]) != space,
    decreases s.len() - from,
{
    if from < s.len() && is_space(s[from]) != space {
        lemma_scan(s, from + 1, space);
    }
}

/// Computes [`index_from`].
pub fn find_from(v: &Vec<char>, from: usize, c: char) -> (i: usize)
    requires
        from <= v.len(),
    ensures
        i == index_from(v@, from as int, c),
        from <= i <= v.len(),
{
    let mut i: usize = from;
    while i < v.len() && v[i] != c
        invariant
            from <= i <= v.len(),
            index_from(v@, from as int, c) == index_from(v@, i as int, c),
        decreases v.len() - i,
    {
        i += 1;
    }
    proof {
        lemma_index_from(v@, i as int, c);
    }
    i
}

/// Computes [`scan`].
pub fn scan_from(v: &Vec<char>, from: usize, want_space: bool) -> (i: usize)
    requires
        from <= v.len(),
    ensures
        i == scan(v@, from as int, want_space),
        from <= i <= v.len(),
{
    let mut i: usize = from;
    while i < v.len() && space(v[i]) != want_space
        invariant
            from <= i <= v.len(),
            scan(v@, from as int, want_space) == scan(v@, i as int, want_space),
        decreases v.len() - i,
    {
        i += 1;
    }
    proof {
        lemma_scan(v@, i as int, want_space);
    }
    i
}

/// The text of each string of `v`, in order.
pub open spec fn views(v: Seq<String>) -> Seq<Seq<char>> {
    Seq::new(v.len(), |i: int| v[i]@)
}

/// Pushing a string pushes its text.
pub proof fn lemma_views_push(v: Seq<String>, s: String)
    ensures
        views(v.push(s)) == views(v).push(s@),
{
    assert(views(v.push(s)) =~= views(v).push(s@));
}

/// The characters of `s`, in order.
pub fn chars_of(s: &str) -> (v: Vec<char>)
    ensures
        v@ == s@,
{
    let mut v: Vec<char> = Vec::new();
    for c in it: s.chars()
        invariant
            it.seq() == s@,
            v@ == it.seq().take(it.index() as int),
    {
        v.push(c);
    }
    v
}

/// The string made of the characters `v[from..to]`.
pub fn string_of(v: &Vec<char>, from: usize, to: usize) -> (s: String)
    requires
        from <= to <= v.len(),
    ensures
        s@ == v@.subrange(from as int, to as int),
{
    let mut s = String::new();
    let mut i: usize = from;
    while i < to
        invariant
            from <= i <= to <= v.len(),
            s@ == v@.subrange(from as int, i as int),
        decreases to - i,
    {
        s.push(v[i]);
        i += 1;
    }
    s
}

/// Appends the characters `v[from..to]` to `s`.
pub fn push_range(s: &mut String, v: &Vec<char>, from: usize, to: usize)
    requires
        from <= to <= v.len(),
    ensures
        final(s)@ == old(s)@ + v@.subrange(from as int, to as int),
{
    let mut i: usize = from;
    while i < to
        invariant
            from <= i <= to <= v.len(),
            s@ == old(s)@ + v@.subrange(from as int, i as int),
        decreases to - i,
    {
        s.push(v[i]);
        i += 1;
    }
}

} // verus!
