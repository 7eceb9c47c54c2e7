//! Sequences of characters: the model that every contract of this crate is
//! stated over, and the executable operations on `Vec<char>` that meet it.

use vstd::prelude::*;
use vstd::std_specs::iter::IteratorSpec;

verus! {

/// Whether `c` is whitespace in the sense of Unicode (`White_Space`), as
/// `char::is_whitespace` reports it.
pub uninterp spec fn whitespace(c: char) -> bool;

/// `char::is_whitespace` decides what `whitespace` names.
pub assume_specification[ char::is_whitespace ](c: char) -> (b: bool)
    ensures
        b == whitespace(c),
;

/// `String::push` appends one character to the end of the string.
pub assume_specification[ String::push ](s: &mut String, c: char)
    ensures
        final(s)@ == old(s)@.push(c),
;

/// `String::push_str` appends the characters of `t` to the end of the string.
pub assume_specification[ String::push_str ](s: &mut String, t: &str)
    ensures
        final(s)@ == old(s)@ + t@,
;

/// Whether `p` stands in `s` at index `i`.
pub open spec fn occurs_at(s: Seq<char>, p: Seq<char>, i: int) -> bool {
    0 <= i && i + p.len() <= s.len() && s.subrange(i, i + p.len()) == p
}

/// Whether `s` begins with `p`.
pub open spec fn starts_with(s: Seq<char>, p: Seq<char>) -> bool {
    occurs_at(s, p, 0)
}

/// Whether `s` ends with `p`.
pub open spec fn ends_with(s: Seq<char>, p: Seq<char>) -> bool {
    occurs_at(s, p, s.len() - p.len())
}

/// The least index at or after `from` at which `p` stands in `s`, if there is
/// one.
pub open spec fn find_from(s: Seq<char>, p: Seq<char>, from: int) -> Option<int>
    decreases s.len() + 1 - from,
{
    if from < 0 || from + p.len() > s.len() {
        None
    } else if occurs_at(s, p, from) {
        Some(from)
    } else {
        find_from(s, p, from + 1)
    }
}

/// The least index at which `p` stands in `s`, if there is one.
pub open spec fn find(s: Seq<char>, p: Seq<char>) -> Option<int> {
    find_from(s, p, 0)
}

/// The pieces of `s` from index `from` on that lie between the occurrences of
/// the separator `p`, the occurrences taken from the left and without overlap.
pub open spec fn split_from(s: Seq<char>, p: Seq<char>, from: int) -> Seq<Seq<char>>
    decreases s.len() - from,
{
    match find_from(s, p, from) {
        Some(i) if p.len() > 0 => {
            proof {
                if 0 <= from {
                    lemma_find_from(s, p, from);
                }
            }
            seq![s.subrange(from, i)] + split_from(s, p, i + p.len())
        },
        _ => seq![s.subrange(from, s.len() as int)],
    }
}

/// The pieces of `s` that lie between the occurrences of the separator `p`.
/// There is always at least one piece; an empty one stands for a separator at
/// an end of `s` or next to another.
pub open spec fn split(s: Seq<char>, p: Seq<char>) -> Seq<Seq<char>> {
    split_from(s, p, 0)
}

/// `s` without the whitespace it begins with.
pub open spec fn trim_start(s: Seq<char>) -> Seq<char>
    decreases s.len(),
{
    if s.len() > 0 && whitespace(s[0]) {
        trim_start(s.drop_first())
    } else {
        s
    }
}

/// `s` without the whitespace it ends with.
pub open spec fn trim_end(s: Seq<char>) -> Seq<char>
    decreases s.len(),
{
    if s.len() > 0 && whitespace(s.last()) {
        trim_end(s.drop_last())
    } else {
        s
    }
}

/// `s` without the whitespace at either end.
pub open spec fn trim(s: Seq<char>) -> Seq<char> {
    trim_end(trim_start(s))
}

/// `s` without the characters `c` it begins with.
pub open spec fn strip_start(s: Seq<char>, c: char) -> Seq<char>
    decreases s.len(),
{
    if s.len() > 0 && s[0] == c {
        strip_start(s.drop_first(), c)
    } else {
        s
    }
}

/// `s` without the characters `c` it ends with.
pub open spec fn strip_end(s: Seq<char>, c: char) -> Seq<char>
    decreases s.len(),
{
    if s.len() > 0 && s.last() == c {
        strip_end(s.drop_last(), c)
    } else {
        s
    }
}

/// `s` without the characters `c` at either end.
pub open spec fn strip(s: Seq<char>, c: char) -> Seq<char> {
    strip_end(strip_start(s, c), c)
}

/// The pieces joined into one sequence, with `sep` between neighbours.
pub open spec fn join(pieces: Seq<Seq<char>>, sep: Seq<char>) -> Seq<char>
    decreases pieces.len(),
{
    if pieces.len() == 0 {
        Seq::empty()
    } else if pieces.len() == 1 {
        pieces[0]
    } else {
        join(pieces.drop_last(), sep) + sep + pieces.last()
    }
}

/// The views of the strings of `v`, in order.
pub open spec fn views(v: Seq<String>) -> Seq<Seq<char>> {
    v.map_values(|t: String| t@)
}

/// The views of the character vectors of `v`, in order.
pub open spec fn texts(v: Seq<Vec<char>>) -> Seq<Seq<char>> {
    v.map_values(|t: Vec<char>| t@)
}

/// `find_from` gives the first occurrence: nothing before it is one, and
/// where it gives none there is none at or after `from`.
pub proof fn lemma_find_from(s: Seq<char>, p: Seq<char>, from: int)
    requires
        0 <= from,
    ensures
        match find_from(s, p, from) {
            Some(i) => from <= i && occurs_at(s, p, i) && forall|j: int|
                from <= j < i ==> !occurs_at(s, p, j),
            None => forall|j: int| from <= j ==> !occurs_at(s, p, j),
        },
    decreases s.len() + 1 - from,
{
    if from + p.len() > s.len() {
    } else if occurs_at(s, p, from) {
    } else {
        lemma_find_from(s, p, from + 1);
    }
}

/// An occurrence at or after `from` with none before it is what `find_from`
/// gives.
pub proof fn lemma_first_occurrence(s: Seq<char>, p: Seq<char>, from: int, i: int)
    requires
        0 <= from <= i,
        occurs_at(s, p, i),
        forall|j: int| from <= j < i ==> !occurs_at(s, p, j),
    ensures
        find_from(s, p, from) == Some(i),
    decreases i - from,
{
    if from < i {
        lemma_first_occurrence(s, p, from + 1, i);
    }
}

/// Where there is no occurrence at or after `from`, `find_from` gives none.
pub proof fn lemma_no_occurrence(s: Seq<char>, p: Seq<char>, from: int)
    requires
        forall|j: int| from <= j ==> !occurs_at(s, p, j),
    ensures
        find_from(s, p, from) is None,
    decreases s.len() + 1 - from,
{
    if !(from < 0 || from + p.len() > s.len()) {
        lemma_no_occurrence(s, p, from + 1);
    }
}

/// There is always at least one piece.
pub proof fn lemma_split_has_pieces(s: Seq<char>, p: Seq<char>, from: int)
    ensures
        split_from(s, p, from).len() >= 1,
{
}

/// Behind a text `x`, the pieces are those of what follows it.
pub proof fn lemma_split_behind(x: Seq<char>, y: Seq<char>, p: Seq<char>, k: int)
    requires
        0 <= k <= y.len(),
        p.len() > 0,
    ensures
        split_from(x + y, p, x.len() + k) == split_from(y, p, k),
    decreases y.len() - k,
{
    let s = x + y;
    let n = x.len() as int;
    assert forall|j: int| 0 <= j implies occurs_at(s, p, n + j) == occurs_at(y, p, j) by {
        if j + p.len() <= y.len() {
            assert(s.subrange(n + j, n + j + p.len()) == y.subrange(j, j + p.len()));
        }
    }
    lemma_find_from(y, p, k);
    match find_from(y, p, k) {
        Some(i) => {
            assert(occurs_at(s, p, n + i));
            assert forall|j: int| n + k <= j < n + i implies !occurs_at(s, p, j) by {
                assert(occurs_at(s, p, n + (j - n)) == occurs_at(y, p, j - n));
            }
            lemma_first_occurrence(s, p, n + k, n + i);
            assert(s.subrange(n + k, n + i) == y.subrange(k, i));
            lemma_split_behind(x, y, p, i + p.len());
        },
        None => {
            assert forall|j: int| n + k <= j implies !occurs_at(s, p, j) by {
                assert(occurs_at(s, p, n + (j - n)) == occurs_at(y, p, j - n));
            }
            lemma_no_occurrence(s, p, n + k);
            assert(s.subrange(n + k, s.len() as int) == y.subrange(k, y.len() as int));
        },
    }
}

/// The pieces of two texts with one separating character between them are
/// the pieces of the first followed by the pieces of the second.
pub proof fn lemma_split_joined(a: Seq<char>, b: Seq<char>, c: char, from: int)
    requires
        0 <= from <= a.len(),
    ensures
        split_from(a + seq![c] + b, seq![c], from) == split_from(a, seq![c], from) + split(
            b,
            seq![c],
        ),
    decreases a.len() - from,
{
    let p = seq![c];
    let s = a + p + b;
    let n = a.len() as int;
    assert forall|j: int| 0 <= j < n implies occurs_at(s, p, j) == occurs_at(a, p, j) by {
        assert(s.subrange(j, j + 1) == a.subrange(j, j + 1));
    }
    assert(occurs_at(s, p, n)) by {
        assert(s.subrange(n, n + 1) == p);
    }
    lemma_find_from(a, p, from);
    match find_from(a, p, from) {
        Some(i) => {
            lemma_first_occurrence(s, p, from, i);
            assert(s.subrange(from, i) == a.subrange(from, i));
            lemma_split_joined(a, b, c, i + 1);
            assert(seq![a.subrange(from, i)] + (split_from(a, p, i + 1) + split(b, p)) == seq![
                a.subrange(from, i),
            ] + split_from(a, p, i + 1) + split(b, p));
        },
        None => {
            lemma_first_occurrence(s, p, from, n);
            assert(s.subrange(from, n) == a.subrange(from, n));
            lemma_split_behind(a + p, b, p, 0);
            assert((a + p).len() == n + 1);
        },
    }
}

/// A text without the separator is one piece.
pub proof fn lemma_split_whole(s: Seq<char>, p: Seq<char>)
    requires
        forall|j: int| 0 <= j ==> !occurs_at(s, p, j),
    ensures
        split(s, p) == seq![s],
{
    lemma_no_occurrence(s, p, 0);
    assert(s.subrange(0, s.len() as int) == s);
}

/// The characters of `s`, in order.
pub fn chars_of(s: &str) -> (v: Vec<char>)
    ensures
        v@ == s@,
{
    let mut v: Vec<char> = Vec::new();
    for c in it: s.chars()
        invariant
            v@ == s@.take(it.index() as int),
            it.seq() == s@,
    {
        v.push(c);
    }
    v
}

/// The string that holds the characters `v[from..to]`.
pub fn string_of(v: &Vec<char>, from: usize, to: usize) -> (s: String)
    requires
        from <= to <= v.len(),
    ensures
        s@ == v@.subrange(from as int, to as int),
{
    let mut s = String::new();
    let mut i: usize = from;
    while i < to
        invariant
            from <= i <= to <= v.len(),
            s@ == v@.subrange(from as int, i as int),
        decreases to - i,
    {
        s.push(v[i]);
        i += 1;
    }
    s
}

/// The string that holds the characters of `v`.
pub fn to_string(v: &Vec<char>) -> (s: String)
    ensures
        s@ == v@,
{
    let s = string_of(v, 0, v.len());
    assert(v@.subrange(0, v.len() as int) == v@);
    s
}

/// A copy of the characters `v[from..to]`.
pub fn slice(v: &Vec<char>, from: usize, to: usize) -> (r: Vec<char>)
    requires
        from <= to <= v.len(),
    ensures
        r@ == v@.subrange(from as int, to as int),
{
    let mut r: Vec<char> = Vec::new();
    let mut i: usize = from;
    while i < to
        invariant
            from <= i <= to <= v.len(),
            r@ == v@.subrange(from as int, i as int),
        decreases to - i,
    {
        r.push(v[i]);
        i += 1;
    }
    r
}

/// Whether `p` stands in `s` at index `i`.
pub fn has_at(s: &Vec<char>, p: &Vec<char>, i: usize) -> (b: bool)
    ensures
        b == occurs_at(s@, p@, i as int),
{
    if i > s.len() || p.len() > s.len() - i {
        return false;
    }
    let mut j: usize = 0;
    while j < p.len()
        invariant
            i + p.len() <= s.len(),
            j <= p.len(),
            s@.subrange(i as int, i + j) == p@.subrange(0, j as int),
        decreases p.len() - j,
    {
        if s[i + j] != p[j] {
            assert(s@.subrange(i as int, i + p.len())[j as int] != p@[j as int]);
            return false;
        }
        assert(s@.subrange(i as int, i + j + 1) == s@.subrange(i as int, i + j).push(
            s@[i + j],
        ));
        assert(p@.subrange(0, j + 1) == p@.subrange(0, j as int).push(p@[j as int]));
        j += 1;
    }
    assert(p@.subrange(0, p.len() as int) == p@);
    true
}

/// The least index at or after `from` at which `p` stands in `s`.
pub fn find_in(s: &Vec<char>, p: &Vec<char>, from: usize) -> (r: Option<usize>)
    ensures
        match find_from(s@, p@, from as int) {
            Some(i) => r == Some(i as usize) && from <= i && i + p.len() <= s.len(),
            None => r is None,
        },
{
    if from > s.len() || p.len() > s.len() - from {
        return None;
    }
    let last: usize = s.len() - p.len();
    let mut i: usize = from;
    loop
        invariant
            from <= i <= last,
            last + p.len() == s.len(),
            find_from(s@, p@, from as int) == find_from(s@, p@, i as int),
        decreases last - i,
    {
        if has_at(s, p, i) {
            return Some(i);
        }
        if i >= last {
            assert(find_from(s@, p@, i + 1) is None);
            return None;
        }
        i += 1;
    }
}

/// The pieces of `s` that lie between the occurrences of the separator `p`.
pub fn split_on(s: &Vec<char>, p: &Vec<char>) -> (pieces: Vec<Vec<char>>)
    requires
        p.len() > 0,
    ensures
        texts(pieces@) == split(s@, p@),
        pieces.len() > 0,
{
    let mut pieces: Vec<Vec<char>> = Vec::new();
    let mut from: usize = 0;
    loop
        invariant
            p.len() > 0,
            from <= s.len(),
            split(s@, p@) == texts(pieces@) + split_from(s@, p@, from as int),
        decreases s.len() - from,
    {
        let ghost before = texts(pieces@);
        match find_in(s, p, from) {
            Some(i) => {
                let piece = slice(s, from, i);
                pieces.push(piece);
                assert(texts(pieces@) == before.push(piece@));
                assert(before.push(piece@) + split_from(s@, p@, i + p.len()) == before
                    + split_from(s@, p@, from as int));
                from = i + p.len();
            },
            None => {
                let piece = slice(s, from, s.len());
                pieces.push(piece);
                assert(texts(pieces@) == before.push(piece@));
                assert(before.push(piece@) == before + seq![piece@]);
                return pieces;
            },
        }
    }
}

/// `s` without the whitespace at either end.
pub fn trimmed(s: &Vec<char>) -> (r: Vec<char>)
    ensures
        r@ == trim(s@),
{
    let mut a: usize = 0;
    assert(s@.skip(0) == s@);
    while a < s.len() && s[a].is_whitespace()
        invariant
            a <= s.len(),
            trim_start(s@) == trim_start(s@.skip(a as int)),
        decreases s.len() - a,
    {
        assert(s@.skip(a as int).drop_first() == s@.skip(a + 1));
        a += 1;
    }
    assert(trim_start(s@) == s@.skip(a as int));
    let mut b: usize = s.len();
    while b > a && s[b - 1].is_whitespace()
        invariant
            a <= b <= s.len(),
            trim(s@) == trim_end(s@.subrange(a as int, b as int)),
        decreases b,
    {
        assert(s@.subrange(a as int, b as int).drop_last() == s@.subrange(a as int, b - 1));
        b -= 1;
    }
    slice(s, a, b)
}

/// `s` without the characters `c` at either end.
pub fn stripped(s: &Vec<char>, c: char) -> (r: Vec<char>)
    ensures
        r@ == strip(s@, c),
{
    let mut a: usize = 0;
    assert(s@.skip(0) == s@);
    while a < s.len() && s[a] == c
        invariant
            a <= s.len(),
            strip_start(s@, c) == strip_start(s@.skip(a as int), c),
        decreases s.len() - a,
    {
        assert(s@.skip(a as int).drop_first() == s@.skip(a + 1));
        a += 1;
    }
    assert(strip_start(s@, c) == s@.skip(a as int));
    let mut b: usize = s.len();
    while b > a && s[b - 1] == c
        invariant
            a <= b <= s.len(),
            strip(s@, c) == strip_end(s@.subrange(a as int, b as int), c),
        decreases b,
    {
        assert(s@.subrange(a as int, b as int).drop_last() == s@.subrange(a as int, b - 1));
        b -= 1;
    }
    slice(s, a, b)
}

/// A copy of the string.
pub fn copy_string(s: &String) -> (r: String)
    ensures
        r@ == s@,
{
    s.clone()
}

/// A copy of the strings.
pub fn copy_strings(v: &Vec<String>) -> (r: Vec<String>)
    ensures
        views(r@) == views(v@),
{
    let mut r: Vec<String> = Vec::new();
    let mut i: usize = 0;
    while i < v.len()
        invariant
            i <= v.len(),
            views(r@) == views(v@).take(i as int),
        decreases v.len() - i,
    {
        let ghost before = views(r@);
        let s = copy_string(&v[i]);
        r.push(s);
        assert(views(r@) == before.push(s@));
        assert(views(v@).take(i + 1) == views(v@).take(i as int).push(v[i as int]@));
        i += 1;
    }
    assert(views(v@).take(v.len() as int) == views(v@));
    r
}

/// The strings joined into one, with `sep` between neighbours.
pub fn join_strings(v: &Vec<String>, sep: &str) -> (r: String)
    ensures
        r@ == join(views(v@), sep@),
{
    let mut r = String::new();
    let mut i: usize = 0;
    assert(views(v@).take(0) == Seq::<Seq<char>>::empty());
    while i < v.len()
        invariant
            i <= v.len(),
            r@ == join(views(v@).take(i as int), sep@),
        decreases v.len() - i,
    {
        let ghost front = views(v@).take(i as int);
        let ghost next = views(v@).take(i + 1);
        assert(next.drop_last() == front);
        assert(next.last() == v[i as int]@);
        if i > 0 {
            r.push_str(sep);
        } else {
            assert(Seq::<char>::empty() + v[i as int]@ == v[i as int]@);
        }
        r.push_str(v[i].as_str());
        i += 1;
    }
    assert(views(v@).take(v.len() as int) == views(v@));
    r
}

} // verus!
