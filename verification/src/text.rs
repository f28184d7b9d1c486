//! Character-level text utilities with exact specifications.
use vstd::prelude::*;

verus! {

/// Appends one character to a `String` (`String::push`).
#[verifier::external_body]
fn push_char(s: &mut String, c: char)
    ensures
        final(s)@ == old(s)@.push(c),
{
    s.push(c);
}

/// The characters of `s`, in order.
pub fn chars_of(s: &str) -> (r: Vec<char>)
    ensures
        r@ == s@,
{
    let mut r: Vec<char> = Vec::new();
    for c in it: s.chars()
        invariant
            r@ == it.seq().take(it.index() as int),
            it.seq() == s@,
    {
        r.push(c);
    }
    r
}

/// A `String` holding exactly the characters of `v`.
pub fn string_of(v: &[char]) -> (r: String)
    ensures
        r@ == v@,
{
    let mut r = String::new();
    let mut i: usize = 0;
    while i < v.len()
        invariant
            i <= v.len(),
            r@ == v@.take(i as int),
        decreases v.len() - i,
    {
        push_char(&mut r, v[i]);
        assert(v@.take(i + 1) =~= v@.take(i as int).push(v@[i as int]));
        i = i + 1;
    }
    assert(v@.take(v.len() as int) =~= v@);
    r
}


/// Whether `c` has the Unicode `White_Space` property, the set that
/// `char::is_whitespace` and `str::trim` use.
pub open spec fn is_space(c: char) -> bool {
    let u = c as u32;
    ||| 0x9 <= u <= 0xd
    ||| u == 0x20
    ||| u == 0x85
    ||| u == 0xa0
    ||| u == 0x1680
    ||| 0x2000 <= u <= 0x200a
    ||| u == 0x2028
    ||| u == 0x2029
    ||| u == 0x202f
    ||| u == 0x205f
    ||| u == 0x3000
}

/// `t` without its leading white space.
pub open spec fn trim_start(t: Seq<char>) -> Seq<char>
    decreases t.len(),
{
    if t.len() > 0 && is_space(t[0]) {
        trim_start(t.drop_first())
    } else {
        t
    }
}

/// `t` without its trailing white space.
pub open spec fn trim_end(t: Seq<char>) -> Seq<char>
    decreases t.len(),
{
    if t.len() > 0 && is_space(t.last()) {
        trim_end(t.drop_last())
    } else {
        t
    }
}

/// `t` without leading and trailing white space, as `str::trim` gives it.
pub open spec fn trim(t: Seq<char>) -> Seq<char> {
    trim_end(trim_start(t))
}

/// Decides `is_space`.
pub fn is_space_char(c: char) -> (r: bool)
    ensures
        r == is_space(c),
{
    let u = c as u32;
    (0x9 <= u && u <= 0xd) || u == 0x20 || u == 0x85 || u == 0xa0 || u == 0x1680 || (0x2000 <= u
        && u <= 0x200a) || u == 0x2028 || u == 0x2029 || u == 0x202f || u == 0x205f || u == 0x3000
}

/// A copy of `v[lo..hi]`.
pub fn copy_range(v: &[char], lo: usize, hi: usize) -> (r: Vec<char>)
    requires
        lo <= hi <= v@.len(),
    ensures
        r@ == v@.subrange(lo as int, hi as int),
{
    let mut r: Vec<char> = Vec::new();
    let mut i = lo;
    while i < hi
        invariant
            lo <= i <= hi <= v@.len(),
            r@ == v@.subrange(lo as int, i as int),
        decreases hi - i,
    {
        r.push(v[i]);
        assert(v@.subrange(lo as int, i + 1) =~= v@.subrange(lo as int, i as int).push(v@[i as int]));
        i = i + 1;
    }
    r
}

/// `v` trimmed of white space at both ends.
pub fn trim_chars(v: &[char]) -> (r: Vec<char>)
    ensures
        r@ == trim(v@),
{
    let n = v.len();
    let mut lo: usize = 0;
    assert(v@.subrange(0, n as int) =~= v@);
    while lo < n && is_space_char(v[lo])
        invariant
            lo <= n == v@.len(),
            trim_start(v@) == trim_start(v@.subrange(lo as int, n as int)),
        decreases n - lo,
    {
        assert(v@.subrange(lo as int, n as int).drop_first() =~= v@.subrange(lo + 1, n as int));
        lo = lo + 1;
    }
    let mut hi: usize = n;
    let ghost u = v@.subrange(lo as int, n as int);
    assert(trim_start(v@) == u);
    assert(u =~= v@.subrange(lo as int, hi as int));
    while hi > lo && is_space_char(v[hi - 1])
        invariant
            lo <= hi <= n == v@.len(),
            u == v@.subrange(lo as int, n as int),
            trim_end(u) == trim_end(v@.subrange(lo as int, hi as int)),
        decreases hi - lo,
    {
        assert(v@.subrange(lo as int, hi as int).drop_last() =~= v@.subrange(lo as int, hi - 1));
        hi = hi - 1;
    }
    copy_range(v, lo, hi)
}


/// Whether `t` begins with `p`.
pub open spec fn starts_with(t: Seq<char>, p: Seq<char>) -> bool {
    p.len() <= t.len() && t.take(p.len() as int) == p
}

/// Whether `p` occurs in `t` starting at position `i`.
pub open spec fn occurs_at(t: Seq<char>, p: Seq<char>, i: int) -> bool {
    0 <= i && i + p.len() <= t.len() && t.subrange(i, i + p.len()) == p
}

/// The first position at or after `i` where `p` occurs in `t`.
pub open spec fn find_from(t: Seq<char>, p: Seq<char>, i: int) -> Option<int>
    decreases t.len() + 1 - i,
{
    if i < 0 || i + p.len() > t.len() {
        None
    } else if occurs_at(t, p, i) {
        Some(i)
    } else {
        find_from(t, p, i + 1)
    }
}

/// The first position where `p` occurs in `t`, as `str::find` reports it.
pub open spec fn find(t: Seq<char>, p: Seq<char>) -> Option<int> {
    find_from(t, p, 0)
}

/// Whether `p` occurs in `t`, as `str::contains` decides it.
pub open spec fn contains(t: Seq<char>, p: Seq<char>) -> bool {
    find(t, p) is Some
}

/// Decides `starts_with`.
pub fn starts_with_chars(t: &[char], p: &[char]) -> (r: bool)
    ensures
        r == starts_with(t@, p@),
{
    if p.len() > t.len() {
        return false;
    }
    let mut i: usize = 0;
    while i < p.len()
        invariant
            i <= p@.len() <= t@.len(),
            forall|j: int| 0 <= j < i ==> t@[j] == p@[j],
        decreases p.len() - i,
    {
        if t[i] != p[i] {
            assert(t@.take(p@.len() as int)[i as int] != p@[i as int]);
            return false;
        }
        i = i + 1;
    }
    assert(t@.take(p@.len() as int) =~= p@);
    true
}

/// Whether two character sequences are equal.
pub fn same_chars(a: &[char], b: &[char]) -> (r: bool)
    ensures
        r == (a@ == b@),
{
    if a.len() != b.len() {
        return false;
    }
    let r = starts_with_chars(a, b);
    if r {
        assert(a@.take(b@.len() as int) =~= a@);
    } else {
        assert(a@ != b@) by {
            if a@ == b@ {
                assert(a@.take(b@.len() as int) =~= b@);
            }
        }
    }
    r
}

/// Decides `occurs_at`.
fn occurs_at_exec(t: &[char], p: &[char], i: usize) -> (r: bool)
    ensures
        r == occurs_at(t@, p@, i as int),
{
    if p.len() > t.len() || i > t.len() - p.len() {
        return false;
    }
    let mut k: usize = 0;
    while k < p.len()
        invariant
            i + p@.len() <= t@.len(),
            t@.len() == t.len(),
            k <= p@.len(),
            forall|j: int| 0 <= j < k ==> t@[i + j] == p@[j],
        decreases p.len() - k,
    {
        if t[i + k] != p[k] {
            assert(t@.subrange(i as int, i + p@.len())[k as int] != p@[k as int]);
            return false;
        }
        k = k + 1;
    }
    assert(t@.subrange(i as int, i + p@.len()) =~= p@);
    true
}

/// The first position where `p` occurs in `t`.
pub fn find_chars(t: &[char], p: &[char]) -> (r: Option<usize>)
    ensures
        match r {
            Some(i) => find(t@, p@) == Some(i as int),
            None => find(t@, p@) is None,
        },
{
    if p.len() > t.len() {
        return None;
    }
    let last = t.len() - p.len();
    let mut i: usize = 0;
    while i <= last
        invariant
            last + p@.len() == t@.len(),
            find(t@, p@) == find_from(t@, p@, i as int),
        decreases last + 1 - i,
    {
        if occurs_at_exec(t, p, i) {
            return Some(i);
        }
        if i == last {
            assert(find_from(t@, p@, i + 1) is None);
            return None;
        }
        i = i + 1;
    }
    None
}

/// Decides `contains`.
pub fn contains_chars(t: &[char], p: &[char]) -> (r: bool)
    ensures
        r == contains(t@, p@),
{
    find_chars(t, p).is_some()
}

/// The first position at or after `i` that holds `c`, or the length of `t`.
pub open spec fn index_of_from(t: Seq<char>, c: char, i: int) -> int
    decreases t.len() - i,
{
    if i < 0 || i >= t.len() {
        t.len() as int
    } else if t[i] == c {
        i
    } else {
        index_of_from(t, c, i + 1)
    }
}

/// The first position of `c` in `t`, or the length of `t` where it does not occur.
pub open spec fn index_of(t: Seq<char>, c: char) -> int {
    index_of_from(t, c, 0)
}

/// `t` split at its first `c`: the part before it and, where `c` occurs, the part
/// after it (the first two pieces of `str::splitn(2, c)`).
pub open spec fn split_once_char(t: Seq<char>, c: char) -> (Seq<char>, Option<Seq<char>>) {
    let k = index_of(t, c);
    if 0 <= k < t.len() {
        (t.take(k), Some(t.skip(k + 1)))
    } else {
        (t, None)
    }
}

/// The first position of `c` in `t`, or the length of `t`.
pub fn index_of_char(t: &[char], c: char) -> (r: usize)
    ensures
        r == index_of(t@, c),
        r <= t@.len(),
{
    let mut i: usize = 0;
    while i < t.len()
        invariant
            i <= t@.len(),
            index_of(t@, c) == index_of_from(t@, c, i as int),
        decreases t.len() - i,
    {
        if t[i] == c {
            return i;
        }
        i = i + 1;
    }
    i
}

/// Splits `t` at its first `c`.
pub fn split_once_chars(t: &[char], c: char) -> (r: (Vec<char>, Option<Vec<char>>))
    ensures
        r.0@ == split_once_char(t@, c).0,
        match r.1 {
            Some(v) => split_once_char(t@, c).1 == Some(v@),
            None => split_once_char(t@, c).1 is None,
        },
{
    let k = index_of_char(t, c);
    if k < t.len() {
        let a = copy_range(t, 0, k);
        let b = copy_range(t, k + 1, t.len());
        assert(a@ =~= t@.take(k as int));
        assert(b@ =~= t@.skip(k + 1));
        (a, Some(b))
    } else {
        let a = copy_range(t, 0, t.len());
        assert(a@ =~= t@);
        (a, None)
    }
}


/// A position that `find_from` reports holds an occurrence, at or after the start.
pub proof fn lemma_find_from_found(t: Seq<char>, p: Seq<char>, i: int, j: int)
    requires
        find_from(t, p, i) == Some(j),
    ensures
        i <= j,
        occurs_at(t, p, j),
    decreases t.len() + 1 - i,
{
    if !(i < 0 || i + p.len() > t.len()) && !occurs_at(t, p, i) {
        lemma_find_from_found(t, p, i + 1, j);
    }
}

/// `find_from` reports the first occurrence at or after its start.
pub proof fn lemma_find_from_first(t: Seq<char>, p: Seq<char>, j: int, k: int)
    requires
        0 <= j <= k,
        occurs_at(t, p, k),
        forall|i: int| j <= i < k ==> !occurs_at(t, p, i),
    ensures
        find_from(t, p, j) == Some(k),
    decreases k - j,
{
    if j < k {
        lemma_find_from_first(t, p, j + 1, k);
    }
}

/// Where `find_from` reports nothing, nothing occurs at or after the start.
pub proof fn lemma_find_from_none(t: Seq<char>, p: Seq<char>, j: int)
    requires
        0 <= j,
        find_from(t, p, j) is None,
    ensures
        forall|i: int| j <= i ==> !occurs_at(t, p, i),
    decreases t.len() + 1 - j,
{
    if j + p.len() <= t.len() {
        lemma_find_from_none(t, p, j + 1);
    }
}

/// `index_of_from` reports the first position at or after its start that holds `c`.
pub proof fn lemma_index_of_from_first(t: Seq<char>, c: char, i: int, k: int)
    requires
        0 <= i <= k <= t.len(),
        forall|j: int| i <= j < k ==> t[j] != c,
        k < t.len() ==> t[k] == c,
    ensures
        index_of_from(t, c, i) == k,
    decreases k - i,
{
    if i < k {
        lemma_index_of_from_first(t, c, i + 1, k);
    }
}

} // verus!
