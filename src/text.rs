use vstd::prelude::*;

verus! {

pub const SLASH: u8 = 47;

pub const DOT: u8 = 46;

pub const CR: u8 = 13;

pub const LF: u8 = 10;

/// `pat` occurs in `s` starting at index `i`.
pub open spec fn occurs_at(s: Seq<u8>, i: int, pat: Seq<u8>) -> bool {
    0 <= i && i + pat.len() <= s.len() && s.subrange(i, i + pat.len()) == pat
}

/// `seg` is a whole `/`-separated segment of `p` starting at index `i`.
pub open spec fn segment_at(p: Seq<u8>, i: int, seg: Seq<u8>) -> bool {
    &&& occurs_at(p, i, seg)
    &&& (i == 0 || p[i - 1] == SLASH)
    &&& (i + seg.len() == p.len() || p[i + seg.len()] == SLASH)
}

pub open spec fn has_segment(p: Seq<u8>, seg: Seq<u8>) -> bool {
    exists|i: int| #[trigger] segment_at(p, i, seg)
}

pub fn occurs_at_exec(s: &[u8], i: usize, pat: &[u8]) -> (r: bool)
    ensures
        r == occurs_at(s@, i as int, pat@),
{
    if i > s.len() || pat.len() > s.len() - i {
        return false;
    }
    let mut k: usize = 0;
    while k < pat.len()
        invariant
            i + pat@.len() <= s@.len() <= usize::MAX,
            k <= pat@.len(),
            forall|j: int| 0 <= j < k ==> s@[i + j] == pat@[j],
        decreases pat@.len() - k,
    {
        if s[i + k] != pat[k] {
            assert(s@.subrange(i as int, i + pat@.len())[k as int] != pat@[k as int]);
            return false;
        }
        k = k + 1;
    }
    assert(s@.subrange(i as int, i + pat@.len()) =~= pat@);
    true
}

pub fn segment_at_exec(p: &[u8], i: usize, seg: &[u8]) -> (r: bool)
    ensures
        r == segment_at(p@, i as int, seg@),
{
    if !occurs_at_exec(p, i, seg) {
        return false;
    }
    let before = i == 0 || p[i - 1] == SLASH;
    let end = i + seg.len();
    let after = end == p.len() || p[end] == SLASH;
    before && after
}

pub fn has_segment_exec(p: &[u8], seg: &[u8]) -> (r: bool)
    ensures
        r == has_segment(p@, seg@),
{
    let mut i: usize = 0;
    while i < p.len()
        invariant
            i <= p@.len(),
            forall|j: int| 0 <= j < i ==> !segment_at(p@, j, seg@),
        decreases p@.len() - i,
    {
        if segment_at_exec(p, i, seg) {
            return true;
        }
        i = i + 1;
    }
    if segment_at_exec(p, i, seg) {
        return true;
    }
    assert forall|j: int| !segment_at(p@, j, seg@) by {
        if 0 <= j <= i {
        }
    }
    false
}

/// `b` is one of the two line-ending characters.
pub open spec fn is_line_end(b: u8) -> bool {
    b == CR || b == LF
}

/// `b` is ASCII whitespace: a line ending, a space, a tab, a vertical tab or a
/// form feed.
pub open spec fn is_ascii_space(b: u8) -> bool {
    is_line_end(b) || b == 32 || b == 9 || b == 11 || b == 12
}

/// `b` is taken off the ends of a text: whitespace where `spaces` holds, line
/// endings otherwise.
pub open spec fn is_trimmed(b: u8, spaces: bool) -> bool {
    if spaces {
        is_ascii_space(b)
    } else {
        is_line_end(b)
    }
}

fn is_trimmed_exec(b: u8, spaces: bool) -> (r: bool)
    ensures
        r == is_trimmed(b, spaces),
{
    if spaces {
        b == CR || b == LF || b == 32 || b == 9 || b == 11 || b == 12
    } else {
        b == CR || b == LF
    }
}

/// The text with its leading trimmed bytes taken off.
pub open spec fn strip_front(s: Seq<u8>, spaces: bool) -> Seq<u8>
    decreases s.len(),
{
    if s.len() > 0 && is_trimmed(s[0], spaces) {
        strip_front(s.drop_first(), spaces)
    } else {
        s
    }
}

/// The text with its trailing trimmed bytes taken off.
pub open spec fn strip_back(s: Seq<u8>, spaces: bool) -> Seq<u8>
    decreases s.len(),
{
    if s.len() > 0 && is_trimmed(s.last(), spaces) {
        strip_back(s.drop_last(), spaces)
    } else {
        s
    }
}

/// The text with every trimmed byte at either end taken off.
pub open spec fn trim(s: Seq<u8>, spaces: bool) -> Seq<u8> {
    strip_back(strip_front(s, spaces), spaces)
}

/// The text with every line-ending character at either end taken off.
pub open spec fn trim_line_ends(s: Seq<u8>) -> Seq<u8> {
    trim(s, false)
}

/// The text with all ASCII whitespace at either end taken off.
pub open spec fn trim_whitespace(s: Seq<u8>) -> Seq<u8> {
    trim(s, true)
}

pub fn trim_exec(s: &[u8], spaces: bool) -> (r: Vec<u8>)
    ensures
        r@ == trim(s@, spaces),
{
    let n = s.len();
    let mut a: usize = 0;
    assert(s@.subrange(0, n as int) =~= s@);
    while a < n && is_trimmed_exec(s[a], spaces)
        invariant
            a <= n == s@.len(),
            strip_front(s@, spaces) == strip_front(s@.subrange(a as int, n as int), spaces),
        decreases n - a,
    {
        assert(s@.subrange(a as int, n as int).drop_first() =~= s@.subrange(a + 1, n as int));
        a = a + 1;
    }
    let ghost front = s@.subrange(a as int, n as int);
    assert(strip_front(s@, spaces) == front);
    let mut b: usize = n;
    while b > a && is_trimmed_exec(s[b - 1], spaces)
        invariant
            a <= b <= n == s@.len(),
            front == s@.subrange(a as int, n as int),
            strip_back(front, spaces) == strip_back(s@.subrange(a as int, b as int), spaces),
        decreases b - a,
    {
        assert(s@.subrange(a as int, b as int).drop_last() =~= s@.subrange(a as int, b - 1));
        b = b - 1;
    }
    let mut r: Vec<u8> = Vec::new();
    let mut k: usize = a;
    while k < b
        invariant
            a <= k <= b <= n == s@.len(),
            r@ =~= s@.subrange(a as int, k as int),
        decreases b - k,
    {
        r.push(s[k]);
        k = k + 1;
    }
    r
}

pub fn bytes_eq(a: &[u8], b: &[u8]) -> (r: bool)
    ensures
        r == (a@ == b@),
{
    if a.len() != b.len() {
        return false;
    }
    let r = occurs_at_exec(a, 0, b);
    assert(a@.subrange(0, b@.len() as int) =~= a@);
    r
}

pub fn copy_bytes(a: &[u8]) -> (r: Vec<u8>)
    ensures
        r@ == a@,
{
    vstd::slice::slice_to_vec(a)
}

} // verus!
