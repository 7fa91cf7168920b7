//! Character-level helpers shared by the text formatting code.

use vstd::prelude::*;

verus! {

/// Whether `c` has Unicode's `White_Space` property, as `char::is_whitespace` reports it.
pub uninterp spec fn white_space(c: char) -> bool;

/// Relies on `char::is_whitespace`: the answer depends on the character alone.
#[verifier::external_body]
pub(crate) fn is_space(c: char) -> (r: bool)
    ensures
        r == white_space(c),
{
    c.is_whitespace()
}

/// Relies on `str::chars` (collected into a `Vec`): the characters of `s`, in order.
#[verifier::external_body]
pub(crate) fn chars_of(s: &str) -> (r: Vec<char>)
    ensures
        r@ == s@,
{
    s.chars().collect()
}

/// Relies on `String`'s `FromIterator<&char>`: the string made of the characters of `v`, in order.
#[verifier::external_body]
pub(crate) fn text_of(v: &Vec<char>) -> (r: String)
    ensures
        r@ == v@,
{
    v.iter().collect()
}

/// `n` copies of `c`.
pub open spec fn run(c: char, n: nat) -> Seq<char> {
    Seq::new(n, |_i: int| c)
}

/// `s` without its leading white space.
pub open spec fn trim_start(s: Seq<char>) -> Seq<char>
    decreases s.len(),
{
    if s.len() > 0 && white_space(s[0]) {
        trim_start(s.drop_first())
    } else {
        s
    }
}

/// `s` without its trailing white space.
pub open spec fn trim_end(s: Seq<char>) -> Seq<char>
    decreases s.len(),
{
    if s.len() > 0 && white_space(s.last()) {
        trim_end(s.drop_last())
    } else {
        s
    }
}

/// `s` without white space at either end.
pub open spec fn trimmed(s: Seq<char>) -> Seq<char> {
    trim_end(trim_start(s))
}

/// Appends `n` copies of `c` to `v`.
pub fn push_run(v: &mut Vec<char>, c: char, n: usize)
    ensures
        final(v)@ == old(v)@ + run(c, n as nat),
{
    let ghost start = v@;
    let mut i: usize = 0;
    while i < n
        invariant
            i <= n,
            v@ == start + run(c, i as nat),
        decreases n - i,
    {
        v.push(c);
        i = i + 1;
        assert(v@ =~= start + run(c, i as nat));
    }
}

/// Appends `src[lo..hi]` to `v`.
pub fn push_range(v: &mut Vec<char>, src: &Vec<char>, lo: usize, hi: usize)
    requires
        lo <= hi <= src@.len(),
    ensures
        final(v)@ == old(v)@ + src@.subrange(lo as int, hi as int),
{
    let ghost start = v@;
    let mut i: usize = lo;
    while i < hi
        invariant
            lo <= i <= hi <= src@.len(),
            v@ == start + src@.subrange(lo as int, i as int),
        decreases hi - i,
    {
        v.push(src[i]);
        i = i + 1;
        assert(v@ =~= start + src@.subrange(lo as int, i as int));
    }
}

/// The bounds of `src[lo..hi]` with white space removed from both ends.
pub fn trim_range(src: &Vec<char>, lo: usize, hi: usize) -> (r: (usize, usize))
    requires
        lo <= hi <= src@.len(),
    ensures
        lo <= r.0 <= r.1 <= hi,
        src@.subrange(r.0 as int, r.1 as int) == trimmed(src@.subrange(lo as int, hi as int)),
{
    let mut a: usize = lo;
    while a < hi && is_space(src[a])
        invariant
            lo <= a <= hi <= src@.len(),
            trim_start(src@.subrange(lo as int, hi as int)) == trim_start(
                src@.subrange(a as int, hi as int),
            ),
        decreases hi - a,
    {
        assert(src@.subrange(a as int, hi as int).drop_first() =~= src@.subrange(
            a + 1,
            hi as int,
        ));
        a = a + 1;
    }
    assert(trim_start(src@.subrange(a as int, hi as int)) == src@.subrange(a as int, hi as int));
    let mut b: usize = hi;
    while b > a && is_space(src[b - 1])
        invariant
            lo <= a <= b <= hi <= src@.len(),
            trim_end(src@.subrange(a as int, hi as int)) == trim_end(
                src@.subrange(a as int, b as int),
            ),
        decreases b - a,
    {
        assert(src@.subrange(a as int, b as int).drop_last() =~= src@.subrange(
            a as int,
            b - 1,
        ));
        b = b - 1;
    }
    (a, b)
}

} // verus!
