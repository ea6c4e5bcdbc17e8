//! Character-level text operations used to parse routes and request paths.
use vstd::prelude::*;

verus! {

/// Whether `c` has the Unicode `White_Space` property, the set that
/// `char::is_whitespace` (and so `str::trim`) tests: U+0009 to U+000D,
/// U+0020, U+0085, U+00A0, U+1680, U+2000 to U+200A, U+2028, U+2029,
/// U+202F, U+205F and U+3000.
pub open spec fn is_white_space(c: char) -> bool {
    let n = c as u32;
    (0x9 <= n && n <= 0xd) || n == 0x20 || n == 0x85 || n == 0xa0 || n == 0x1680 || (0x2000 <= n
        && n <= 0x200a) || n == 0x2028 || n == 0x2029 || n == 0x202f || n == 0x205f || n == 0x3000
}

/// Whether `c` has the Unicode `White_Space` property.
pub(crate) fn char_is_whitespace(c: char) -> (b: bool)
    ensures
        b == is_white_space(c),
{
    let n = c as u32;
    (0x9 <= n && n <= 0xd) || n == 0x20 || n == 0x85 || n == 0xa0 || n == 0x1680 || (0x2000 <= n
        && n <= 0x200a) || n == 0x2028 || n == 0x2029 || n == 0x202f || n == 0x205f || n == 0x3000
}

/// Calls `String::push`, which appends the character at the end of the string.
#[verifier::external_body]
pub(crate) fn push_char(s: &mut String, c: char)
    ensures
        final(s)@ == old(s)@.push(c),
{
    s.push(c)
}

/// `s` with one trailing `/` removed, then one leading `/` removed
/// (what `strip_suffix("/")` followed by `strip_prefix("/")` leaves).
pub open spec fn strip_slashes(s: Seq<char>) -> Seq<char> {
    let a = if s.len() > 0 && s.last() == '/' {
        s.drop_last()
    } else {
        s
    };
    if a.len() > 0 && a[0] == '/' {
        a.drop_first()
    } else {
        a
    }
}

/// The pieces of `s` between `/` separators, as `str::split("/")` yields them:
/// there is always at least one piece, and `n` separators give `n + 1` pieces.
pub open spec fn split_slash(s: Seq<char>) -> Seq<Seq<char>>
    decreases s.len(),
{
    if s.len() == 0 {
        seq![Seq::<char>::empty()]
    } else {
        let r = split_slash(s.drop_last());
        if s.last() == '/' {
            r.push(Seq::<char>::empty())
        } else {
            r.update(r.len() - 1, r.last().push(s.last()))
        }
    }
}

/// `s` without its leading white space.
pub open spec fn trim_start(s: Seq<char>) -> Seq<char>
    decreases s.len(),
{
    if s.len() > 0 && is_white_space(s[0]) {
        trim_start(s.drop_first())
    } else {
        s
    }
}

/// `s` without its trailing white space.
pub open spec fn trim_end(s: Seq<char>) -> Seq<char>
    decreases s.len(),
{
    if s.len() > 0 && is_white_space(s.last()) {
        trim_end(s.drop_last())
    } else {
        s
    }
}

/// `s` without leading and trailing white space (`str::trim`).
pub open spec fn trim(s: Seq<char>) -> Seq<char> {
    trim_end(trim_start(s))
}

pub proof fn lemma_split_slash_nonempty(s: Seq<char>)
    ensures
        split_slash(s).len() >= 1,
    decreases s.len(),
{
    if s.len() > 0 {
        lemma_split_slash_nonempty(s.drop_last());
    }
}

/// The characters of `s`, in order.
pub fn chars_of(s: &str) -> (v: Vec<char>)
    ensures
        v@ == s@,
{
    let mut v: Vec<char> = Vec::new();
    for c in it: s.chars()
        invariant
            v@ == it.seq().take(it.index() as int),
            it.seq() == s@,
    {
        v.push(c);
    }
    v
}

/// The string made of `cs[lo..hi]`.
pub fn string_of(cs: &Vec<char>, lo: usize, hi: usize) -> (s: String)
    requires
        lo <= hi <= cs.len(),
    ensures
        s@ == cs@.subrange(lo as int, hi as int),
{
    let mut s = String::new();
    let mut i = lo;
    while i < hi
        invariant
            lo <= i <= hi <= cs.len(),
            s@ == cs@.subrange(lo as int, i as int),
        decreases hi - i,
    {
        push_char(&mut s, cs[i]);
        assert(cs@.subrange(lo as int, i + 1) =~= cs@.subrange(lo as int, i as int).push(cs@[i as int]));
        i += 1;
    }
    s
}

/// The bounds `(lo, hi)` such that `cs[lo..hi]` is `strip_slashes(cs)`.
pub fn strip_slashes_bounds(cs: &Vec<char>) -> (b: (usize, usize))
    ensures
        b.0 <= b.1 <= cs.len(),
        cs@.subrange(b.0 as int, b.1 as int) == strip_slashes(cs@),
{
    let n = cs.len();
    let hi = if n > 0 && cs[n - 1] == '/' {
        n - 1
    } else {
        n
    };
    let lo = if hi > 0 && cs[0] == '/' {
        1
    } else {
        0
    };
    let ghost a = if n > 0 && cs@.last() == '/' {
        cs@.drop_last()
    } else {
        cs@
    };
    assert(a =~= cs@.subrange(0, hi as int));
    assert(cs@.subrange(lo as int, hi as int) =~= strip_slashes(cs@));
    (lo, hi)
}

/// The bounds of the pieces of `cs[lo..hi]` between `/` separators.
pub fn split_slash_bounds(cs: &Vec<char>, lo: usize, hi: usize) -> (r: Vec<(usize, usize)>)
    requires
        lo <= hi <= cs.len(),
    ensures
        r.len() == split_slash(cs@.subrange(lo as int, hi as int)).len(),
        forall|k: int|
            0 <= k < r.len() ==> {
                &&& lo <= (#[trigger] r[k]).0 <= r[k].1 <= hi
                &&& cs@.subrange(r[k].0 as int, r[k].1 as int) == split_slash(
                    cs@.subrange(lo as int, hi as int),
                )[k]
            },
{
    let mut r: Vec<(usize, usize)> = Vec::new();
    let mut start = lo;
    let mut i = lo;
    while i < hi
        invariant
            lo <= start <= i <= hi <= cs.len(),
            split_slash(cs@.subrange(lo as int, i as int)).len() == r.len() + 1,
            split_slash(cs@.subrange(lo as int, i as int)).last() == cs@.subrange(
                start as int,
                i as int,
            ),
            forall|k: int|
                0 <= k < r.len() ==> {
                    &&& lo <= (#[trigger] r[k]).0 <= r[k].1 <= hi
                    &&& cs@.subrange(r[k].0 as int, r[k].1 as int) == split_slash(
                        cs@.subrange(lo as int, i as int),
                    )[k]
                },
        decreases hi - i,
    {
        let ghost prev = cs@.subrange(lo as int, i as int);
        let ghost next = cs@.subrange(lo as int, i + 1);
        assert(next.drop_last() =~= prev);
        assert(next.last() == cs@[i as int]);
        proof {
            lemma_split_slash_nonempty(prev);
        }
        if cs[i] == '/' {
            r.push((start, i));
            start = i + 1;
            assert(cs@.subrange(start as int, i + 1) =~= Seq::<char>::empty());
        } else {
            assert(cs@.subrange(start as int, i + 1) =~= cs@.subrange(start as int, i as int).push(
                cs@[i as int],
            ));
        }
        i += 1;
    }
    r.push((start, hi));
    proof {
        lemma_split_slash_nonempty(cs@.subrange(lo as int, hi as int));
    }
    r
}

/// The bounds `(a, b)` such that `cs[a..b]` is `trim(cs[lo..hi])`.
pub fn trim_bounds(cs: &Vec<char>, lo: usize, hi: usize) -> (b: (usize, usize))
    requires
        lo <= hi <= cs.len(),
    ensures
        lo <= b.0 <= b.1 <= hi,
        cs@.subrange(b.0 as int, b.1 as int) == trim(cs@.subrange(lo as int, hi as int)),
{
    let mut a = lo;
    while a < hi && char_is_whitespace(cs[a])
        invariant
            lo <= a <= hi <= cs.len(),
            trim_start(cs@.subrange(lo as int, hi as int)) == trim_start(
                cs@.subrange(a as int, hi as int),
            ),
        decreases hi - a,
    {
        assert(cs@.subrange(a as int, hi as int).drop_first() =~= cs@.subrange(a + 1, hi as int));
        a += 1;
    }
    assert(trim_start(cs@.subrange(a as int, hi as int)) == cs@.subrange(a as int, hi as int));
    let mut b = hi;
    while b > a && char_is_whitespace(cs[b - 1])
        invariant
            lo <= a <= b <= hi <= cs.len(),
            trim_end(cs@.subrange(a as int, hi as int)) == trim_end(
                cs@.subrange(a as int, b as int),
            ),
        decreases b - a,
    {
        assert(cs@.subrange(a as int, b as int).drop_last() =~= cs@.subrange(a as int, b - 1));
        b -= 1;
    }
    (a, b)
}

} // verus!
