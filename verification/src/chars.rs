//! Character-level helpers: decoding a string into its characters and trimming.
use vstd::prelude::*;
use vstd::std_specs::iter::IteratorSpec;

use crate::source_file::{is_unicode_whitespace, is_whitespace_char, lemma_leading_ws_len, leading_ws_len, trim_start};

verus! {

broadcast use vstd::string::group_string_axioms;

/// The characters of `s`, in order.
pub fn chars_of(s: &str) -> (r: Vec<char>)
    ensures
        r@ == s@,
{
    let mut it = s.chars();
    let mut out: Vec<char> = Vec::new();
    let ghost all = s@;
    proof {
        assert(all.skip(0) =~= all);
    }
    loop
        invariant_except_break
            it.remaining() == all.skip(out@.len() as int),
        invariant
            all == s@,
            out@.len() <= all.len(),
            out@ == all.take(out@.len() as int),
        ensures
            out@ == all,
        decreases all.len() - out@.len(),
    {
        match it.next() {
            None => {
                proof {
                    assert(all.skip(out@.len() as int).len() == 0);
                    assert(out@ =~= all);
                }
                break ;
            },
            Some(c) => {
                proof {
                    assert(c == all[out@.len() as int]);
                    assert(it.remaining() =~= all.skip(out@.len() as int + 1));
                }
                out.push(c);
                proof {
                    assert(out@ =~= all.take(out@.len() as int));
                }
            },
        }
    }
    out
}

/// Number of trailing whitespace characters.
pub open spec fn trailing_ws_len(s: Seq<char>) -> int
    decreases s.len(),
{
    if s.len() > 0 && is_unicode_whitespace(s.last()) {
        1 + trailing_ws_len(s.drop_last())
    } else {
        0
    }
}

/// `str::trim_end`.
pub open spec fn trim_end(s: Seq<char>) -> Seq<char> {
    s.take(s.len() - trailing_ws_len(s))
}

/// `str::trim`: whitespace removed at both ends.
pub open spec fn trim(s: Seq<char>) -> Seq<char> {
    trim_end(trim_start(s))
}

pub proof fn lemma_trailing_ws_len(s: Seq<char>)
    ensures
        0 <= trailing_ws_len(s) <= s.len(),
        forall|i: int|
            s.len() - trailing_ws_len(s) <= i < s.len() ==> is_unicode_whitespace(#[trigger] s[i]),
        trailing_ws_len(s) < s.len() ==> !is_unicode_whitespace(
            s[s.len() - 1 - trailing_ws_len(s)],
        ),
    decreases s.len(),
{
    if s.len() > 0 && is_unicode_whitespace(s.last()) {
        lemma_trailing_ws_len(s.drop_last());
        assert forall|i: int| s.len() - trailing_ws_len(s) <= i < s.len() implies is_unicode_whitespace(
            #[trigger] s[i],
        ) by {
            if i < s.len() - 1 {
                assert(s[i] == s.drop_last()[i]);
            }
        }
        if trailing_ws_len(s) < s.len() {
            assert(s[s.len() - 1 - trailing_ws_len(s)] == s.drop_last()[s.drop_last().len() - 1
                - trailing_ws_len(s.drop_last())]);
        }
    }
}

/// Trailing whitespace measured back from position `e`.
pub proof fn lemma_trailing_ws_from(s: Seq<char>, e: int)
    requires
        0 <= e <= s.len(),
        forall|i: int| e <= i < s.len() ==> is_unicode_whitespace(#[trigger] s[i]),
    ensures
        trailing_ws_len(s) == (s.len() - e) + trailing_ws_len(s.take(e)),
    decreases s.len() - e,
{
    if e < s.len() {
        assert(is_unicode_whitespace(s.last()));
        let t = s.drop_last();
        assert forall|i: int| e <= i < t.len() implies is_unicode_whitespace(#[trigger] t[i]) by {
            assert(t[i] == s[i]);
        }
        lemma_trailing_ws_from(t, e);
        assert(t.take(e) =~= s.take(e));
    } else {
        assert(s.take(e) =~= s);
    }
}

/// Bounds `[a, b)` of `trim(cs)` within `cs`.
pub fn trim_bounds(cs: &Vec<char>) -> (r: (usize, usize))
    ensures
        r.0 <= r.1 <= cs@.len(),
        cs@.subrange(r.0 as int, r.1 as int) == trim(cs@),
{
    let len = cs.len();
    let mut a: usize = 0;
    while a < len && is_whitespace_char(cs[a])
        invariant
            len == cs@.len(),
            a <= len,
            forall|i: int| 0 <= i < a ==> is_unicode_whitespace(#[trigger] cs@[i]),
        decreases len - a,
    {
        a = a + 1;
    }
    proof {
        crate::source_file::lemma_leading_ws_skip(cs@, a as int);
        if a < len {
            assert(cs@.skip(a as int)[0] == cs@[a as int]);
        }
        assert(leading_ws_len(cs@.skip(a as int)) == 0);
        assert(trim_start(cs@) =~= cs@.skip(a as int));
    }
    let mut e: usize = len;
    while e > a && is_whitespace_char(cs[e - 1])
        invariant
            len == cs@.len(),
            a <= e <= len,
            forall|i: int| e <= i < len ==> is_unicode_whitespace(#[trigger] cs@[i]),
        decreases e - a,
    {
        e = e - 1;
    }
    proof {
        let t = cs@.skip(a as int);
        assert forall|i: int| e - a <= i < t.len() implies is_unicode_whitespace(#[trigger] t[i])
            by {
            assert(t[i] == cs@[a + i]);
        }
        lemma_trailing_ws_from(t, e - a);
        let u = t.take(e - a);
        if e > a {
            assert(u.last() == cs@[e - 1]);
        }
        assert(trailing_ws_len(u) == 0);
        assert(trim(cs@) =~= cs@.subrange(a as int, e as int));
    }
    (a, e)
}

/// `cs[a..b]` equals `p`.
pub fn range_eq(cs: &Vec<char>, a: usize, b: usize, p: &Vec<char>) -> (r: bool)
    requires
        a <= b <= cs@.len(),
    ensures
        r == (cs@.subrange(a as int, b as int) == p@),
{
    if b - a != p.len() {
        return false;
    }
    let mut i: usize = 0;
    while i < p.len()
        invariant
            a <= b <= cs@.len(),
            b - a == p@.len(),
            i <= p@.len(),
            forall|j: int| 0 <= j < i ==> cs@[a + j] == p@[j],
        decreases p@.len() - i,
    {
        if cs[a + i] != p[i] {
            proof {
                assert(cs@.subrange(a as int, b as int)[i as int] != p@[i as int]);
            }
            return false;
        }
        i = i + 1;
    }
    proof {
        assert(cs@.subrange(a as int, b as int) =~= p@);
    }
    true
}

/// `cs[a..b]` begins with `p`.
pub fn range_has_prefix(cs: &Vec<char>, a: usize, b: usize, p: &Vec<char>) -> (r: bool)
    requires
        a <= b <= cs@.len(),
    ensures
        r == crate::source_file::has_prefix(cs@.subrange(a as int, b as int), p@),
{
    if b - a < p.len() {
        return false;
    }
    let r = range_eq(cs, a, a + p.len(), p);
    proof {
        assert(cs@.subrange(a as int, b as int).take(p@.len() as int) =~= cs@.subrange(
            a as int,
            a + p@.len(),
        ));
    }
    r
}

} // verus!
