use vstd::prelude::*;
use vstd::utf8::*;
use vstd::string::StringSliceAdditionalSpecFns;
use vstd::std_specs::iter::IteratorSpec;

use crate::text::{line_ranges, line_ranges_of, lemma_lines_from_bounds, lemma_line_range_boundaries, lemma_lines_count, ranges_view, replace_ascii, replace_char, substr, text_between};

verus! {

broadcast use vstd::string::group_string_axioms, vstd::utf8::group_utf8_lib;

/// A Move source file: its path, its text, and (when known) its path relative to the
/// package root with `/` separators.
#[derive(Debug, Clone)]
pub struct SourceFile {
    pub path: String,
    pub text: String,
    pub rel_to_package: Option<String>,
}

/// Unicode `White_Space` (what `char::is_whitespace` tests).
pub open spec fn is_unicode_whitespace(c: char) -> bool {
    let v = c as u32;
    ||| 0x09 <= v <= 0x0d
    ||| v == 0x20
    ||| v == 0x85
    ||| v == 0xa0
    ||| v == 0x1680
    ||| 0x2000 <= v <= 0x200a
    ||| v == 0x2028
    ||| v == 0x2029
    ||| v == 0x202f
    ||| v == 0x205f
    ||| v == 0x3000
}

/// Number of leading whitespace characters.
pub open spec fn leading_ws_len(s: Seq<char>) -> int
    decreases s.len(),
{
    if s.len() > 0 && is_unicode_whitespace(s[0]) {
        1 + leading_ws_len(s.drop_first())
    } else {
        0
    }
}

/// `str::trim_start`.
pub open spec fn trim_start(s: Seq<char>) -> Seq<char> {
    s.skip(leading_ws_len(s))
}

/// A whole-line `//` comment: the line starts with `//` after leading whitespace.
pub open spec fn is_comment_line(s: Seq<char>) -> bool {
    has_prefix(trim_start(s), "//"@)
}

pub proof fn lemma_leading_ws_len(s: Seq<char>)
    ensures
        0 <= leading_ws_len(s) <= s.len(),
        forall|i: int| 0 <= i < leading_ws_len(s) ==> is_unicode_whitespace(#[trigger] s[i]),
        leading_ws_len(s) < s.len() ==> !is_unicode_whitespace(s[leading_ws_len(s)]),
    decreases s.len(),
{
    if s.len() > 0 && is_unicode_whitespace(s[0]) {
        lemma_leading_ws_len(s.drop_first());
        assert forall|i: int| 0 <= i < leading_ws_len(s) implies is_unicode_whitespace(
            #[trigger] s[i],
        ) by {
            if i > 0 {
                assert(s[i] == s.drop_first()[i - 1]);
            }
        }
    }
}

/// `leading_ws_len` from a position: all earlier characters are whitespace.
pub proof fn lemma_leading_ws_skip(s: Seq<char>, k: int)
    requires
        0 <= k <= s.len(),
        forall|i: int| 0 <= i < k ==> is_unicode_whitespace(#[trigger] s[i]),
    ensures
        leading_ws_len(s) == k + leading_ws_len(s.skip(k)),
    decreases k,
{
    if k > 0 {
        assert(is_unicode_whitespace(s[0]));
        let t = s.drop_first();
        assert forall|i: int| 0 <= i < k - 1 implies is_unicode_whitespace(#[trigger] t[i]) by {
            assert(t[i] == s[i + 1]);
        }
        lemma_leading_ws_skip(t, k - 1);
        assert(t.skip(k - 1) =~= s.skip(k));
    } else {
        assert(s.skip(0) =~= s);
    }
}

pub fn is_whitespace_char(c: char) -> (r: bool)
    ensures
        r == is_unicode_whitespace(c),
{
    let v = c as u32;
    (0x09 <= v && v <= 0x0d) || v == 0x20 || v == 0x85 || v == 0xa0 || v == 0x1680 || (0x2000
        <= v && v <= 0x200a) || v == 0x2028 || v == 0x2029 || v == 0x202f || v == 0x205f || v
        == 0x3000
}

/// `s` begins with `p`.
pub open spec fn has_prefix(s: Seq<char>, p: Seq<char>) -> bool {
    p.len() <= s.len() && s.take(p.len() as int) == p
}

/// `line.trim_start().starts_with(prefix)`.
pub fn trimmed_starts_with(line: &str, prefix: &str) -> (r: bool)
    ensures
        r == has_prefix(trim_start(line@), prefix@),
{
    let ghost s = line@;
    let ghost p = prefix@;
    let mut it = line.chars();
    let ghost mut k: int = 0;
    proof {
        assert(s.skip(0) =~= s);
    }
    // skip leading whitespace; `first` is the first other character, if any
    let first: Option<char>;
    loop
        invariant_except_break
            it.remaining() == s.skip(k),
        invariant
            0 <= k <= s.len(),
            forall|i: int| 0 <= i < k ==> is_unicode_whitespace(#[trigger] s[i]),
        ensures
            0 <= k <= s.len(),
            forall|i: int| 0 <= i < k ==> is_unicode_whitespace(#[trigger] s[i]),
            first is None ==> k == s.len(),
            first matches Some(c) ==> k < s.len() && c == s[k] && !is_unicode_whitespace(c)
                && it.remaining() == s.skip(k + 1),
        decreases s.len() - k,
    {
        match it.next() {
            None => {
                first = None;
                break ;
            },
            Some(c) => {
                proof {
                    assert(c == s[k]);
                    assert(it.remaining() =~= s.skip(k + 1));
                }
                if is_whitespace_char(c) {
                    proof {
                        k = k + 1;
                    }
                } else {
                    first = Some(c);
                    break ;
                }
            },
        }
    }
    proof {
        lemma_leading_ws_skip(s, k);
        if k < s.len() {
            assert(s.skip(k)[0] == s[k]);
        }
        assert(leading_ws_len(s.skip(k)) == 0);
        assert(trim_start(s) =~= s.skip(k));
    }
    let ghost t = s.skip(k);
    let mut pit = prefix.chars();
    proof {
        assert(p.skip(0) =~= p);
    }
    let mut pending = first;
    let ghost mut j: int = 0;
    // compare the prefix character by character against t
    loop
        invariant
            s == line@,
            p == prefix@,
            0 <= j <= p.len(),
            t == s.skip(k),
            0 <= k <= s.len(),
            trim_start(s) == t,
            pit.remaining() == p.skip(j),
            j <= t.len() ==> (pending is None <==> j == t.len()),
            j <= t.len() ==> (pending matches Some(c) ==> c == t[j] && it.remaining() == t.skip(j + 1)),
            j <= t.len(),
            forall|i: int| 0 <= i < j ==> t[i] == p[i],
        decreases p.len() - j,
    {
        match pit.next() {
            None => {
                proof {
                    assert(p.skip(j).len() == 0);
                    assert(j == p.len());
                    assert(t.take(p.len() as int) =~= p);
                }
                return true;
            },
            Some(pc) => {
                proof {
                    assert(pc == p[j]);
                    assert(pit.remaining() =~= p.skip(j + 1));
                }
                proof {
                    assert(p.skip(j).len() > 0);
                    assert(j < p.len());
                }
                match pending {
                    None => {
                        proof {
                            assert(j == t.len());
                            assert(!has_prefix(t, p));
                        }
                        return false;
                    },
                    Some(c) => {
                        if c != pc {
                            proof {
                                if p.len() <= t.len() {
                                    assert(t.take(p.len() as int)[j] == t[j]);
                                    assert(t.take(p.len() as int) != p);
                                }
                            }
                            return false;
                        }
                        let nx = it.next();
                        proof {
                            if j + 1 < t.len() {
                                assert(nx == Some(t[j + 1]));
                                assert(it.remaining() =~= t.skip(j + 2));
                            } else {
                                assert(nx is None);
                            }
                            j = j + 1;
                        }
                        pending = nx;
                    },
                }
            },
        }
    }
}

/// Whole-line `//` comments (leading whitespace allowed). Does not handle block comments.
pub fn is_line_comment_line(line: &str) -> (r: bool)
    ensures
        r == is_comment_line(line@),
{
    proof {
        reveal_strlit("//");
    }
    trimmed_starts_with(line, "//")
}

/// The lines of `text` (contents without terminators), as `str::lines` yields them.
pub fn str_lines(text: &str) -> (r: Vec<&str>)
    requires
        text.spec_bytes().len() < u32::MAX,
    ensures
        r@.len() == crate::lints::text_lines(text@).len(),
        r@.len() < u32::MAX,
        forall|k: int|
            0 <= k < r@.len() ==> (#[trigger] r@[k])@ == crate::lints::text_lines(text@)[k]
                && r@[k].spec_bytes().len() <= text.spec_bytes().len(),
{
    let b = text.as_bytes();
    let ranges = line_ranges_of(b);
    let ghost bs = b@;
    let ghost lr = line_ranges(bs);
    proof {
        lemma_lines_from_bounds(bs, 0);
        lemma_lines_count(bs, 0);
        assert(ranges@.len() == lr.len());
    }
    let mut out: Vec<&str> = Vec::new();
    let mut k: usize = 0;
    while k < ranges.len()
        invariant
            bs == text.spec_bytes(),
            bs.len() < u32::MAX,
            lr == line_ranges(bs),
            ranges_view(ranges@) == lr,
            lr.len() <= bs.len(),
            k <= ranges@.len(),
            out@.len() == k,
            forall|j: int|
                0 <= j < k ==> (#[trigger] out@[j])@ == crate::lints::text_lines(text@)[j]
                    && out@[j].spec_bytes().len() <= bs.len(),
        decreases ranges@.len() - k,
    {
        let (s, e) = ranges[k];
        proof {
            lemma_lines_from_bounds(bs, 0);
            assert(lr[k as int] == (s as int, e as int));
            lemma_line_range_boundaries(bs, k as int);
        }
        let line = substr(text, s, e);
        out.push(line);
        k = k + 1;
    }
    out
}

impl SourceFile {
    pub fn new(path: String, text: String) -> (f: Self)
        ensures
            f.path@ == path@,
            f.text@ == text@,
            f.rel_to_package is None,
    {
        SourceFile { path, text, rel_to_package: None }
    }

    /// A file with its package-relative path; backslashes in it become `/`.
    pub fn with_rel(path: String, text: String, rel_to_package: &str) -> (f: Self)
        ensures
            f.path@ == path@,
            f.text@ == text@,
            f.rel_to_package matches Some(r) && r@ == replace_char(rel_to_package@, '\\', "/"@),
    {
        let rel = replace_ascii(rel_to_package, 92, "/");
        proof {
            assert(92u8 as char == '\\');
        }
        SourceFile { path, text, rel_to_package: Some(rel) }
    }

    pub fn path(&self) -> (p: &str)
        ensures
            p@ == self.path@,
    {
        self.path.as_str()
    }

    /// The lines of the text with their 1-based numbers, as `str::lines` splits them.
    pub fn lines(&self) -> (r: Vec<(u32, &str)>)
        requires
            encode_utf8(self.text@).len() < u32::MAX,
        ensures
            r@.len() == line_ranges(encode_utf8(self.text@)).len(),
            forall|k: int|
                0 <= k < r@.len() ==> (#[trigger] r@[k]).1.spec_bytes().len() <= encode_utf8(
                    self.text@,
                ).len(),
            forall|k: int|
                0 <= k < r@.len() ==> (#[trigger] r@[k]).0 == k + 1 && r@[k].1@ == text_between(
                    encode_utf8(self.text@),
                    line_ranges(encode_utf8(self.text@))[k].0,
                    line_ranges(encode_utf8(self.text@))[k].1,
                ),
    {
        let text = self.text.as_str();
        let b = text.as_bytes();
        let ranges = line_ranges_of(b);
        let ghost bs = b@;
        let ghost lr = line_ranges(bs);
        proof {
            lemma_lines_from_bounds(bs, 0);
            assert(ranges@.len() == lr.len());
        }
        let mut out: Vec<(u32, &str)> = Vec::new();
        let mut k: usize = 0;
        while k < ranges.len()
            invariant
                bs == encode_utf8(self.text@),
                bs == text.spec_bytes(),
                bs.len() < u32::MAX,
                lr == line_ranges(bs),
                ranges_view(ranges@) == lr,
                k <= ranges@.len(),
                out@.len() == k,
                forall|j: int|
                    0 <= j < k ==> (#[trigger] out@[j]).1.spec_bytes().len() <= bs.len(),
                forall|j: int|
                    0 <= j < k ==> (#[trigger] out@[j]).0 == j + 1 && out@[j].1@ == text_between(
                        bs,
                        lr[j].0,
                        lr[j].1,
                    ),
            decreases ranges@.len() - k,
        {
            let (s, e) = ranges[k];
            proof {
                lemma_lines_from_bounds(bs, 0);
                assert(lr[k as int] == (s as int, e as int));
                lemma_line_range_boundaries(bs, k as int);
            }
            let line = substr(text, s, e);
            out.push(((k + 1) as u32, line));
            k = k + 1;
        }
        out
    }
}

} // verus!
