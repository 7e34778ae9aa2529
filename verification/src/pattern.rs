//! Regular-expression searches, performed by the `regex` crate.
use vstd::prelude::*;
use vstd::utf8::*;
use vstd::string::StringSliceAdditionalSpecFns;

verus! {

#[verifier::external_type_specification]
#[verifier::external_body]
pub struct ExRegex(regex::Regex);

/// Whether `regex::Regex::new` accepts `pattern`.
pub uninterp spec fn regex_compiles(pattern: Seq<char>) -> bool;

/// Byte range of the leftmost-first match of `pattern` in `hay`, as `regex::Regex::find` reports it.
pub uninterp spec fn regex_first_match(pattern: Seq<char>, hay: Seq<char>) -> Option<(int, int)>;

/// Byte ranges of the successive non-overlapping matches of `pattern` in `hay`,
/// as `regex::Regex::find_iter` yields them.
pub uninterp spec fn regex_all_matches(pattern: Seq<char>, hay: Seq<char>) -> Seq<(int, int)>;

/// `str::to_uppercase` of a string value.
pub uninterp spec fn uppercase(s: Seq<char>) -> Seq<char>;

/// A compiled regular expression together with the pattern it was compiled from.
pub struct CompiledPattern {
    pattern: &'static str,
    re: regex::Regex,
}

impl View for CompiledPattern {
    type V = Seq<char>;

    closed spec fn view(&self) -> Seq<char> {
        self.pattern@
    }
}

pub open spec fn opt_range_view(r: Option<(usize, usize)>) -> Option<(int, int)> {
    match r {
        Some((s, e)) => Some((s as int, e as int)),
        None => None,
    }
}

pub open spec fn range_seq_view(r: Seq<(usize, usize)>) -> Seq<(int, int)> {
    r.map_values(|x: (usize, usize)| (x.0 as int, x.1 as int))
}

/// `(s, e)` is a valid match range in the UTF-8 bytes `b`.
pub open spec fn match_in(b: Seq<u8>, s: int, e: int) -> bool {
    &&& 0 <= s <= e <= b.len()
    &&& is_char_boundary(b, s)
    &&& is_char_boundary(b, e)
}

/// Compiles `pattern` with `regex::Regex::new`.
/// Trusted: `Some` exactly when the crate accepts the pattern, and the result remembers it.
#[verifier::external_body]
pub(crate) fn compile_pattern(pattern: &'static str) -> (r: Option<CompiledPattern>)
    ensures
        r is Some <==> regex_compiles(pattern@),
        r matches Some(c) ==> c@ == pattern@,
{
    match regex::Regex::new(pattern) {
        Ok(re) => Some(CompiledPattern { pattern, re }),
        Err(_) => None,
    }
}

/// `regex::Regex::find`, reported as a byte range.
/// Trusted: the result is the named first match of the pattern in `hay`; the regex crate
/// documents that `start <= end` and that both fall on UTF-8 boundaries of `hay`.
#[verifier::external_body]
pub(crate) fn find_first(re: &CompiledPattern, hay: &str) -> (r: Option<(usize, usize)>)
    ensures
        opt_range_view(r) == regex_first_match(re@, hay@),
        r matches Some((s, e)) ==> match_in(hay.spec_bytes(), s as int, e as int),
{
    re.re.find(hay).map(|m| (m.start(), m.end()))
}

/// `regex::Regex::find_iter`, each match reported as a byte range.
/// Trusted: the result is the named sequence of matches; the regex crate documents that
/// they are non-overlapping, in order, and fall on UTF-8 boundaries of `hay`.
#[verifier::external_body]
pub(crate) fn find_all(re: &CompiledPattern, hay: &str) -> (r: Vec<(usize, usize)>)
    ensures
        range_seq_view(r@) == regex_all_matches(re@, hay@),
        forall|k: int|
            0 <= k < r@.len() ==> match_in(hay.spec_bytes(), #[trigger] r@[k].0 as int, r@[k].1 as int),
        forall|k: int| 0 <= k < r@.len() - 1 ==> #[trigger] r@[k].1 <= r@[k + 1].0,
{
    re.re.find_iter(hay).map(|m| (m.start(), m.end())).collect()
}

/// `str::to_uppercase`.
/// Trusted: the result is the named Unicode upper-casing of `s`.
#[verifier::external_body]
pub(crate) fn to_uppercase(s: &str) -> (r: String)
    ensures
        r@ == uppercase(s@),
{
    s.to_uppercase()
}

} // verus!
