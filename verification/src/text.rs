//! Byte-level text utilities over UTF-8 source text.
use vstd::prelude::*;
use vstd::utf8::*;
use vstd::string::StringSliceAdditionalSpecFns;
use vstd::string::StringExecFns;

verus! {

broadcast use vstd::utf8::group_utf8_lib;

/// The string whose UTF-8 encoding is `b[start..end]`.
pub open spec fn text_between(b: Seq<u8>, start: int, end: int) -> Seq<char> {
    decode_utf8(b.subrange(start, end))
}

/// A boundary inside a suffix that starts at a boundary is a boundary of the whole.
pub proof fn lemma_boundary_in_suffix(b: Seq<u8>, p: int, q: int)
    requires
        valid_utf8(b),
        is_char_boundary(b, p),
        0 <= p <= b.len(),
        is_char_boundary(b.subrange(p, b.len() as int), q),
        0 <= q <= b.len() - p,
    ensures
        is_char_boundary(b, p + q),
{
    let suf = b.subrange(p, b.len() as int);
    valid_utf8_split(b, p);
    if p + q == b.len() {
        is_char_boundary_start_end_of_seq(b);
    } else {
        is_char_boundary_iff_not_is_continuation_byte(suf, q);
        is_char_boundary_iff_not_is_continuation_byte(b, p + q);
        assert(suf[q] == b[p + q]);
    }
}

/// The position after an ASCII byte that starts a character is a character boundary.
pub proof fn lemma_boundary_after_ascii(b: Seq<u8>, i: int)
    requires
        valid_utf8(b),
        0 <= i < b.len(),
        b[i] < 0x80,
    ensures
        is_char_boundary(b, i),
        is_char_boundary(b, i + 1),
{
    is_char_boundary_iff_not_is_continuation_byte(b, i);
    let suf = b.subrange(i, b.len() as int);
    valid_utf8_split(b, i);
    assert(suf[0] == b[i]);
    reveal_with_fuel(is_char_boundary, 2);
    assert(is_char_boundary(suf, 1));
    lemma_boundary_in_suffix(b, i, 1);
}

/// The sub-slice `s[start..end]` of a string, by byte offsets.
pub fn substr(s: &str, start: usize, end: usize) -> (r: &str)
    requires
        start <= end <= s.spec_bytes().len(),
        is_char_boundary(s.spec_bytes(), start as int),
        is_char_boundary(s.spec_bytes(), end as int),
    ensures
        r.spec_bytes() == s.spec_bytes().subrange(start as int, end as int),
        r@ == text_between(s.spec_bytes(), start as int, end as int),
{
    let ghost b = s.spec_bytes();
    let (_, tail) = s.split_at(start);
    proof {
        valid_utf8_split(b, start as int);
        let t = b.subrange(start as int, b.len() as int);
        // end is a boundary of the tail as well
        if end < b.len() {
            is_char_boundary_iff_not_is_continuation_byte(b, end as int);
            is_char_boundary_iff_not_is_continuation_byte(t, end - start);
            assert(t[end - start] == b[end as int]);
        } else {
            is_char_boundary_start_end_of_seq(t);
        }
        assert(tail.spec_bytes() =~= t);
    }
    let (mid, _) = tail.split_at(end - start);
    proof {
        assert(mid.spec_bytes() =~= b.subrange(start as int, end as int));
    }
    mid
}


/// Index of the first `\n` at or after `p`, or the length when there is none.
pub open spec fn next_newline(b: Seq<u8>, p: int) -> int
    decreases b.len() - p,
{
    if p >= b.len() {
        b.len() as int
    } else if b[p] == 10 {
        p
    } else {
        next_newline(b, p + 1)
    }
}

pub proof fn lemma_next_newline(b: Seq<u8>, p: int)
    requires
        0 <= p,
    ensures
        p <= b.len() ==> p <= next_newline(b, p) <= b.len(),
        p <= next_newline(b, p) || p > b.len(),
        next_newline(b, p) < b.len() ==> b[next_newline(b, p)] == 10,
        forall|j: int| p <= j < next_newline(b, p) ==> b[j] != 10,
    decreases b.len() - p,
{
    if p < b.len() && b[p] != 10 {
        lemma_next_newline(b, p + 1);
    }
}

/// End of the line that starts at `p` and runs to the newline at `e`: a `\r` just
/// before a `\n` belongs to the line ending, a lone trailing `\r` does not.
pub open spec fn line_content_end(b: Seq<u8>, p: int, e: int) -> int {
    if e < b.len() && e > p && b[e - 1] == 13 {
        e - 1
    } else {
        e
    }
}

/// Byte ranges of the lines of `b` from offset `p` on, as `str::lines` splits them:
/// at `\n` or `\r\n`, terminators excluded, no empty line after a final terminator.
pub open spec fn lines_from(b: Seq<u8>, p: int) -> Seq<(int, int)>
    decreases b.len() + 1 - p,
{
    if p < 0 || p >= b.len() {
        seq![]
    } else {
        let e = next_newline(b, p);
        proof {
            lemma_next_newline(b, p);
        }
        seq![(p, line_content_end(b, p, e))] + lines_from(b, e + 1)
    }
}

/// Byte ranges of all lines of `b`.
pub open spec fn line_ranges(b: Seq<u8>) -> Seq<(int, int)> {
    lines_from(b, 0)
}

pub open spec fn ranges_view(r: Seq<(usize, usize)>) -> Seq<(int, int)> {
    r.map_values(|x: (usize, usize)| (x.0 as int, x.1 as int))
}

pub proof fn lemma_lines_from_bounds(b: Seq<u8>, p: int)
    requires
        0 <= p,
    ensures
        forall|k: int|
            0 <= k < lines_from(b, p).len() ==> p <= #[trigger] lines_from(b, p)[k].0
                <= lines_from(b, p)[k].1 <= b.len() && lines_from(b, p)[k].0 < b.len(),
    decreases b.len() + 1 - p,
{
    if p < b.len() {
        let e = next_newline(b, p);
        lemma_next_newline(b, p);
        assert(e >= p);
        lemma_lines_from_bounds(b, e + 1);
        assert forall|k: int| 0 <= k < lines_from(b, p).len() implies p <= #[trigger] lines_from(
            b,
            p,
        )[k].0 <= lines_from(b, p)[k].1 <= b.len() && lines_from(b, p)[k].0 < b.len() by {
            if k > 0 {
                assert(lines_from(b, p)[k] == lines_from(b, e + 1)[k - 1]);
            }
        }
    }
}

/// Byte ranges of the lines of a text, as `str::lines` yields them.
pub fn line_ranges_of(b: &[u8]) -> (r: Vec<(usize, usize)>)
    ensures
        ranges_view(r@) == line_ranges(b@),
{
    let mut r: Vec<(usize, usize)> = Vec::new();
    let len = b.len();
    let mut p: usize = 0;
    while p < len
        invariant
            len == b@.len(),
            p <= len,
            ranges_view(r@) + lines_from(b@, p as int) == line_ranges(b@),
        decreases len - p,
    {
        let mut e = p;
        while e < len && b[e] != 10
            invariant
                p <= e <= len,
                len == b@.len(),
                next_newline(b@, p as int) == next_newline(b@, e as int),
            decreases len - e,
        {
            e = e + 1;
        }
        let end = if e < len && e > p && b[e - 1] == 13 {
            e - 1
        } else {
            e
        };
        let ghost old_r = r@;
        r.push((p, end));
        proof {
            assert(ranges_view(r@) == ranges_view(old_r) + seq![(p as int, end as int)]);
            assert(lines_from(b@, p as int) == seq![(p as int, end as int)] + lines_from(
                b@,
                e + 1,
            ));
            assert(ranges_view(r@) + lines_from(b@, e + 1) == ranges_view(old_r) + lines_from(
                b@,
                p as int,
            ));
        }
        if e >= len {
            proof {
                assert(lines_from(b@, e + 1) =~= seq![]);
                assert(ranges_view(r@) + lines_from(b@, e + 1) =~= ranges_view(r@));
            }
            p = len;
            proof {
                assert(lines_from(b@, p as int) =~= seq![]);
                assert(ranges_view(r@) + lines_from(b@, p as int) =~= ranges_view(r@));
            }
        } else {
            p = e + 1;
        }
    }
    proof {
        assert(lines_from(b@, p as int) =~= seq![]);
        assert(ranges_view(r@) + lines_from(b@, p as int) =~= ranges_view(r@));
    }
    r
}


/// 1-based (line, column) reached after reading the first `n` bytes: a `\n` starts a
/// new line, every other character (counted at its leading byte) advances the column.
pub open spec fn line_col_upto(b: Seq<u8>, n: int) -> (int, int)
    decreases n,
{
    if n <= 0 {
        (1, 1)
    } else {
        let (l, c) = line_col_upto(b, n - 1);
        if b[n - 1] == 10 {
            (l + 1, 1)
        } else if is_continuation_byte(b[n - 1]) {
            (l, c)
        } else {
            (l, c + 1)
        }
    }
}

/// 1-based (line, column) of the character that covers byte offset `idx`
/// (the end of the text when `idx` is past it).
pub open spec fn line_col(b: Seq<u8>, idx: int) -> (int, int) {
    if idx < b.len() {
        line_col_upto(b, idx)
    } else {
        line_col_upto(b, b.len() as int)
    }
}

pub proof fn lemma_line_col_bounds(b: Seq<u8>, n: int)
    requires
        0 <= n,
    ensures
        1 <= line_col_upto(b, n).0 <= n + 1,
        1 <= line_col_upto(b, n).1 <= n + 1,
    decreases n,
{
    if n > 0 {
        lemma_line_col_bounds(b, n - 1);
    }
}

/// Convert a byte offset to a 1-based (line, column) pair, columns counted in characters.
pub fn byte_index_to_line_col(text: &str, byte_idx: usize) -> (r: (u32, u32))
    requires
        text.spec_bytes().len() < u32::MAX,
    ensures
        (r.0 as int, r.1 as int) == line_col(text.spec_bytes(), byte_idx as int),
{
    let b = text.as_bytes();
    let n = if byte_idx < b.len() {
        byte_idx
    } else {
        b.len()
    };
    let mut line: u32 = 1;
    let mut col: u32 = 1;
    let mut i: usize = 0;
    while i < n
        invariant
            b@ == text.spec_bytes(),
            n <= b@.len() < u32::MAX,
            i <= n,
            (line as int, col as int) == line_col_upto(b@, i as int),
        decreases n - i,
    {
        proof {
            lemma_line_col_bounds(b@, i as int);
        }
        let c = b[i];
        if c == 10 {
            line = line + 1;
            col = 1;
        } else if !(0x80 <= c && c <= 0xbf) {
            col = col + 1;
        }
        i = i + 1;
    }
    (line, col)
}

/// State of the brace scanner: nesting depth and whether it is inside a string literal
/// (and just after a backslash there).
pub struct BraceScan {
    pub depth: int,
    pub in_str: bool,
    pub escape: bool,
}

pub open spec fn brace_step(s: BraceScan, c: u8) -> BraceScan {
    if s.in_str {
        if s.escape {
            BraceScan { escape: false, ..s }
        } else if c == 92 {
            BraceScan { escape: true, ..s }
        } else if c == 34 {
            BraceScan { in_str: false, ..s }
        } else {
            s
        }
    } else if c == 34 {
        BraceScan { in_str: true, ..s }
    } else if c == 123 {
        BraceScan { depth: s.depth + 1, ..s }
    } else if c == 125 {
        BraceScan { depth: s.depth - 1, ..s }
    } else {
        s
    }
}

/// Scanner state just before byte `i`, scanning from `open`.
pub open spec fn brace_state(b: Seq<u8>, open: int, i: int) -> BraceScan
    decreases i - open,
{
    if i <= open {
        BraceScan { depth: 0, in_str: false, escape: false }
    } else {
        brace_step(brace_state(b, open, i - 1), b[i - 1])
    }
}

/// Byte `i` is a `}` outside string literals that brings the depth back to zero.
pub open spec fn brace_closes_at(b: Seq<u8>, open: int, i: int) -> bool {
    &&& !brace_state(b, open, i).in_str
    &&& b[i] == 125
    &&& brace_state(b, open, i).depth == 1
}

pub proof fn lemma_brace_depth_bound(b: Seq<u8>, open: int, i: int)
    requires
        open <= i,
    ensures
        brace_state(b, open, i).depth <= i - open,
        brace_state(b, open, i).depth >= -(i - open),
    decreases i - open,
{
    if i > open {
        lemma_brace_depth_bound(b, open, i - 1);
    }
}

/// Index of the `}` that closes the `{` at `open_brace`, skipping string literals
/// (with backslash escapes); `None` when `open_brace` is not a `{` or it never closes.
pub fn matching_brace_end(text: &[u8], open_brace: usize) -> (r: Option<usize>)
    ensures
        (open_brace >= text@.len() || text@[open_brace as int] != 123) ==> r is None,
        r matches Some(j) ==> {
            &&& open_brace <= j < text@.len()
            &&& brace_closes_at(text@, open_brace as int, j as int)
            &&& forall|k: int|
                open_brace <= k < j ==> !brace_closes_at(text@, open_brace as int, k)
        },
        (r is None && open_brace < text@.len() && text@[open_brace as int] == 123)
            ==> forall|k: int|
            open_brace <= k < text@.len() ==> !brace_closes_at(text@, open_brace as int, k),
{
    if open_brace >= text.len() || text[open_brace] != 123 {
        return None;
    }
    let mut depth: i128 = 0;
    let mut in_str = false;
    let mut escape = false;
    let len = text.len();
    let mut i = open_brace;
    while i < len
        invariant
            len == text@.len(),
            open_brace < len,
            text@[open_brace as int] == 123,
            open_brace <= i <= len,
            depth as int == brace_state(text@, open_brace as int, i as int).depth,
            in_str == brace_state(text@, open_brace as int, i as int).in_str,
            escape == brace_state(text@, open_brace as int, i as int).escape,
            forall|k: int| open_brace <= k < i ==> !brace_closes_at(text@, open_brace as int, k),
        decreases len - i,
    {
        proof {
            lemma_brace_depth_bound(text@, open_brace as int, i as int);
        }
        let b = text[i];
        if in_str {
            if escape {
                escape = false;
            } else if b == 92 {
                escape = true;
            } else if b == 34 {
                in_str = false;
            }
            i = i + 1;
            continue;
        }
        if b == 34 {
            in_str = true;
            i = i + 1;
            continue;
        }
        if b == 123 {
            depth = depth + 1;
        } else if b == 125 {
            depth = depth - 1;
            if depth == 0 {
                return Some(i);
            }
        }
        i = i + 1;
    }
    None
}


/// A boundary of the whole sequence past a boundary `p` is a boundary of the suffix at `p`.
pub proof fn lemma_boundary_to_suffix(b: Seq<u8>, p: int, q: int)
    requires
        valid_utf8(b),
        is_char_boundary(b, p),
        0 <= p <= b.len(),
        is_char_boundary(b, p + q),
        0 <= q <= b.len() - p,
    ensures
        is_char_boundary(b.subrange(p, b.len() as int), q),
        valid_utf8(b.subrange(p, b.len() as int)),
{
    let suf = b.subrange(p, b.len() as int);
    valid_utf8_split(b, p);
    if p + q == b.len() {
        is_char_boundary_start_end_of_seq(suf);
    } else {
        is_char_boundary_iff_not_is_continuation_byte(suf, q);
        is_char_boundary_iff_not_is_continuation_byte(b, p + q);
        assert(suf[q] == b[p + q]);
    }
}

/// The bytes between two boundaries are valid UTF-8, and boundaries inside carry over.
pub proof fn lemma_sub_valid(b: Seq<u8>, x: int, z: int)
    requires
        valid_utf8(b),
        0 <= x <= z <= b.len(),
        is_char_boundary(b, x),
        is_char_boundary(b, z),
    ensures
        valid_utf8(b.subrange(x, z)),
{
    let suf = b.subrange(x, b.len() as int);
    lemma_boundary_to_suffix(b, x, z - x);
    valid_utf8_split(suf, z - x);
    assert(suf.subrange(0, z - x) =~= b.subrange(x, z));
}

/// Decoding splits at an inner boundary.
pub proof fn lemma_decode_concat(b: Seq<u8>, x: int, y: int, z: int)
    requires
        valid_utf8(b),
        0 <= x <= y <= z <= b.len(),
        is_char_boundary(b, x),
        is_char_boundary(b, y),
        is_char_boundary(b, z),
    ensures
        text_between(b, x, z) == text_between(b, x, y) + text_between(b, y, z),
{
    let suf = b.subrange(x, b.len() as int);
    lemma_boundary_to_suffix(b, x, z - x);
    lemma_boundary_to_suffix(b, x, y - x);
    valid_utf8_split(suf, z - x);
    let t = b.subrange(x, z);
    assert(suf.subrange(0, z - x) =~= t);
    // y - x is a boundary of t
    if y - x < t.len() {
        is_char_boundary_iff_not_is_continuation_byte(t, y - x);
        is_char_boundary_iff_not_is_continuation_byte(suf, y - x);
        assert(t[y - x] == suf[y - x]);
    } else {
        is_char_boundary_start_end_of_seq(t);
    }
    decode_utf8_split(t, y - x);
    assert(t.subrange(0, y - x) =~= b.subrange(x, y));
    assert(t.subrange(y - x, t.len() as int) =~= b.subrange(y, z));
}

/// An ASCII byte decodes to the character with the same code.
pub proof fn lemma_decode_ascii_byte(a: u8)
    requires
        a < 0x80,
    ensures
        decode_utf8(seq![a]) == seq![a as char],
        encode_utf8(seq![a as char]) == seq![a],
{
    let c = a as char;
    let v = c as u32;
    assert(v == a as u32);
    assert(has_width_1_encoding(v));
    assert((v & 0x7F) as u8 == a) by (bit_vector)
        requires
            v == a as u32,
            a < 0x80,
    ;
    assert(encode_scalar(v) =~= seq![a]);
    assert(seq![c].drop_first() =~= Seq::<char>::empty());
    reveal_with_fuel(encode_utf8, 2);
    assert(seq![c][0] == c);
    assert(encode_utf8(seq![c]) =~= seq![a]);
    encode_utf8_decode_utf8(seq![c]);
}

/// A character sequence whose encoding lacks an ASCII byte lacks that character.
pub proof fn lemma_no_ascii_char(cs: Seq<char>, a: u8)
    requires
        a < 0x80,
        forall|j: int| 0 <= j < encode_utf8(cs).len() ==> encode_utf8(cs)[j] != a,
    ensures
        forall|i: int| 0 <= i < cs.len() ==> cs[i] != a as char,
    decreases cs.len(),
{
    if cs.len() > 0 {
        let rest = cs.drop_first();
        let head = encode_scalar(cs[0] as u32);
        assert(encode_utf8(cs) == head + encode_utf8(rest));
        assert forall|j: int| 0 <= j < encode_utf8(rest).len() implies encode_utf8(rest)[j]
            != a by {
            assert(encode_utf8(cs)[head.len() + j] == encode_utf8(rest)[j]);
        }
        lemma_no_ascii_char(rest, a);
        if cs[0] == a as char {
            lemma_decode_ascii_byte(a);
            assert(encode_utf8(seq![cs[0]]) == seq![a]);
            assert(seq![cs[0]].drop_first() =~= Seq::<char>::empty());
            assert(encode_utf8(cs)[0] == a);
        }
        assert forall|i: int| 0 <= i < cs.len() implies cs[i] != a as char by {
            if i > 0 {
                assert(cs[i] == rest[i - 1]);
            }
        }
    }
}

/// Bytes between boundaries that lack an ASCII byte decode to characters lacking it.
pub proof fn lemma_no_ascii_in_between(b: Seq<u8>, x: int, z: int, a: u8)
    requires
        valid_utf8(b),
        0 <= x <= z <= b.len(),
        is_char_boundary(b, x),
        is_char_boundary(b, z),
        a < 0x80,
        forall|j: int| x <= j < z ==> b[j] != a,
    ensures
        forall|i: int|
            0 <= i < text_between(b, x, z).len() ==> text_between(b, x, z)[i] != a as char,
{
    lemma_sub_valid(b, x, z);
    let t = b.subrange(x, z);
    decode_utf8_encode_utf8(t);
    assert forall|j: int| 0 <= j < encode_utf8(decode_utf8(t)).len() implies encode_utf8(
        decode_utf8(t),
    )[j] != a by {
        assert(t[j] == b[x + j]);
    }
    lemma_no_ascii_char(decode_utf8(t), a);
}

/// An ASCII byte at a boundary decodes to exactly that character.
pub proof fn lemma_decode_ascii_at(b: Seq<u8>, i: int)
    requires
        valid_utf8(b),
        0 <= i < b.len(),
        b[i] < 0x80,
    ensures
        is_char_boundary(b, i),
        is_char_boundary(b, i + 1),
        text_between(b, i, i + 1) == seq![b[i] as char],
{
    lemma_boundary_after_ascii(b, i);
    assert(b.subrange(i, i + 1) =~= seq![b[i]]);
    lemma_decode_ascii_byte(b[i]);
}

/// Replacing every occurrence of character `c` with `r`.
pub open spec fn replace_char(s: Seq<char>, c: char, r: Seq<char>) -> Seq<char>
    decreases s.len(),
{
    if s.len() == 0 {
        seq![]
    } else {
        (if s[0] == c {
            r
        } else {
            seq![s[0]]
        }) + replace_char(s.drop_first(), c, r)
    }
}

pub proof fn lemma_replace_concat(x: Seq<char>, y: Seq<char>, c: char, r: Seq<char>)
    ensures
        replace_char(x + y, c, r) == replace_char(x, c, r) + replace_char(y, c, r),
    decreases x.len(),
{
    if x.len() == 0 {
        assert(x + y =~= y);
    } else {
        assert((x + y).drop_first() =~= x.drop_first() + y);
        lemma_replace_concat(x.drop_first(), y, c, r);
    }
}

pub proof fn lemma_replace_absent(x: Seq<char>, c: char, r: Seq<char>)
    requires
        forall|i: int| 0 <= i < x.len() ==> x[i] != c,
    ensures
        replace_char(x, c, r) == x,
    decreases x.len(),
{
    if x.len() > 0 {
        lemma_replace_absent(x.drop_first(), c, r);
        assert(seq![x[0]] + x.drop_first() =~= x);
    }
}

/// Every ASCII character `c` of `s` replaced by `r`.
pub fn replace_ascii(s: &str, c: u8, r: &str) -> (out: String)
    requires
        c < 0x80,
    ensures
        out@ == replace_char(s@, c as char, r@),
{
    let b = s.as_bytes();
    let len = b.len();
    let ghost bs = b@;
    proof {
        is_char_boundary_start_end_of_seq(bs);
        assert(bs.subrange(0, len as int) =~= bs);
    }
    let mut out = String::new();
    let mut seg: usize = 0;
    let mut i: usize = 0;
    proof {
        assert(text_between(bs, 0, 0) =~= Seq::<char>::empty()) by {
            assert(bs.subrange(0, 0) =~= Seq::<u8>::empty());
        }
    }
    while i < len
        invariant
            len == bs.len(),
            b@ == bs,
            bs == s.spec_bytes(),
            valid_utf8(bs),
            c < 0x80,
            seg <= i <= len,
            is_char_boundary(bs, seg as int),
            forall|j: int| seg <= j < i ==> bs[j] != c,
            out@ == replace_char(text_between(bs, 0, seg as int), c as char, r@),
        decreases len - i,
    {
        if b[i] == c {
            proof {
                lemma_decode_ascii_at(bs, i as int);
                lemma_no_ascii_in_between(bs, seg as int, i as int, c);
                lemma_replace_absent(text_between(bs, seg as int, i as int), c as char, r@);
                is_char_boundary_start_end_of_seq(bs);
                lemma_decode_concat(bs, 0, seg as int, i as int);
                lemma_decode_concat(bs, 0, i as int, i + 1);
                lemma_replace_concat(text_between(bs, 0, seg as int), text_between(bs, seg as int, i as int), c as char, r@);
                lemma_replace_concat(text_between(bs, 0, i as int), seq![c as char], c as char, r@);
                assert(replace_char(seq![c as char], c as char, r@) =~= r@) by {
                    assert(seq![c as char].drop_first() =~= Seq::<char>::empty());
                    reveal_with_fuel(replace_char, 2);
                }
            }
            let piece = substr(s, seg, i);
            out.append(piece);
            out.append(r);
            seg = i + 1;
        }
        i = i + 1;
    }
    proof {
        is_char_boundary_start_end_of_seq(bs);
        lemma_no_ascii_in_between(bs, seg as int, len as int, c);
        lemma_replace_absent(text_between(bs, seg as int, len as int), c as char, r@);
        lemma_decode_concat(bs, 0, seg as int, len as int);
        lemma_replace_concat(text_between(bs, 0, seg as int), text_between(bs, seg as int, len as int), c as char, r@);
        assert(text_between(bs, 0, len as int) == s@);
    }
    let piece = substr(s, seg, len);
    out.append(piece);
    out
}


pub proof fn lemma_lines_count(b: Seq<u8>, p: int)
    requires
        0 <= p,
    ensures
        lines_from(b, p).len() <= if p <= b.len() { b.len() - p } else { 0 },
    decreases b.len() + 1 - p,
{
    if p < b.len() {
        lemma_next_newline(b, p);
        lemma_lines_count(b, next_newline(b, p) + 1);
    }
}

/// Line ranges start and end on character boundaries.
pub proof fn lemma_lines_from_boundaries(b: Seq<u8>, p: int)
    requires
        valid_utf8(b),
        0 <= p,
        p <= b.len() ==> is_char_boundary(b, p),
    ensures
        forall|k: int|
            0 <= k < lines_from(b, p).len() ==> is_char_boundary(b, #[trigger] lines_from(b, p)[k].0)
                && is_char_boundary(b, lines_from(b, p)[k].1),
    decreases b.len() + 1 - p,
{
    if p < b.len() {
        let e = next_newline(b, p);
        lemma_next_newline(b, p);
        let end = line_content_end(b, p, e);
        if e < b.len() {
            lemma_boundary_after_ascii(b, e);
        } else {
            is_char_boundary_start_end_of_seq(b);
        }
        if end < e {
            lemma_boundary_after_ascii(b, e - 1);
        }
        lemma_lines_from_boundaries(b, e + 1);
        assert forall|k: int| 0 <= k < lines_from(b, p).len() implies is_char_boundary(
            b,
            #[trigger] lines_from(b, p)[k].0,
        ) && is_char_boundary(b, lines_from(b, p)[k].1) by {
            if k > 0 {
                assert(lines_from(b, p)[k] == lines_from(b, e + 1)[k - 1]);
            }
        }
    }
}

pub proof fn lemma_line_range_boundaries(b: Seq<u8>, k: int)
    requires
        valid_utf8(b),
        0 <= k < line_ranges(b).len(),
    ensures
        is_char_boundary(b, line_ranges(b)[k].0),
        is_char_boundary(b, line_ranges(b)[k].1),
        0 <= line_ranges(b)[k].0 <= line_ranges(b)[k].1 <= b.len(),
        k < b.len(),
{
    is_char_boundary_start_end_of_seq(b);
    lemma_lines_from_boundaries(b, 0);
    lemma_lines_from_bounds(b, 0);
    lemma_lines_count(b, 0);
}


/// `needle` occurs in `hay` at byte offset `i`.
pub open spec fn occurs_at(hay: Seq<u8>, needle: Seq<u8>, i: int) -> bool {
    0 <= i && i + needle.len() <= hay.len() && hay.subrange(i, i + needle.len()) == needle
}

/// Offset of the first occurrence of `needle` in `hay` at or after `from`.
pub open spec fn first_occurrence_from(hay: Seq<u8>, needle: Seq<u8>, from: int) -> Option<int>
    decreases hay.len() + 1 - from,
{
    if from < 0 || from + needle.len() > hay.len() {
        None
    } else if occurs_at(hay, needle, from) {
        Some(from)
    } else {
        first_occurrence_from(hay, needle, from + 1)
    }
}

/// `str::find` with a string pattern: offset of the first occurrence.
pub open spec fn first_occurrence(hay: Seq<u8>, needle: Seq<u8>) -> Option<int> {
    first_occurrence_from(hay, needle, 0)
}

/// `str::contains` with a string pattern.
pub open spec fn contains_bytes(hay: Seq<u8>, needle: Seq<u8>) -> bool {
    first_occurrence(hay, needle) is Some
}

/// `str::starts_with` with a string pattern.
pub open spec fn starts_with_bytes(hay: Seq<u8>, needle: Seq<u8>) -> bool {
    occurs_at(hay, needle, 0)
}

pub proof fn lemma_first_occurrence_bounds(hay: Seq<u8>, needle: Seq<u8>, from: int)
    ensures
        first_occurrence_from(hay, needle, from) matches Some(i) ==> from <= i && occurs_at(
            hay,
            needle,
            i,
        ),
    decreases hay.len() + 1 - from,
{
    if !(from < 0 || from + needle.len() > hay.len()) && !occurs_at(hay, needle, from) {
        lemma_first_occurrence_bounds(hay, needle, from + 1);
    }
}

fn occurs_at_exec(hay: &[u8], needle: &[u8], i: usize) -> (r: bool)
    requires
        i + needle@.len() <= hay@.len(),
    ensures
        r == occurs_at(hay@, needle@, i as int),
{
    let hl = hay.len();
    let mut j: usize = 0;
    while j < needle.len()
        invariant
            hl == hay@.len(),
            i + needle@.len() <= hay@.len(),
            j <= needle@.len(),
            forall|t: int| 0 <= t < j ==> hay@[i + t] == needle@[t],
        decreases needle@.len() - j,
    {
        if hay[i + j] != needle[j] {
            proof {
                assert(hay@.subrange(i as int, i + needle@.len())[j as int] != needle@[j as int]);
            }
            return false;
        }
        j = j + 1;
    }
    proof {
        assert(hay@.subrange(i as int, i + needle@.len()) =~= needle@);
    }
    true
}

/// Offset of the first occurrence of `needle` in `hay`.
pub fn find_bytes(hay: &[u8], needle: &[u8]) -> (r: Option<usize>)
    ensures
        opt_int(r) == first_occurrence(hay@, needle@),
{
    if needle.len() > hay.len() {
        return None;
    }
    let last = hay.len() - needle.len();
    let mut i: usize = 0;
    loop
        invariant
            last + needle@.len() == hay@.len(),
            i <= last,
            first_occurrence_from(hay@, needle@, i as int) == first_occurrence(hay@, needle@),
        decreases last - i,
    {
        if occurs_at_exec(hay, needle, i) {
            return Some(i);
        }
        if i == last {
            proof {
                assert(first_occurrence_from(hay@, needle@, i + 1) is None);
            }
            return None;
        }
        i = i + 1;
    }
}

pub open spec fn opt_int(r: Option<usize>) -> Option<int> {
    match r {
        Some(i) => Some(i as int),
        None => None,
    }
}


/// Index of the first byte equal to `c` at or after `from`.
pub open spec fn first_byte_from(b: Seq<u8>, from: int, c: u8) -> Option<int>
    decreases b.len() - from,
{
    if from < 0 || from >= b.len() {
        None
    } else if b[from] == c {
        Some(from)
    } else {
        first_byte_from(b, from + 1, c)
    }
}

pub proof fn lemma_first_byte_from(b: Seq<u8>, from: int, c: u8)
    ensures
        first_byte_from(b, from, c) matches Some(j) ==> from <= j < b.len() && b[j] == c,
    decreases b.len() - from,
{
    if !(from < 0 || from >= b.len()) && b[from] != c {
        lemma_first_byte_from(b, from + 1, c);
    }
}

/// Index of the first byte `c` at or after `from` (`str::find` with an ASCII character).
pub fn find_byte_from(b: &[u8], from: usize, c: u8) -> (r: Option<usize>)
    ensures
        opt_int(r) == first_byte_from(b@, from as int, c),
{
    let len = b.len();
    let mut i = from;
    while i < len
        invariant
            len == b@.len(),
            from <= i,
            first_byte_from(b@, i as int, c) == first_byte_from(b@, from as int, c),
        decreases len - i,
    {
        if b[i] == c {
            return Some(i);
        }
        i = i + 1;
    }
    None
}

/// The first index from `i` on where the brace opened at `open` closes.
pub open spec fn brace_close_from(b: Seq<u8>, open: int, i: int) -> Option<int>
    decreases b.len() - i,
{
    if i < 0 || i >= b.len() {
        None
    } else if brace_closes_at(b, open, i) {
        Some(i)
    } else {
        brace_close_from(b, open, i + 1)
    }
}

/// Index of the `}` matching the `{` at `open`, if `open` holds a `{` that closes.
pub open spec fn matching_brace(b: Seq<u8>, open: int) -> Option<int> {
    if 0 <= open < b.len() && b[open] == 123 {
        brace_close_from(b, open, open)
    } else {
        None
    }
}

pub proof fn lemma_brace_close_from(b: Seq<u8>, open: int, i: int)
    requires
        0 <= i,
    ensures
        brace_close_from(b, open, i) matches Some(j) ==> i <= j < b.len() && brace_closes_at(
            b,
            open,
            j,
        ) && forall|k: int| i <= k < j ==> !brace_closes_at(b, open, k),
        brace_close_from(b, open, i) is None ==> forall|k: int|
            i <= k < b.len() ==> !brace_closes_at(b, open, k),
    decreases b.len() - i,
{
    if i < b.len() && !brace_closes_at(b, open, i) {
        lemma_brace_close_from(b, open, i + 1);
        assert forall|k: int| i <= k < b.len() && k < i + 1 implies !brace_closes_at(b, open, k)
            by {
            assert(k == i);
        }
    }
}

/// The characterisation of `matching_brace_end` pins down `matching_brace`.
pub proof fn lemma_matching_brace(b: Seq<u8>, open: int, r: Option<int>)
    requires
        0 <= open,
        (open >= b.len() || b[open] != 123) ==> r is None,
        r matches Some(j) ==> open <= j < b.len() && brace_closes_at(b, open, j) && forall|k: int|
            open <= k < j ==> !brace_closes_at(b, open, k),
        (r is None && open < b.len() && b[open] == 123) ==> forall|k: int|
            open <= k < b.len() ==> !brace_closes_at(b, open, k),
    ensures
        r == matching_brace(b, open),
        r matches Some(j) ==> b[j] == 125,
{
    lemma_brace_close_from(b, open, open);
    if open < b.len() && b[open] == 123 {
        match brace_close_from(b, open, open) {
            Some(j) => {
                match r {
                    Some(j2) => {
                        if j < j2 {
                        } else if j2 < j {
                        }
                    },
                    None => {},
                }
            },
            None => {},
        }
    }
}


/// String equality, decided on the UTF-8 bytes.
pub fn str_eq(a: &str, b: &str) -> (r: bool)
    ensures
        r == (a@ == b@),
{
    let x = a.as_bytes();
    let y = b.as_bytes();
    proof {
        encode_utf8_decode_utf8(a@);
        encode_utf8_decode_utf8(b@);
    }
    if x.len() != y.len() {
        return false;
    }
    let mut i: usize = 0;
    while i < x.len()
        invariant
            x@ == a.spec_bytes(),
            y@ == b.spec_bytes(),
            x@.len() == y@.len(),
            i <= x@.len(),
            forall|j: int| 0 <= j < i ==> x@[j] == y@[j],
        decreases x@.len() - i,
    {
        if x[i] != y[i] {
            return false;
        }
        i = i + 1;
    }
    proof {
        assert(x@ =~= y@);
    }
    true
}

} // verus!
