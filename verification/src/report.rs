//! Turning the collected diagnostics into a report: ordering, exit status and text.
use vstd::prelude::*;
use vstd::utf8::encode_utf8;
use vstd::string::{StringExecFns, StringSliceAdditionalSpecFns};

use crate::diagnostic::{diag_spec, diags_view, span_spec, Diagnostic, DiagnosticView, Severity, Span, SpanView};
use crate::order::{lemma_lex_asymmetric, lemma_lex_irreflexive, lemma_lex_total, lemma_lex_transitive, lex_less, lex_lt};

verus! {

/// Key separator, lower than every other key element but the line marker.
pub const SEP: u32 = 1;

/// Component tags: `Path` orders `RootDir < CurDir < ParentDir < Normal(_)`.
pub const ROOT_DIR: u32 = 300;

pub const CUR_DIR: u32 = 301;

pub const PARENT_DIR: u32 = 302;

pub const NORMAL: u32 = 303;

/// Index of the first `/` at or after `p`, or the length when there is none.
pub open spec fn next_slash(b: Seq<u8>, p: int) -> int
    decreases b.len() - p,
{
    if p >= b.len() {
        b.len() as int
    } else if b[p] == 47 {
        p
    } else {
        next_slash(b, p + 1)
    }
}

pub proof fn lemma_next_slash(b: Seq<u8>, p: int)
    requires
        0 <= p <= b.len(),
    ensures
        p <= next_slash(b, p) <= b.len(),
        next_slash(b, p) < b.len() ==> b[next_slash(b, p)] == 47,
        forall|j: int| p <= j < next_slash(b, p) ==> b[j] != 47,
    decreases b.len() - p,
{
    if p < b.len() && b[p] != 47 {
        lemma_next_slash(b, p + 1);
    }
}

/// Key of the path segment `b[s..e]`: empty and `.` segments are not components,
/// `..` is `ParentDir`, anything else a `Normal` component compared byte by byte.
pub open spec fn segment_key(b: Seq<u8>, s: int, e: int) -> Seq<u32> {
    let seg = b.subrange(s, e);
    if seg.len() == 0 || seg == seq![46u8] {
        seq![]
    } else if seg == seq![46u8, 46u8] {
        seq![PARENT_DIR, SEP]
    } else {
        seq![NORMAL] + seg.map_values(|x: u8| (x + 2) as u32) + seq![SEP]
    }
}

/// Keys of the segments from byte `p` on.
pub open spec fn segments_key(b: Seq<u8>, p: int) -> Seq<u32>
    decreases b.len() + 1 - p,
{
    if p < 0 || p > b.len() {
        seq![]
    } else {
        let e = next_slash(b, p);
        proof {
            lemma_next_slash(b, p);
        }
        segment_key(b, p, e) + segments_key(b, e + 1)
    }
}

/// A path's leading component: `RootDir` for `/...`, `CurDir` for `.` and `./...`.
pub open spec fn head_key(b: Seq<u8>) -> Seq<u32> {
    if b.len() > 0 && b[0] == 47 {
        seq![ROOT_DIR, SEP]
    } else if (b.len() == 1 && b[0] == 46) || (b.len() >= 2 && b[0] == 46 && b[1] == 47) {
        seq![CUR_DIR, SEP]
    } else {
        seq![]
    }
}

/// A key whose lexicographic order is the order of `std::path::Path` (its components
/// compared one by one: repeated separators, `.` after the start and a trailing `/`
/// are not components).
pub open spec fn path_key(b: Seq<u8>) -> Seq<u32> {
    head_key(b) + segments_key(b, 0)
}

/// The key diagnostics are ordered by: path first, then starting line.
pub open spec fn diag_key(d: DiagnosticView) -> Seq<u32> {
    path_key(encode_utf8(d.span.path)) + seq![0u32, d.span.line_start]
}

/// The path's ordering key.
pub fn path_sort_key(path: &str) -> (r: Vec<u32>)
    ensures
        r@ == path_key(path.spec_bytes()),
{
    let b = path.as_bytes();
    let len = b.len();
    let mut key: Vec<u32> = Vec::new();
    if len > 0 && b[0] == 47 {
        key.push(ROOT_DIR);
        key.push(SEP);
    } else if (len == 1 && b[0] == 46) || (len >= 2 && b[0] == 46 && b[1] == 47) {
        key.push(CUR_DIR);
        key.push(SEP);
    }
    proof {
        assert(key@ =~= head_key(b@));
    }
    let mut p: usize = 0;
    loop
        invariant_except_break
            key@ + segments_key(b@, p as int) == path_key(b@),
        invariant
            b@ == path.spec_bytes(),
            len == b@.len(),
            p <= len,
        ensures
            key@ == path_key(b@),
        decreases len - p,
    {
        let mut e = p;
        while e < len && b[e] != 47
            invariant
                p <= e <= len,
                len == b@.len(),
                next_slash(b@, p as int) == next_slash(b@, e as int),
            decreases len - e,
        {
            e = e + 1;
        }
        let ghost before = key@;
        let seg_len = e - p;
        let is_dot = seg_len == 1 && b[p] == 46;
        let is_dotdot = seg_len == 2 && b[p] == 46 && b[p + 1] == 46;
        proof {
            let seg = b@.subrange(p as int, e as int);
            if seg_len >= 1 {
                assert(seg[0] == b@[p as int]);
            }
            if seg_len >= 2 {
                assert(seg[1] == b@[p + 1]);
            }
            if seg_len == 1 {
                assert(is_dot == (seg == seq![46u8])) by {
                    if is_dot {
                        assert(seg =~= seq![46u8]);
                    }
                }
                assert(seg != seq![46u8, 46u8]);
            } else if seg_len == 2 {
                assert(is_dotdot == (seg == seq![46u8, 46u8])) by {
                    if is_dotdot {
                        assert(seg =~= seq![46u8, 46u8]);
                    }
                }
                assert(seg != seq![46u8]);
            } else {
                assert(seg != seq![46u8]);
                assert(seg != seq![46u8, 46u8]);
            }
        }
        if seg_len == 0 || is_dot {
        } else if is_dotdot {
            key.push(PARENT_DIR);
            key.push(SEP);
        } else {
            key.push(NORMAL);
            let mut j = p;
            while j < e
                invariant
                    p <= j <= e <= len,
                    len == b@.len(),
                    key@ == before + seq![NORMAL] + b@.subrange(p as int, j as int).map_values(
                        |x: u8| (x + 2) as u32,
                    ),
                decreases e - j,
            {
                key.push(b[j] as u32 + 2);
                j = j + 1;
                proof {
                    assert(key@ =~= before + seq![NORMAL] + b@.subrange(p as int, j as int).map_values(
                        |x: u8| (x + 2) as u32,
                    ));
                }
            }
            key.push(SEP);
        }
        proof {
            assert(key@ =~= before + segment_key(b@, p as int, e as int));
            assert(segments_key(b@, p as int) == segment_key(b@, p as int, e as int) + segments_key(
                b@,
                e + 1,
            ));
        }
        if e >= len {
            proof {
                assert(segments_key(b@, e + 1) =~= Seq::<u32>::empty());
                assert(key@ =~= path_key(b@));
            }
            break ;
        }
        p = e + 1;
    }
    key
}


/// Each diagnostic's key is no less than the one before it.
pub open spec fn sorted_by_key(s: Seq<DiagnosticView>) -> bool {
    forall|i: int, j: int| 0 <= i < j < s.len() ==> !lex_lt(#[trigger] diag_key(s[j]), #[trigger] diag_key(s[i]))
}

/// `out` is `inp` rearranged by `perm` (`out[i] == inp[perm[i]]`), and diagnostics with
/// equal keys keep their input order.
pub open spec fn stable_reordering(out: Seq<DiagnosticView>, inp: Seq<DiagnosticView>, perm: Seq<int>) -> bool {
    &&& perm.len() == out.len()
    &&& out.len() == inp.len()
    &&& forall|i: int| 0 <= i < perm.len() ==> 0 <= #[trigger] perm[i] < inp.len()
    &&& forall|i: int, j: int| 0 <= i < j < perm.len() ==> #[trigger] perm[i] != #[trigger] perm[j]
    &&& forall|i: int| 0 <= i < out.len() ==> #[trigger] out[i] == inp[perm[i]]
    &&& forall|i: int, j: int|
        0 <= i < j < out.len() && diag_key(#[trigger] out[i]) == diag_key(#[trigger] out[j]) ==> perm[i] < perm[j]
}

/// The ordering key of one diagnostic.
pub fn diagnostic_sort_key(d: &Diagnostic) -> (r: Vec<u32>)
    ensures
        r@ == diag_key(d@),
{
    let mut k = path_sort_key(d.span.path.as_str());
    k.push(0);
    k.push(d.span.line_start);
    proof {
        assert(k@ =~= diag_key(d@));
    }
    k
}

/// The partial reordering after `k` insertions: `out` holds the first `k` inputs.
spec fn partial_sorted(out: Seq<DiagnosticView>, inp: Seq<DiagnosticView>, perm: Seq<int>, k: int) -> bool {
    &&& perm.len() == out.len()
    &&& out.len() == k
    &&& k <= inp.len()
    &&& forall|i: int| 0 <= i < perm.len() ==> 0 <= #[trigger] perm[i] < k
    &&& forall|i: int, j: int| 0 <= i < j < perm.len() ==> #[trigger] perm[i] != #[trigger] perm[j]
    &&& forall|i: int| 0 <= i < out.len() ==> #[trigger] out[i] == inp[perm[i]]
    &&& forall|i: int, j: int|
        0 <= i < j < out.len() && diag_key(#[trigger] out[i]) == diag_key(#[trigger] out[j]) ==> perm[i] < perm[j]
    &&& sorted_by_key(out)
}

proof fn lemma_insert_keeps_sorted(
    out: Seq<DiagnosticView>,
    inp: Seq<DiagnosticView>,
    perm: Seq<int>,
    k: int,
    p: int,
    d: DiagnosticView,
)
    requires
        partial_sorted(out, inp, perm, k),
        k < inp.len(),
        inp[k] == d,
        0 <= p <= out.len(),
        forall|j: int| 0 <= j < p ==> !lex_lt(diag_key(d), #[trigger] diag_key(out[j])),
        p < out.len() ==> lex_lt(diag_key(d), diag_key(out[p])),
    ensures
        partial_sorted(out.insert(p, d), inp, perm.insert(p, k), k + 1),
{
    let o2 = out.insert(p, d);
    let p2 = perm.insert(p, k);
    assert forall|i: int| 0 <= i < o2.len() implies #[trigger] o2[i] == inp[p2[i]] by {
        if i < p {
        } else if i == p {
        } else {
            assert(o2[i] == out[i - 1]);
            assert(p2[i] == perm[i - 1]);
        }
    }
    assert forall|i: int| 0 <= i < p2.len() implies 0 <= #[trigger] p2[i] < k + 1 by {
        if i > p {
            assert(p2[i] == perm[i - 1]);
        }
    }
    assert forall|i: int, j: int| 0 <= i < j < p2.len() implies #[trigger] p2[i] != #[trigger] p2[j] by {
        let ii = if i < p { i } else { i - 1 };
        let jj = if j < p { j } else { j - 1 };
        if i != p && j != p {
            assert(p2[i] == perm[ii]);
            assert(p2[j] == perm[jj]);
        } else if i == p {
            assert(p2[j] == perm[jj]);
        } else {
            assert(p2[i] == perm[ii]);
        }
    }
    assert forall|i: int, j: int| 0 <= i < j < o2.len() implies !lex_lt(
        #[trigger] diag_key(o2[j]),
        #[trigger] diag_key(o2[i]),
    ) by {
        if j < p {
            assert(o2[i] == out[i] && o2[j] == out[j]);
        } else if j == p {
            assert(o2[i] == out[i]);
        } else if i == p {
            // d < out[p] <= out[j - 1]
            assert(o2[j] == out[j - 1]);
            if lex_lt(diag_key(out[j - 1]), diag_key(d)) {
                if j - 1 == p {
                    lemma_lex_transitive(diag_key(out[p]), diag_key(d), diag_key(out[p]));
                    lemma_lex_irreflexive(diag_key(out[p]));
                } else {
                    lemma_lex_transitive(diag_key(out[j - 1]), diag_key(d), diag_key(out[p]));
                    assert(!lex_lt(diag_key(out[j - 1]), diag_key(out[p])));
                }
            }
        } else if i < p {
            assert(o2[i] == out[i] && o2[j] == out[j - 1]);
        } else {
            assert(o2[i] == out[i - 1] && o2[j] == out[j - 1]);
        }
    }
    assert forall|i: int, j: int|
        0 <= i < j < o2.len() && diag_key(#[trigger] o2[i]) == diag_key(#[trigger] o2[j]) implies p2[i] < p2[j] by {
        if j < p {
            assert(o2[i] == out[i] && o2[j] == out[j]);
            assert(p2[i] == perm[i] && p2[j] == perm[j]);
        } else if j == p {
            assert(p2[i] == perm[i]);
        } else if i == p {
            assert(o2[j] == out[j - 1]);
            if j - 1 == p {
                lemma_lex_irreflexive(diag_key(d));
            } else {
                assert(!lex_lt(diag_key(out[j - 1]), diag_key(out[p])));
            }
        } else if i < p {
            assert(o2[i] == out[i] && o2[j] == out[j - 1]);
            assert(p2[i] == perm[i] && p2[j] == perm[j - 1]);
        } else {
            assert(o2[i] == out[i - 1] && o2[j] == out[j - 1]);
            assert(p2[i] == perm[i - 1] && p2[j] == perm[j - 1]);
        }
    }
}

/// Diagnostics ordered by path (as `std::path::Path` orders them), then by starting
/// line; diagnostics with the same path and line keep their order.
pub fn sort_diagnostics(ds: Vec<Diagnostic>) -> (r: Vec<Diagnostic>)
    ensures
        sorted_by_key(diags_view(r@)),
        exists|perm: Seq<int>| stable_reordering(diags_view(r@), diags_view(ds@), perm),
{
    let ghost inp = diags_view(ds@);
    let n = ds.len();
    let mut ds = ds;
    // reversed, so that popping yields the diagnostics in their input order
    let mut rest: Vec<Diagnostic> = Vec::new();
    while ds.len() > 0
        invariant
            rest@.len() + ds@.len() == n,
            n == inp.len(),
            forall|j: int| 0 <= j < ds@.len() ==> (#[trigger] ds@[j])@ == inp[j],
            forall|j: int| 0 <= j < rest@.len() ==> (#[trigger] rest@[j])@ == inp[n - 1 - j],
        decreases ds@.len(),
    {
        let x = ds.pop().unwrap();
        rest.push(x);
    }
    let mut out: Vec<Diagnostic> = Vec::new();
    let mut keys: Vec<Vec<u32>> = Vec::new();
    let ghost mut perm: Seq<int> = seq![];
    let mut k: usize = 0;
    while k < n
        invariant
            n == inp.len(),
            k <= n,
            rest@.len() == n - k,
            forall|j: int| 0 <= j < rest@.len() ==> (#[trigger] rest@[j])@ == inp[n - 1 - j],
            keys@.len() == out@.len(),
            forall|j: int| 0 <= j < keys@.len() ==> (#[trigger] keys@[j])@ == diag_key(out@[j]@),
            partial_sorted(diags_view(out@), inp, perm, k as int),
        decreases n - k,
    {
        let d = rest.pop().unwrap();
        let key = diagnostic_sort_key(&d);
        let mut p: usize = 0;
        while p < out.len() && !lex_less(&key, &keys[p])
            invariant
                p <= out@.len(),
                keys@.len() == out@.len(),
                forall|j: int| 0 <= j < keys@.len() ==> (#[trigger] keys@[j])@ == diag_key(out@[j]@),
                forall|j: int| 0 <= j < p ==> !lex_lt(diag_key(d@), #[trigger] diag_key(diags_view(out@)[j])),
                key@ == diag_key(d@),
            decreases out@.len() - p,
        {
            p = p + 1;
        }
        proof {
            lemma_insert_keeps_sorted(diags_view(out@), inp, perm, k as int, p as int, d@);
            perm = perm.insert(p as int, k as int);
        }
        let ghost old_out = out@;
        out.insert(p, d);
        keys.insert(p, key);
        proof {
            assert(diags_view(out@) =~= diags_view(old_out).insert(p as int, d@));
            assert forall|j: int| 0 <= j < keys@.len() implies (#[trigger] keys@[j])@ == diag_key(out@[j]@) by {
                if j > p {
                    assert(out@[j] == old_out[j - 1]);
                }
            }
        }
        k = k + 1;
    }
    proof {
        assert(stable_reordering(diags_view(out@), inp, perm));
    }
    out
}


/// The process exit status for a report: 1 when any diagnostic is an error.
pub open spec fn exit_status(ds: Seq<DiagnosticView>) -> i32 {
    if exists|i: int| 0 <= i < ds.len() && (#[trigger] ds[i]).severity == Severity::Error {
        1
    } else {
        0
    }
}

/// Exit status: 1 when any diagnostic has error severity, otherwise 0.
pub fn exit_code(ds: &Vec<Diagnostic>) -> (r: i32)
    ensures
        r == exit_status(diags_view(ds@)),
{
    let mut i: usize = 0;
    while i < ds.len()
        invariant
            i <= ds@.len(),
            forall|j: int| 0 <= j < i ==> (#[trigger] ds@[j]).severity != Severity::Error,
        decreases ds@.len() - i,
    {
        if ds[i].severity == Severity::Error {
            proof {
                assert(diags_view(ds@)[i as int].severity == Severity::Error);
            }
            return 1;
        }
        i = i + 1;
    }
    proof {
        assert forall|j: int| 0 <= j < diags_view(ds@).len() implies (#[trigger] diags_view(ds@)[j]).severity
            != Severity::Error by {
            assert(diags_view(ds@)[j] == ds@[j]@);
        }
    }
    0
}

/// The id of diagnostics about a failed `sui move build --lint`.
pub const SUI_MOVE_LINT_ID: &'static str = "sui_move_lint";

/// Whether any diagnostic reports a failed `sui move build --lint`.
pub fn reports_sui_move_lint(ds: &Vec<Diagnostic>) -> (r: bool)
    ensures
        r == exists|i: int| 0 <= i < ds@.len() && (#[trigger] ds@[i]).lint_id@ == SUI_MOVE_LINT_ID@,
{
    let mut i: usize = 0;
    while i < ds.len()
        invariant
            i <= ds@.len(),
            forall|j: int| 0 <= j < i ==> (#[trigger] ds@[j]).lint_id@ != SUI_MOVE_LINT_ID@,
        decreases ds@.len() - i,
    {
        if crate::text::str_eq(ds[i].lint_id.as_str(), SUI_MOVE_LINT_ID) {
            return true;
        }
        i = i + 1;
    }
    false
}

/// The decimal digit character of `d < 10`.
pub open spec fn digit_char(d: nat) -> char {
    (48 + d) as char
}

/// Decimal notation of `n`, without leading zeros.
pub open spec fn decimal(n: nat) -> Seq<char>
    decreases n,
{
    if n < 10 {
        seq![digit_char(n)]
    } else {
        decimal(n / 10) + seq![digit_char(n % 10)]
    }
}

fn digit_str(d: u32) -> (r: &'static str)
    requires
        d < 10,
    ensures
        r@ == seq![digit_char(d as nat)],
{
    proof {
        reveal_strlit("0");
        reveal_strlit("1");
        reveal_strlit("2");
        reveal_strlit("3");
        reveal_strlit("4");
        reveal_strlit("5");
        reveal_strlit("6");
        reveal_strlit("7");
        reveal_strlit("8");
        reveal_strlit("9");
    }
    match d {
        0 => "0",
        1 => "1",
        2 => "2",
        3 => "3",
        4 => "4",
        5 => "5",
        6 => "6",
        7 => "7",
        8 => "8",
        _ => "9",
    }
}

/// `n` in decimal.
pub fn decimal_string(n: u32) -> (r: String)
    ensures
        r@ == decimal(n as nat),
    decreases n,
{
    if n < 10 {
        String::from_str(digit_str(n))
    } else {
        let mut s = decimal_string(n / 10);
        s.append(digit_str(n % 10));
        s
    }
}

/// Decimal notation of a signed number.
pub open spec fn signed_decimal(n: int) -> Seq<char> {
    if n < 0 {
        "-"@ + decimal((-n) as nat)
    } else {
        decimal(n as nat)
    }
}

/// `{:?}` of an exit code that may be missing.
pub open spec fn exit_code_debug(code: Option<i32>) -> Seq<char> {
    match code {
        Some(c) => "Some("@ + signed_decimal(c as int) + ")"@,
        None => "None"@,
    }
}

fn exit_code_text(code: Option<i32>) -> (r: String)
    ensures
        r@ == exit_code_debug(code),
{
    match code {
        Some(c) => {
            let mut s = String::from_str("Some(");
            if c < 0 {
                let magnitude: i64 = -(c as i64);
                s.append("-");
                s.append(decimal_string(magnitude as u32).as_str());
            } else {
                s.append(decimal_string(c as u32).as_str());
            }
            s.append(")");
            s
        },
        None => String::from_str("None"),
    }
}

/// The span failures of the Sui linter point at: the start of the package manifest.
pub open spec fn manifest_start(move_toml: Seq<char>) -> SpanView {
    span_spec(move_toml, 1, 1, 1, 1)
}

/// The diagnostic for a `sui move build --lint` that ran and failed.
pub fn sui_lint_failed(package_root: &str, move_toml: String, code: Option<i32>) -> (d: Diagnostic)
    ensures
        d@ == diag_spec(
            SUI_MOVE_LINT_ID@,
            "`sui move build --lint` failed for "@ + package_root@ + " (exit "@ + exit_code_debug(code) + ")"@,
            Severity::Error,
            manifest_start(move_toml@),
        ),
{
    let mut msg = String::from_str("`sui move build --lint` failed for ");
    msg.append(package_root);
    msg.append(" (exit ");
    msg.append(exit_code_text(code).as_str());
    msg.append(")");
    let span = Span { path: move_toml, line_start: 1, line_end: 1, col_start: 1, col_end: 1 };
    Diagnostic::new(SUI_MOVE_LINT_ID, msg.as_str(), Severity::Error, span)
}

/// The diagnostic for a `sui move build --lint` that could not be started.
pub fn sui_lint_unavailable(package_root: &str, move_toml: String, error: &str) -> (d: Diagnostic)
    ensures
        d@ == diag_spec(
            SUI_MOVE_LINT_ID@,
            "failed to run `sui move build --lint` for "@ + package_root@ + ": "@ + error@,
            Severity::Error,
            manifest_start(move_toml@),
        ),
{
    let mut msg = String::from_str("failed to run `sui move build --lint` for ");
    msg.append(package_root);
    msg.append(": ");
    msg.append(error);
    let span = Span { path: move_toml, line_start: 1, line_end: 1, col_start: 1, col_end: 1 };
    Diagnostic::new(SUI_MOVE_LINT_ID, msg.as_str(), Severity::Error, span)
}

/// How a severity is printed in text reports.
pub open spec fn severity_text(s: Severity) -> Seq<char> {
    match s {
        Severity::Error => "error"@,
        Severity::Warning => "warning"@,
        Severity::Note => "note"@,
        Severity::Allow => "allow"@,
    }
}

fn severity_word(s: Severity) -> (r: &'static str)
    ensures
        r@ == severity_text(s),
{
    match s {
        Severity::Error => "error",
        Severity::Warning => "warning",
        Severity::Note => "note",
        Severity::Allow => "allow",
    }
}

/// The text block of one diagnostic:
/// `path: severity [lint]: message`, then `  --> path:line:col`, then the note if any.
pub open spec fn diagnostic_text(d: DiagnosticView) -> Seq<char> {
    d.span.path + ": "@ + severity_text(d.severity) + " ["@ + d.lint_id + "]: "@ + d.message + "\n"@
        + "  --> "@ + d.span.path + ":"@ + decimal(d.span.line_start as nat) + ":"@ + decimal(
        d.span.col_start as nat,
    ) + "\n"@ + match d.note {
        Some(n) => "   = note: "@ + n + "\n"@,
        None => seq![],
    }
}

/// The location line of a diagnostic at `line:col` of `path`, as editors read it.
pub open spec fn location_line(path: Seq<char>, line: u32, col: u32) -> Seq<char> {
    "  --> "@ + path + ":"@ + decimal(line as nat) + ":"@ + decimal(col as nat) + "\n"@
}

/// The rendered block of a diagnostic starts with `path: severity [lint]: message` and
/// holds its location line: the path, then the starting line, then the starting column.
pub proof fn lemma_rendered_location(d: DiagnosticView)
    ensures
        diagnostic_text(d).take(
            (d.span.path + ": "@ + (match d.severity {
                Severity::Error => "error"@,
                Severity::Warning => "warning"@,
                Severity::Note => "note"@,
                Severity::Allow => "allow"@,
            }) + " ["@ + d.lint_id + "]: "@ + d.message + "\n"@).len() as int,
        ) == d.span.path + ": "@ + (match d.severity {
            Severity::Error => "error"@,
            Severity::Warning => "warning"@,
            Severity::Note => "note"@,
            Severity::Allow => "allow"@,
        }) + " ["@ + d.lint_id + "]: "@ + d.message + "\n"@,
        exists|a: int|
            0 <= a <= diagnostic_text(d).len() && (#[trigger] diagnostic_text(d).skip(a)).take(
                location_line(d.span.path, d.span.line_start, d.span.col_start).len() as int,
            ) == location_line(d.span.path, d.span.line_start, d.span.col_start),
{
    let head = d.span.path + ": "@ + severity_text(d.severity) + " ["@ + d.lint_id + "]: "@ + d.message + "\n"@;
    let loc = location_line(d.span.path, d.span.line_start, d.span.col_start);
    let tail: Seq<char> = match d.note {
        Some(n) => "   = note: "@ + n + "\n"@,
        None => seq![],
    };
    assert(diagnostic_text(d) =~= head + loc + tail);
    assert(diagnostic_text(d).skip(head.len() as int).take(loc.len() as int) =~= loc);
    assert(diagnostic_text(d).take(head.len() as int) =~= head);
}

/// Render one diagnostic for the text report.
pub fn render_diagnostic(d: &Diagnostic) -> (r: String)
    ensures
        r@ == diagnostic_text(d@),
        exists|a: int|
            0 <= a <= r@.len() && (#[trigger] r@.skip(a)).take(
                location_line(d.span.path@, d.span.line_start, d.span.col_start).len() as int,
            ) == location_line(d.span.path@, d.span.line_start, d.span.col_start),
{
    proof {
        lemma_rendered_location(d@);
    }
    let mut out = d.span.path.clone();
    out.append(": ");
    out.append(severity_word(d.severity));
    out.append(" [");
    out.append(d.lint_id.as_str());
    out.append("]: ");
    out.append(d.message.as_str());
    out.append("\n");
    out.append("  --> ");
    out.append(d.span.path.as_str());
    out.append(":");
    out.append(decimal_string(d.span.line_start).as_str());
    out.append(":");
    out.append(decimal_string(d.span.col_start).as_str());
    out.append("\n");
    match &d.note {
        Some(n) => {
            out.append("   = note: ");
            out.append(n.as_str());
            out.append("\n");
        },
        None => {},
    }
    proof {
        assert(out@ =~= diagnostic_text(d@));
    }
    out
}

/// The diagnostics' text blocks, one after another.
pub open spec fn diagnostics_text(ds: Seq<DiagnosticView>) -> Seq<char>
    decreases ds.len(),
{
    if ds.len() == 0 {
        seq![]
    } else {
        diagnostics_text(ds.drop_last()) + diagnostic_text(ds.last())
    }
}

/// Printed when nothing was reported and no Sui lint run was requested.
pub const NO_ISSUES: &'static str = "sui-clippy: no issues from built-in lints.\n";

/// Standard output of a text report.
pub open spec fn text_report_spec(ds: Seq<DiagnosticView>, with_sui_lint: bool) -> Seq<char> {
    if ds.len() == 0 && !with_sui_lint {
        NO_ISSUES@
    } else {
        diagnostics_text(ds)
    }
}

/// The standard output of a text report: every diagnostic, or a note that there are none.
pub fn text_report(ds: &Vec<Diagnostic>, with_sui_lint: bool) -> (r: String)
    ensures
        r@ == text_report_spec(diags_view(ds@), with_sui_lint),
{
    let mut out = String::new();
    let mut k: usize = 0;
    while k < ds.len()
        invariant
            k <= ds@.len(),
            out@ == diagnostics_text(diags_view(ds@).take(k as int)),
        decreases ds@.len() - k,
    {
        let block = render_diagnostic(&ds[k]);
        out.append(block.as_str());
        proof {
            assert(diags_view(ds@).take(k + 1).drop_last() =~= diags_view(ds@).take(k as int));
            assert(diags_view(ds@).take(k + 1).last() == ds@[k as int]@);
        }
        k = k + 1;
    }
    proof {
        assert(diags_view(ds@).take(ds@.len() as int) =~= diags_view(ds@));
    }
    if ds.len() == 0 && !with_sui_lint {
        proof {
            assert(out@ =~= Seq::<char>::empty());
        }
        out.append(NO_ISSUES);
        proof {
            assert(out@ =~= NO_ISSUES@);
        }
    }
    out
}

} // verus!
