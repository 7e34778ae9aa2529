//! The rule table and levels of a SARIF 2.1.0 report.
use vstd::prelude::*;
use vstd::utf8::{encode_utf8, encode_utf8_decode_utf8};
use vstd::string::{StringExecFns, StringSliceAdditionalSpecFns};

use crate::text::{replace_ascii, replace_char};
use crate::diagnostic::{diags_view, Diagnostic, DiagnosticView, Severity};
use crate::order::{lemma_lex_asymmetric, lemma_lex_irreflexive, lemma_lex_total, lemma_lex_transitive, lex_less, lex_lt};

verus! {

/// SARIF `level` of a severity.
pub open spec fn sarif_level(s: Severity) -> Seq<char> {
    match s {
        Severity::Error => "error"@,
        Severity::Warning => "warning"@,
        Severity::Note | Severity::Allow => "note"@,
    }
}

pub fn severity_to_sarif_level(s: Severity) -> (r: &'static str)
    ensures
        r@ == sarif_level(s),
{
    match s {
        Severity::Error => "error",
        Severity::Warning => "warning",
        Severity::Note => "note",
        Severity::Allow => "note",
    }
}

/// The `file:` URI of an absolute path: `file://` before a `/`-rooted path, otherwise
/// `file:///` before the path with backslashes turned into `/`.
pub open spec fn file_uri_spec(abs: Seq<char>) -> Seq<char> {
    if abs.len() > 0 && abs[0] == '/' {
        "file://"@ + abs
    } else {
        "file:///"@ + replace_char(abs, '\\', "/"@)
    }
}

pub fn file_uri(abs: &str) -> (r: String)
    ensures
        r@ == file_uri_spec(abs@),
{
    let cs = crate::chars::chars_of(abs);
    if cs.len() > 0 && cs[0] == '/' {
        let mut r = String::from_str("file://");
        r.append(abs);
        r
    } else {
        let mut r = String::from_str("file:///");
        let rest = replace_ascii(abs, 92, "/");
        proof {
            assert(92u8 as char == '\\');
        }
        r.append(rest.as_str());
        r
    }
}

/// The order key of a string: its UTF-8 bytes (strings order byte by byte).
pub open spec fn str_key(s: Seq<char>) -> Seq<u32> {
    encode_utf8(s).map_values(|b: u8| b as u32)
}

pub proof fn lemma_str_key_injective(a: Seq<char>, b: Seq<char>)
    requires
        str_key(a) == str_key(b),
    ensures
        a == b,
{
    let x = encode_utf8(a);
    let y = encode_utf8(b);
    assert(x.len() == str_key(a).len());
    assert forall|i: int| 0 <= i < x.len() implies x[i] == y[i] by {
        assert(str_key(a)[i] == x[i] as u32);
        assert(str_key(b)[i] == y[i] as u32);
    }
    assert(x =~= y);
    encode_utf8_decode_utf8(a);
    encode_utf8_decode_utf8(b);
}

pub(crate) fn str_key_of(s: &str) -> (r: Vec<u32>)
    ensures
        r@ == str_key(s@),
{
    let b = s.as_bytes();
    let mut r: Vec<u32> = Vec::new();
    let mut i: usize = 0;
    while i < b.len()
        invariant
            i <= b@.len(),
            b@ == encode_utf8(s@),
            r@ == str_key(s@).take(i as int),
        decreases b@.len() - i,
    {
        r.push(b[i] as u32);
        i = i + 1;
        proof {
            assert(r@ =~= str_key(s@).take(i as int));
        }
    }
    proof {
        assert(r@ =~= str_key(s@));
    }
    r
}

/// The message of the first diagnostic with lint `id` (the id itself when there is none).
pub open spec fn first_message(ds: Seq<DiagnosticView>, id: Seq<char>) -> Seq<char>
    decreases ds.len(),
{
    if ds.len() == 0 {
        id
    } else if ds[0].lint_id == id {
        ds[0].message
    } else {
        first_message(ds.drop_first(), id)
    }
}

proof fn lemma_first_message(ds: Seq<DiagnosticView>, id: Seq<char>, k: int)
    requires
        0 <= k < ds.len(),
        ds[k].lint_id == id,
        forall|j: int| 0 <= j < k ==> (#[trigger] ds[j]).lint_id != id,
    ensures
        first_message(ds, id) == ds[k].message,
    decreases k,
{
    if k > 0 {
        let t = ds.drop_first();
        assert forall|j: int| 0 <= j < k - 1 implies (#[trigger] t[j]).lint_id != id by {
            assert(t[j] == ds[j + 1]);
        }
        lemma_first_message(t, id, k - 1);
    }
}

/// One SARIF rule: a lint id and its short description.
#[derive(Debug, Clone)]
pub struct SarifRule {
    pub id: String,
    pub text: String,
}

/// Some diagnostic has lint `id`.
pub open spec fn has_id(ds: Seq<DiagnosticView>, id: Seq<char>) -> bool {
    exists|k: int| 0 <= k < ds.len() && (#[trigger] ds[k]).lint_id == id
}

/// Some rule has id `id`.
pub open spec fn has_rule(rules: Seq<SarifRule>, id: Seq<char>) -> bool {
    exists|i: int| 0 <= i < rules.len() && (#[trigger] rules[i]).id@ == id
}

/// The rule ids are exactly the distinct lint ids of `ds`, in byte order.
pub open spec fn rules_of(rules: Seq<SarifRule>, ds: Seq<DiagnosticView>) -> bool {
    &&& forall|i: int, j: int|
        0 <= i < j < rules.len() ==> lex_lt(str_key(#[trigger] rules[i].id@), str_key(#[trigger] rules[j].id@))
    &&& forall|i: int| 0 <= i < rules.len() ==> has_id(ds, #[trigger] rules[i].id@)
    &&& forall|k: int| 0 <= k < ds.len() ==> has_rule(rules, #[trigger] ds[k].lint_id)
}

/// Each rule is described by the message of the first diagnostic with its id.
pub open spec fn rules_described(rules: Seq<SarifRule>, ds: Seq<DiagnosticView>) -> bool {
    forall|i: int| 0 <= i < rules.len() ==> (#[trigger] rules[i]).text@ == first_message(ds, rules[i].id@)
}

/// The rule table stays valid when the next diagnostic's id is already in it.
proof fn lemma_rules_present(rules: Seq<SarifRule>, ds: Seq<DiagnosticView>, k: int, p: int)
    requires
        0 <= k < ds.len(),
        rules_of(rules, ds.take(k)),
        0 <= p < rules.len(),
        rules[p].id@ == ds[k].lint_id,
    ensures
        rules_of(rules, ds.take(k + 1)),
{
    let taken = ds.take(k);
    let next = ds.take(k + 1);
    assert forall|i: int| 0 <= i < rules.len() implies has_id(next, #[trigger] rules[i].id@) by {
        assert(has_id(taken, rules[i].id@));
        let m = choose|m: int| 0 <= m < taken.len() && (#[trigger] taken[m]).lint_id == rules[i].id@;
        assert(next[m] == taken[m]);
    }
    assert forall|m: int| 0 <= m < next.len() implies has_rule(rules, #[trigger] next[m].lint_id) by {
        if m < k {
            assert(next[m] == taken[m]);
            assert(has_rule(rules, taken[m].lint_id));
        } else {
            assert(rules[p].id@ == next[m].lint_id);
        }
    }
}

/// An id found at no position of the sorted table is not among the earlier diagnostics.
proof fn lemma_new_id(rules: Seq<SarifRule>, ds: Seq<DiagnosticView>, k: int, p: int, id: Seq<char>)
    requires
        0 <= k < ds.len(),
        rules_of(rules, ds.take(k)),
        0 <= p <= rules.len(),
        forall|i: int| 0 <= i < p ==> lex_lt(str_key(#[trigger] rules[i].id@), str_key(id)),
        p < rules.len() ==> !lex_lt(str_key(rules[p].id@), str_key(id)),
        p < rules.len() ==> rules[p].id@ != id,
    ensures
        forall|j: int| 0 <= j < k ==> (#[trigger] ds[j]).lint_id != id,
        p < rules.len() ==> lex_lt(str_key(id), str_key(rules[p].id@)),
{
    let taken = ds.take(k);
    if p < rules.len() {
        lemma_lex_total(str_key(rules[p].id@), str_key(id));
        if str_key(rules[p].id@) == str_key(id) {
            lemma_str_key_injective(rules[p].id@, id);
        }
    }
    assert forall|j: int| 0 <= j < k implies (#[trigger] ds[j]).lint_id != id by {
        assert(taken[j] == ds[j]);
        if ds[j].lint_id == id {
            assert(has_rule(rules, taken[j].lint_id));
            let i = choose|i: int| 0 <= i < rules.len() && (#[trigger] rules[i]).id@ == id;
            if i < p {
                lemma_lex_irreflexive(str_key(id));
            } else if i > p {
                assert(lex_lt(str_key(rules[p].id@), str_key(rules[i].id@)));
                lemma_lex_transitive(str_key(id), str_key(rules[p].id@), str_key(rules[i].id@));
                lemma_lex_irreflexive(str_key(id));
            }
        }
    }
}

/// Inserting a new id at its sorted position keeps the table valid.
proof fn lemma_rules_insert(rules: Seq<SarifRule>, ds: Seq<DiagnosticView>, k: int, p: int, rule: SarifRule)
    requires
        0 <= k < ds.len(),
        rules_of(rules, ds.take(k)),
        rules_described(rules, ds),
        0 <= p <= rules.len(),
        forall|i: int| 0 <= i < p ==> lex_lt(str_key(#[trigger] rules[i].id@), str_key(rule.id@)),
        p < rules.len() ==> lex_lt(str_key(rule.id@), str_key(rules[p].id@)),
        rule.id@ == ds[k].lint_id,
        rule.text@ == first_message(ds, rule.id@),
    ensures
        rules_of(rules.insert(p, rule), ds.take(k + 1)),
        rules_described(rules.insert(p, rule), ds),
{
    let taken = ds.take(k);
    let next = ds.take(k + 1);
    let nr = rules.insert(p, rule);
    let key = str_key(rule.id@);
    assert forall|i: int, j: int| 0 <= i < j < nr.len() implies lex_lt(
        str_key(#[trigger] nr[i].id@),
        str_key(#[trigger] nr[j].id@),
    ) by {
        if j < p {
        } else if j == p {
        } else if i == p {
            assert(nr[j] == rules[j - 1]);
            if j - 1 > p {
                assert(lex_lt(str_key(rules[p].id@), str_key(rules[j - 1].id@)));
                lemma_lex_transitive(key, str_key(rules[p].id@), str_key(rules[j - 1].id@));
            }
        } else if i < p {
            assert(nr[j] == rules[j - 1]);
            lemma_lex_transitive(str_key(rules[i].id@), key, str_key(rules[p].id@));
            if j - 1 > p {
                assert(lex_lt(str_key(rules[p].id@), str_key(rules[j - 1].id@)));
                lemma_lex_transitive(str_key(rules[i].id@), str_key(rules[p].id@), str_key(rules[j - 1].id@));
            }
        } else {
            assert(nr[i] == rules[i - 1]);
            assert(nr[j] == rules[j - 1]);
        }
    }
    assert forall|i: int| 0 <= i < nr.len() implies (#[trigger] nr[i]).text@ == first_message(ds, nr[i].id@) by {
        if i > p {
            assert(nr[i] == rules[i - 1]);
        }
    }
    assert forall|i: int| 0 <= i < nr.len() implies has_id(next, #[trigger] nr[i].id@) by {
        if i == p {
            assert(next[k].lint_id == nr[i].id@);
        } else {
            let oi = if i < p { i } else { i - 1 };
            assert(nr[i] == rules[oi]);
            assert(has_id(taken, rules[oi].id@));
            let m = choose|m: int| 0 <= m < taken.len() && (#[trigger] taken[m]).lint_id == rules[oi].id@;
            assert(next[m] == taken[m]);
        }
    }
    assert forall|m: int| 0 <= m < next.len() implies has_rule(nr, #[trigger] next[m].lint_id) by {
        if m < k {
            assert(next[m] == taken[m]);
            assert(has_rule(rules, taken[m].lint_id));
            let i = choose|i: int| 0 <= i < rules.len() && (#[trigger] rules[i]).id@ == taken[m].lint_id;
            if i < p {
                assert(nr[i] == rules[i]);
            } else {
                assert(nr[i + 1] == rules[i]);
            }
        } else {
            assert(nr[p].id@ == next[m].lint_id);
        }
    }
}

/// The rules of a SARIF run: one per distinct lint id, sorted, described by the first
/// message reported for it.
pub fn sarif_rules(ds: &Vec<Diagnostic>) -> (r: Vec<SarifRule>)
    ensures
        rules_of(r@, diags_view(ds@)),
        rules_described(r@, diags_view(ds@)),
{
    let ghost dv = diags_view(ds@);
    let mut rules: Vec<SarifRule> = Vec::new();
    let mut keys: Vec<Vec<u32>> = Vec::new();
    let mut k: usize = 0;
    proof {
        assert(dv.take(0) =~= Seq::<DiagnosticView>::empty());
    }
    while k < ds.len()
        invariant
            dv == diags_view(ds@),
            k <= ds@.len(),
            keys@.len() == rules@.len(),
            forall|i: int| 0 <= i < keys@.len() ==> (#[trigger] keys@[i])@ == str_key(rules@[i].id@),
            rules_of(rules@, dv.take(k as int)),
            rules_described(rules@, dv),
        decreases ds@.len() - k,
    {
        let id = &ds[k].lint_id;
        let key = str_key_of(id.as_str());
        let mut p: usize = 0;
        while p < rules.len() && lex_less(&keys[p], &key)
            invariant
                p <= rules@.len(),
                keys@.len() == rules@.len(),
                forall|i: int| 0 <= i < keys@.len() ==> (#[trigger] keys@[i])@ == str_key(rules@[i].id@),
                forall|i: int| 0 <= i < p ==> lex_lt(str_key(#[trigger] rules@[i].id@), key@),
                key@ == str_key(id@),
            decreases rules@.len() - p,
        {
            p = p + 1;
        }
        proof {
            assert(dv[k as int].lint_id == id@);
        }
        let present = p < rules.len() && crate::text::str_eq(rules[p].id.as_str(), id.as_str());
        if present {
            proof {
                lemma_rules_present(rules@, dv, k as int, p as int);
            }
        } else {
            proof {
                lemma_new_id(rules@, dv, k as int, p as int, id@);
                lemma_first_message(dv, id@, k as int);
            }
            let rule = SarifRule { id: id.clone(), text: ds[k].message.clone() };
            proof {
                lemma_rules_insert(rules@, dv, k as int, p as int, rule);
            }
            let ghost old_rules = rules@;
            let ghost old_keys = keys@;
            rules.insert(p, rule);
            keys.insert(p, key);
            proof {
                assert forall|i: int| 0 <= i < keys@.len() implies (#[trigger] keys@[i])@ == str_key(rules@[i].id@) by {
                    if i > p {
                        assert(rules@[i] == old_rules[i - 1]);
                        assert(keys@[i] == old_keys[i - 1]);
                    }
                }
            }
        }
        k = k + 1;
    }
    proof {
        assert(dv.take(ds@.len() as int) =~= dv);
    }
    rules
}

/// The secondary tool component of a run.
#[derive(Debug, Clone)]
pub struct SarifExtension {
    pub name: String,
    pub semantic_version: String,
    pub information_uri: String,
}

/// One result of a run: a diagnostic with the URI of its file.
#[derive(Debug, Clone)]
pub struct SarifResultRecord {
    pub rule_id: String,
    pub level: &'static str,
    pub message: String,
    pub uri: String,
    pub start_line: u32,
    pub start_column: u32,
    pub end_line: u32,
    pub end_column: u32,
}

/// The single run of a SARIF document.
#[derive(Debug, Clone)]
pub struct SarifRun {
    pub driver_name: String,
    pub driver_version: String,
    pub information_uri: String,
    pub rules: Vec<SarifRule>,
    pub extensions: Vec<SarifExtension>,
    pub results: Vec<SarifResultRecord>,
}

/// The result record of diagnostic `d`, whose file has URI `uri`.
pub open spec fn result_matches(r: SarifResultRecord, d: DiagnosticView, uri: Seq<char>) -> bool {
    &&& r.rule_id@ == d.lint_id
    &&& r.level@ == sarif_level(d.severity)
    &&& r.message@ == d.message
    &&& r.uri@ == uri
    &&& r.start_line == d.span.line_start
    &&& r.start_column == d.span.col_start
    &&& r.end_line == d.span.line_end
    &&& r.end_column == d.span.col_end
}

/// A result describes its diagnostic field for field: its region is the diagnostic's
/// span (start line, start column, end line, end column, in that order), its rule is the
/// lint id, and an error stays an error.
pub proof fn lemma_result_region(r: SarifResultRecord, d: DiagnosticView, uri: Seq<char>)
    requires
        result_matches(r, d, uri),
    ensures
        r.start_line == d.span.line_start,
        r.start_column == d.span.col_start,
        r.end_line == d.span.line_end,
        r.end_column == d.span.col_end,
        r.rule_id@ == d.lint_id,
        r.message@ == d.message,
        r.uri@ == uri,
        (r.level@ == "error"@) <==> (d.severity == Severity::Error),
{
    reveal_strlit("error");
    reveal_strlit("warning");
    reveal_strlit("note");
    assert("error"@.len() == 5 && "warning"@.len() == 7 && "note"@.len() == 4);
}

/// The run for `ds`, the file of `ds[i]` having URI `uris[i]`: the driver with its rules,
/// one extension named `<driver>-lints`, and one result per diagnostic, in order.
pub fn sarif_run(
    driver_name: &str,
    driver_version: &str,
    information_uri: &str,
    ds: &Vec<Diagnostic>,
    uris: &Vec<String>,
) -> (r: SarifRun)
    requires
        uris@.len() == ds@.len(),
    ensures
        r.driver_name@ == driver_name@,
        r.driver_version@ == driver_version@,
        r.information_uri@ == information_uri@,
        rules_of(r.rules@, diags_view(ds@)),
        rules_described(r.rules@, diags_view(ds@)),
        r.extensions@.len() == 1,
        r.extensions@[0].name@ == driver_name@ + "-lints"@,
        r.extensions@[0].semantic_version@ == driver_version@,
        r.extensions@[0].information_uri@ == information_uri@,
        r.results@.len() == ds@.len(),
        forall|i: int| 0 <= i < ds@.len() ==> result_matches(#[trigger] r.results@[i], ds@[i]@, uris@[i]@),
        forall|i: int|
            0 <= i < ds@.len() ==> {
                &&& (#[trigger] r.results@[i]).start_line == ds@[i].span.line_start
                &&& r.results@[i].start_column == ds@[i].span.col_start
                &&& r.results@[i].end_line == ds@[i].span.line_end
                &&& r.results@[i].end_column == ds@[i].span.col_end
                &&& r.results@[i].rule_id@ == ds@[i].lint_id@
                &&& r.results@[i].message@ == ds@[i].message@
                &&& r.results@[i].uri@ == uris@[i]@
            },
{
    let mut ext_name = driver_name.to_string();
    ext_name.append("-lints");
    let mut extensions: Vec<SarifExtension> = Vec::new();
    extensions.push(SarifExtension {
        name: ext_name,
        semantic_version: driver_version.to_string(),
        information_uri: information_uri.to_string(),
    });
    let rules = sarif_rules(ds);
    let mut results: Vec<SarifResultRecord> = Vec::new();
    let mut i: usize = 0;
    while i < ds.len()
        invariant
            uris@.len() == ds@.len(),
            i <= ds@.len(),
            results@.len() == i,
            forall|j: int| 0 <= j < i ==> result_matches(#[trigger] results@[j], ds@[j]@, uris@[j]@),
        decreases ds@.len() - i,
    {
        let d = &ds[i];
        results.push(SarifResultRecord {
            rule_id: d.lint_id.clone(),
            level: severity_to_sarif_level(d.severity),
            message: d.message.clone(),
            uri: uris[i].clone(),
            start_line: d.span.line_start,
            start_column: d.span.col_start,
            end_line: d.span.line_end,
            end_column: d.span.col_end,
        });
        i = i + 1;
    }
    proof {
        assert forall|i: int| 0 <= i < ds@.len() implies {
            &&& (#[trigger] results@[i]).start_line == ds@[i].span.line_start
            &&& results@[i].start_column == ds@[i].span.col_start
            &&& results@[i].end_line == ds@[i].span.line_end
            &&& results@[i].end_column == ds@[i].span.col_end
            &&& results@[i].rule_id@ == ds@[i].lint_id@
            &&& results@[i].message@ == ds@[i].message@
            &&& results@[i].uri@ == uris@[i]@
        } by {
            lemma_result_region(results@[i], ds@[i]@, uris@[i]@);
        }
    }
    SarifRun {
        driver_name: driver_name.to_string(),
        driver_version: driver_version.to_string(),
        information_uri: information_uri.to_string(),
        rules,
        extensions,
        results,
    }
}

} // verus!
