use vstd::prelude::*;
use vstd::string::{StringExecFns, StringSliceAdditionalSpecFns};

use crate::chars::{chars_of, range_eq, trim, trim_bounds};
use crate::diagnostic::{diag_spec, diags_view, span_spec, Diagnostic, DiagnosticView, Severity, Span};
use crate::manifest::{dep_list_view, each_git_dep_table, first_line_containing, first_line_with, git_deps, WILDCARD_GIT_REF_ID};
use crate::seq_util::{filter_some, lemma_filter_some_members, lemma_filter_some_take};
use crate::toml_model::{entries_get, entries_lookup, toml_entries_view, toml_view, opt_toml_view, TomlSpec, TomlValue};

verus! {

/// The string value of entry `key`, if it is a string.
pub open spec fn entry_str(t: Seq<(Seq<char>, TomlSpec)>, key: Seq<char>) -> Option<Seq<char>> {
    match entries_get(t, key) {
        Some(TomlSpec::Str(s)) => Some(s),
        _ => None,
    }
}

/// A string value that is `*` once surrounding whitespace is trimmed.
pub open spec fn is_wildcard(v: Option<Seq<char>>) -> bool {
    match v {
        Some(s) => trim(s) == seq!['*'],
        None => false,
    }
}

/// A git dependency whose `rev` or `branch` is the wildcard `*` is reported at the first
/// line mentioning `name =` (line 1 when none does).
pub open spec fn wildcard_diag(
    path: Seq<char>,
    text: Seq<char>,
    dep: (Seq<char>, Seq<char>, Seq<(Seq<char>, TomlSpec)>),
) -> Option<DiagnosticView> {
    let (sec, name, t) = dep;
    if !is_wildcard(entry_str(t, "rev"@)) && !is_wildcard(entry_str(t, "branch"@)) {
        None
    } else {
        let line = match first_line_with(text, name + " ="@) {
            Some(n) => n,
            None => 1,
        };
        Some(
            diag_spec(
                WILDCARD_GIT_REF_ID@,
                "git dependency `"@ + name + "` in ["@ + sec + "] uses a wildcard ref"@,
                Severity::Warning,
                span_spec(path, line as u32, line as u32, 1, 1),
            ),
        )
    }
}

pub open spec fn wildcard_diags(path: Seq<char>, text: Seq<char>, root: TomlSpec) -> Seq<DiagnosticView> {
    filter_some(
        git_deps(root).map_values(
            |d: (Seq<char>, Seq<char>, Seq<(Seq<char>, TomlSpec)>)| wildcard_diag(path, text, d),
        ),
    )
}

/// `s.trim() == "*"`.
fn is_star(s: &str) -> (r: bool)
    ensures
        r == (trim(s@) == seq!['*']),
{
    let cs = chars_of(s);
    let (a, b) = trim_bounds(&cs);
    let star = vec!['*'];
    proof {
        assert(star@ =~= seq!['*']);
    }
    range_eq(&cs, a, b, &star)
}

/// Whether entry `key` of the table is a string that trims to `*`.
fn entry_is_wildcard(t: &Vec<(String, TomlValue)>, key: &str) -> (r: bool)
    ensures
        r == is_wildcard(entry_str(toml_entries_view(t@), key@)),
{
    match entries_lookup(t, key) {
        Some(TomlValue::Str(s)) => is_star(s.as_str()),
        _ => false,
    }
}

/// Git dependencies whose `rev` or `branch` is `*`.
pub fn check(move_toml_path: &str, raw: &str, value: &TomlValue) -> (r: Vec<Diagnostic>)
    requires
        raw.spec_bytes().len() < u32::MAX,
    ensures
        diags_view(r@) == wildcard_diags(move_toml_path@, raw@, toml_view(*value)),
{
    let deps = each_git_dep_table(value);
    let ghost dv = dep_list_view(deps@);
    let ghost all = dv.map_values(
        |d: (Seq<char>, Seq<char>, Seq<(Seq<char>, TomlSpec)>)| wildcard_diag(move_toml_path@, raw@, d),
    );
    let mut out: Vec<Diagnostic> = Vec::new();
    let mut i: usize = 0;
    while i < deps.len()
        invariant
            dv == dep_list_view(deps@),
            dv == git_deps(toml_view(*value)),
            all == dv.map_values(
                |d: (Seq<char>, Seq<char>, Seq<(Seq<char>, TomlSpec)>)| wildcard_diag(move_toml_path@, raw@, d),
            ),
            raw.spec_bytes().len() < u32::MAX,
            i <= deps@.len(),
            diags_view(out@) == filter_some(all.take(i as int)),
        decreases deps@.len() - i,
    {
        proof {
            lemma_filter_some_take(all, i as int);
        }
        let (section, dep_name, tbl) = (deps[i].0, &deps[i].1, deps[i].2);
        let ghost before = diags_view(out@);
        proof {
            assert(dv[i as int] == (section@, dep_name@, toml_entries_view(tbl@)));
        }
        let bad_rev = entry_is_wildcard(tbl, "rev");
        let bad_branch = entry_is_wildcard(tbl, "branch");
        if bad_rev || bad_branch {
            let mut needle = dep_name.clone();
            needle.append(" =");
            let line = match first_line_containing(raw, needle.as_str()) {
                Some(n) => n,
                None => 1,
            };
            let mut message = String::from_str("git dependency `");
            message.append(dep_name.as_str());
            message.append("` in [");
            message.append(section);
            message.append("] uses a wildcard ref");
            let d = Diagnostic::new(
                WILDCARD_GIT_REF_ID,
                message.as_str(),
                Severity::Warning,
                Span {
                    path: move_toml_path.to_string(),
                    line_start: line,
                    line_end: line,
                    col_start: 1,
                    col_end: 1,
                },
            );
            out.push(d);
            proof {
                assert(message@ =~= "git dependency `"@ + dep_name@ + "` in ["@ + section@
                    + "] uses a wildcard ref"@);
                assert(diags_view(out@) =~= before + seq![d@]);
            }
        }
        i = i + 1;
        proof {
            assert(diags_view(out@) =~= filter_some(all.take(i as int)));
        }
    }
    proof {
        assert(all.take(deps@.len() as int) =~= all);
    }
    out
}

/// The message that reports dependency `name` of section `sec` as using a wildcard ref.
pub open spec fn wildcard_message(sec: Seq<char>, name: Seq<char>) -> Seq<char> {
    "git dependency `"@ + name + "` in ["@ + sec + "] uses a wildcard ref"@
}

/// A git dependency is reported exactly when its `rev` or its `branch` (either one,
/// whatever the other holds) is the string `*` up to surrounding whitespace: every
/// diagnostic of the lint names such a dependency, and every such dependency is named.
pub proof fn lemma_wildcard_exactly(path: Seq<char>, text: Seq<char>, root: TomlSpec)
    ensures
        forall|k: int|
            0 <= k < wildcard_diags(path, text, root).len() ==> exists|i: int|
                #![trigger git_deps(root)[i]]
                0 <= i < git_deps(root).len() && {
                    let (sec, name, t) = git_deps(root)[i];
                    let d = #[trigger] wildcard_diags(path, text, root)[k];
                    &&& is_wildcard(entry_str(t, "rev"@)) || is_wildcard(entry_str(t, "branch"@))
                    &&& d.lint_id == WILDCARD_GIT_REF_ID@
                    &&& d.message == wildcard_message(sec, name)
                    &&& d.span.path == path
                    &&& d.severity == Severity::Warning
                    &&& d.span.line_start == d.span.line_end
                    &&& d.span.line_start == (match first_line_with(text, name + " ="@) {
                        Some(n) => n,
                        None => 1,
                    }) as u32
                },
        forall|i: int|
            0 <= i < git_deps(root).len() && is_wildcard(entry_str((#[trigger] git_deps(root)[i]).2, "branch"@))
                ==> exists|k: int|
                0 <= k < wildcard_diags(path, text, root).len() && (#[trigger] wildcard_diags(path, text, root)[k]).message
                    == wildcard_message(git_deps(root)[i].0, git_deps(root)[i].1),
        forall|i: int|
            0 <= i < git_deps(root).len() && is_wildcard(entry_str((#[trigger] git_deps(root)[i]).2, "rev"@))
                ==> exists|k: int|
                0 <= k < wildcard_diags(path, text, root).len() && (#[trigger] wildcard_diags(path, text, root)[k]).message
                    == wildcard_message(git_deps(root)[i].0, git_deps(root)[i].1),
{
    let deps = git_deps(root);
    let s = deps.map_values(
        |d: (Seq<char>, Seq<char>, Seq<(Seq<char>, TomlSpec)>)| wildcard_diag(path, text, d),
    );
    lemma_filter_some_members(s);
    assert(wildcard_diags(path, text, root) == filter_some(s));
    let f = filter_some(s);
    assert forall|k: int| 0 <= k < f.len() implies exists|i: int|
        #![trigger deps[i]]
        0 <= i < deps.len() && {
            let (sec, name, t) = deps[i];
            let d = #[trigger] f[k];
            &&& is_wildcard(entry_str(t, "rev"@)) || is_wildcard(entry_str(t, "branch"@))
            &&& d.lint_id == WILDCARD_GIT_REF_ID@
            &&& d.message == wildcard_message(sec, name)
            &&& d.span.path == path
            &&& d.severity == Severity::Warning
            &&& d.span.line_start == d.span.line_end
            &&& d.span.line_start == (match first_line_with(text, name + " ="@) {
                Some(n) => n,
                None => 1,
            }) as u32
        } by {
        let i = choose|i: int| 0 <= i < s.len() && s[i] == Some(f[k]);
        assert(s[i] == wildcard_diag(path, text, deps[i]));
    }
    assert forall|i: int|
        0 <= i < deps.len() && (is_wildcard(entry_str((#[trigger] deps[i]).2, "branch"@)) || is_wildcard(
            entry_str(deps[i].2, "rev"@),
        )) implies exists|k: int| 0 <= k < f.len() && (#[trigger] f[k]).message == wildcard_message(deps[i].0, deps[i].1) by {
        assert(s[i] == wildcard_diag(path, text, deps[i]));
        assert(s[i] is Some);
        let k = choose|k: int| 0 <= k < f.len() && Some(f[k]) == s[i];
        assert(f[k].message == wildcard_message(deps[i].0, deps[i].1));
    }
}

} // verus!
