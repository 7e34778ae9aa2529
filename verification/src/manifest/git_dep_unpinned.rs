use vstd::prelude::*;
use vstd::string::{StringExecFns, StringSliceAdditionalSpecFns};

use crate::diagnostic::{diag_spec, diags_view, span_spec, Diagnostic, DiagnosticView, Severity, Span};
use crate::manifest::{dep_list_view, each_git_dep_table, first_line_containing, first_line_with, git_deps, has_key, GIT_DEP_UNPINNED_ID};
use crate::seq_util::{filter_some, lemma_filter_some_members, lemma_filter_some_take};
use crate::toml_model::{entries_lookup, toml_entries_view, toml_view, TomlSpec, TomlValue};

verus! {

/// A git dependency without `local`, `rev`, `branch` or `tag` is reported at the
/// first line mentioning `name =` (line 1 when none does).
pub open spec fn unpinned_diag(
    path: Seq<char>,
    text: Seq<char>,
    dep: (Seq<char>, Seq<char>, Seq<(Seq<char>, TomlSpec)>),
) -> Option<DiagnosticView> {
    let (sec, name, t) = dep;
    if has_key(t, "local"@) || has_key(t, "rev"@) || has_key(t, "branch"@) || has_key(t, "tag"@) {
        None
    } else {
        let line = match first_line_with(text, name + " ="@) {
            Some(n) => n,
            None => 1,
        };
        Some(
            diag_spec(
                GIT_DEP_UNPINNED_ID@,
                "unpinned git dependency `"@ + name + "` in ["@ + sec + "]"@,
                Severity::Warning,
                span_spec(path, line as u32, line as u32, 1, 1),
            ),
        )
    }
}

pub open spec fn unpinned_diags(path: Seq<char>, text: Seq<char>, root: TomlSpec) -> Seq<DiagnosticView> {
    filter_some(
        git_deps(root).map_values(
            |d: (Seq<char>, Seq<char>, Seq<(Seq<char>, TomlSpec)>)| unpinned_diag(path, text, d),
        ),
    )
}

/// Git dependencies without `rev`, `branch`, or `tag` (and not `local`).
pub fn check(move_toml_path: &str, raw: &str, value: &TomlValue) -> (r: Vec<Diagnostic>)
    requires
        raw.spec_bytes().len() < u32::MAX,
    ensures
        diags_view(r@) == unpinned_diags(move_toml_path@, raw@, toml_view(*value)),
{
    let deps = each_git_dep_table(value);
    let ghost dv = dep_list_view(deps@);
    let ghost all = dv.map_values(
        |d: (Seq<char>, Seq<char>, Seq<(Seq<char>, TomlSpec)>)| unpinned_diag(move_toml_path@, raw@, d),
    );
    let mut out: Vec<Diagnostic> = Vec::new();
    let mut i: usize = 0;
    while i < deps.len()
        invariant
            dv == dep_list_view(deps@),
            dv == git_deps(toml_view(*value)),
            all == dv.map_values(
                |d: (Seq<char>, Seq<char>, Seq<(Seq<char>, TomlSpec)>)| unpinned_diag(move_toml_path@, raw@, d),
            ),
            raw.spec_bytes().len() < u32::MAX,
            i <= deps@.len(),
            diags_view(out@) == filter_some(all.take(i as int)),
        decreases deps@.len() - i,
    {
        proof {
            lemma_filter_some_take(all, i as int);
        }
        let (section, dep_name, tbl) = (deps[i].0, &deps[i].1, deps[i].2);
        let ghost before = diags_view(out@);
        proof {
            assert(dv[i as int] == (section@, dep_name@, toml_entries_view(tbl@)));
        }
        let skip = entries_lookup(tbl, "local").is_some() || entries_lookup(tbl, "rev").is_some()
            || entries_lookup(tbl, "branch").is_some() || entries_lookup(tbl, "tag").is_some();
        if !skip {
            let mut needle = dep_name.clone();
            needle.append(" =");
            let line = match first_line_containing(raw, needle.as_str()) {
                Some(n) => n,
                None => 1,
            };
            let mut message = String::from_str("unpinned git dependency `");
            message.append(dep_name.as_str());
            message.append("` in [");
            message.append(section);
            message.append("]");
            let d = Diagnostic::new(
                GIT_DEP_UNPINNED_ID,
                message.as_str(),
                Severity::Warning,
                Span {
                    path: move_toml_path.to_string(),
                    line_start: line,
                    line_end: line,
                    col_start: 1,
                    col_end: 1,
                },
            );
            out.push(d);
            proof {
                assert(message@ =~= "unpinned git dependency `"@ + dep_name@ + "` in ["@ + section@ + "]"@);
                assert(diags_view(out@) =~= before + seq![d@]);
            }
        }
        i = i + 1;
        proof {
            assert(diags_view(out@) =~= filter_some(all.take(i as int)));
        }
    }
    proof {
        assert(all.take(deps@.len() as int) =~= all);
    }
    out
}

/// The message that reports dependency `name` of section `sec` as unpinned.
pub open spec fn unpinned_message(sec: Seq<char>, name: Seq<char>) -> Seq<char> {
    "unpinned git dependency `"@ + name + "` in ["@ + sec + "]"@
}

/// A git dependency is reported exactly when its table has none of `local`, `rev`,
/// `branch` and `tag`: every diagnostic of the lint names such a dependency of the
/// manifest, at the file's path, and every such dependency is named by one.
pub proof fn lemma_unpinned_exactly(path: Seq<char>, text: Seq<char>, root: TomlSpec)
    ensures
        forall|k: int|
            0 <= k < unpinned_diags(path, text, root).len() ==> exists|i: int|
                #![trigger git_deps(root)[i]]
                0 <= i < git_deps(root).len() && {
                    let (sec, name, t) = git_deps(root)[i];
                    let d = #[trigger] unpinned_diags(path, text, root)[k];
                    &&& !has_key(t, "local"@) && !has_key(t, "rev"@)
                    &&& !has_key(t, "branch"@) && !has_key(t, "tag"@)
                    &&& d.lint_id == GIT_DEP_UNPINNED_ID@
                    &&& d.message == unpinned_message(sec, name)
                    &&& d.span.path == path
                    &&& d.severity == Severity::Warning
                    &&& d.span.line_start == d.span.line_end
                    &&& d.span.line_start == (match first_line_with(text, name + " ="@) {
                        Some(n) => n,
                        None => 1,
                    }) as u32
                },
        forall|i: int|
            0 <= i < git_deps(root).len() && !has_key((#[trigger] git_deps(root)[i]).2, "local"@) && !has_key(
                git_deps(root)[i].2,
                "rev"@,
            ) && !has_key(git_deps(root)[i].2, "branch"@) && !has_key(git_deps(root)[i].2, "tag"@) ==> exists|
                k: int,
            |
                0 <= k < unpinned_diags(path, text, root).len() && (#[trigger] unpinned_diags(path, text, root)[k]).message
                    == unpinned_message(git_deps(root)[i].0, git_deps(root)[i].1),
{
    let deps = git_deps(root);
    let s = deps.map_values(
        |d: (Seq<char>, Seq<char>, Seq<(Seq<char>, TomlSpec)>)| unpinned_diag(path, text, d),
    );
    lemma_filter_some_members(s);
    assert(unpinned_diags(path, text, root) == filter_some(s));
    assert forall|k: int| 0 <= k < unpinned_diags(path, text, root).len() implies exists|i: int|
        #![trigger deps[i]]
        0 <= i < deps.len() && {
            let (sec, name, t) = deps[i];
            let d = #[trigger] unpinned_diags(path, text, root)[k];
            &&& !has_key(t, "local"@) && !has_key(t, "rev"@)
            &&& !has_key(t, "branch"@) && !has_key(t, "tag"@)
            &&& d.lint_id == GIT_DEP_UNPINNED_ID@
            &&& d.message == unpinned_message(sec, name)
            &&& d.span.path == path
            &&& d.severity == Severity::Warning
            &&& d.span.line_start == d.span.line_end
            &&& d.span.line_start == (match first_line_with(text, name + " ="@) {
                Some(n) => n,
                None => 1,
            }) as u32
        } by {
        let f = filter_some(s);
        let i = choose|i: int| 0 <= i < s.len() && s[i] == Some(f[k]);
        assert(s[i] == unpinned_diag(path, text, deps[i]));
    }
    assert forall|i: int|
        0 <= i < deps.len() && !has_key((#[trigger] deps[i]).2, "local"@) && !has_key(deps[i].2, "rev"@)
            && !has_key(deps[i].2, "branch"@) && !has_key(deps[i].2, "tag"@) implies exists|k: int|
        0 <= k < unpinned_diags(path, text, root).len() && (#[trigger] unpinned_diags(path, text, root)[k]).message
            == unpinned_message(deps[i].0, deps[i].1) by {
        assert(s[i] == unpinned_diag(path, text, deps[i]));
        assert(s[i] is Some);
        let f = filter_some(s);
        let k = choose|k: int| 0 <= k < f.len() && Some(f[k]) == s[i];
        assert(f[k].message == unpinned_message(deps[i].0, deps[i].1));
    }
}

} // verus!
