//! Lints on `Move.toml` and the opt-in edition fix.
use vstd::prelude::*;
use vstd::utf8::encode_utf8;
use vstd::string::{StringExecFns, StringSliceAdditionalSpecFns};

use crate::chars::{chars_of, range_eq, trim, trim_bounds};
use crate::config::SuiClippyConfig;
use crate::diagnostic::{diag_spec, diags_view, span_spec, Diagnostic, DiagnosticView, Severity, Span};
use crate::lint_engine::{finalize_all, push_finalized, LintRunOptions};
use crate::lint_meta::{LintCategory, LintDef};
use crate::lints::text_lines;
use crate::seq_util::{concat_all, filter_some, lemma_concat_all_take, lemma_filter_some_take};
use crate::source_file::str_lines;
use crate::text::{contains_bytes, find_bytes, opt_int};
pub mod fix;
pub mod git_dep_unpinned;
pub mod missing_move_edition;
pub mod wildcard_git_ref;

use crate::toml_model::{
    entries_get, entries_lookup, get_str, get_table, lemma_entries_len, lemma_entries_view_index,
    opt_toml_view, parse_toml, toml_document, toml_entries_view, toml_get, toml_view, value_get,
    TomlError, TomlSpec, TomlValue,
};

verus! {

pub const MISSING_MOVE_EDITION_ID: &'static str = "missing_move_edition";

pub const MISSING_MOVE_EDITION_DOC: &'static str = "Move.toml [package] should declare an `edition` (for example Move 2024) for consistent tooling and language behavior.";

pub const GIT_DEP_UNPINNED_ID: &'static str = "git_dep_unpinned";

pub const GIT_DEP_UNPINNED_DOC: &'static str = "Git dependencies without `rev`, `branch`, or `tag` are not reproducible builds.";

pub const WILDCARD_GIT_REF_ID: &'static str = "wildcard_git_ref";

pub const WILDCARD_GIT_REF_DOC: &'static str = "Wildcard `rev` or `branch` on a git dependency is almost never intended for production.";

pub fn missing_move_edition_lint() -> (d: LintDef)
    ensures
        d.id == MISSING_MOVE_EDITION_ID,
        d.category == LintCategory::Style,
        d.doc == MISSING_MOVE_EDITION_DOC,
{
    LintDef { id: MISSING_MOVE_EDITION_ID, category: LintCategory::Style, doc: MISSING_MOVE_EDITION_DOC }
}

pub fn git_dep_unpinned_lint() -> (d: LintDef)
    ensures
        d.id == GIT_DEP_UNPINNED_ID,
        d.category == LintCategory::Suspicious,
        d.doc == GIT_DEP_UNPINNED_DOC,
{
    LintDef { id: GIT_DEP_UNPINNED_ID, category: LintCategory::Suspicious, doc: GIT_DEP_UNPINNED_DOC }
}

pub fn wildcard_git_ref_lint() -> (d: LintDef)
    ensures
        d.id == WILDCARD_GIT_REF_ID,
        d.category == LintCategory::Correctness,
        d.doc == WILDCARD_GIT_REF_DOC,
{
    LintDef { id: WILDCARD_GIT_REF_ID, category: LintCategory::Correctness, doc: WILDCARD_GIT_REF_DOC }
}

/// Metadata of the manifest checks, in the order they run.
pub open spec fn manifest_defs() -> Seq<LintDef> {
    seq![
        LintDef { id: MISSING_MOVE_EDITION_ID, category: LintCategory::Style, doc: MISSING_MOVE_EDITION_DOC },
        LintDef { id: GIT_DEP_UNPINNED_ID, category: LintCategory::Suspicious, doc: GIT_DEP_UNPINNED_DOC },
        LintDef { id: WILDCARD_GIT_REF_ID, category: LintCategory::Correctness, doc: WILDCARD_GIT_REF_DOC },
    ]
}

pub fn manifest_lint_defs() -> (r: Vec<LintDef>)
    ensures
        r@ == manifest_defs(),
{
    let r = vec![missing_move_edition_lint(), git_dep_unpinned_lint(), wildcard_git_ref_lint()];
    proof {
        assert(r@ =~= manifest_defs());
    }
    r
}

/// 1-based number of the first line of `text` containing `needle`.
pub open spec fn first_line_with(text: Seq<char>, needle: Seq<char>) -> Option<int> {
    first_line_with_from(text_lines(text), encode_utf8(needle), 0)
}

pub open spec fn first_line_with_from(lines: Seq<Seq<char>>, needle: Seq<u8>, k: int) -> Option<int>
    decreases lines.len() - k,
{
    if k < 0 || k >= lines.len() {
        None
    } else if contains_bytes(encode_utf8(lines[k]), needle) {
        Some(k + 1)
    } else {
        first_line_with_from(lines, needle, k + 1)
    }
}

/// The first (1-based) line containing `needle`.
pub fn first_line_containing(raw: &str, needle: &str) -> (r: Option<u32>)
    requires
        raw.spec_bytes().len() < u32::MAX,
    ensures
        match r {
            Some(n) => first_line_with(raw@, needle@) == Some(n as int),
            None => first_line_with(raw@, needle@) is None,
        },
{
    let lines = str_lines(raw);
    let nb = needle.as_bytes();
    let ghost ls = text_lines(raw@);
    let mut k: usize = 0;
    while k < lines.len()
        invariant
            lines@.len() == ls.len(),
            ls == text_lines(raw@),
            lines@.len() < u32::MAX,
            nb@ == encode_utf8(needle@),
            forall|j: int| 0 <= j < lines@.len() ==> (#[trigger] lines@[j])@ == ls[j],
            k <= lines@.len(),
            first_line_with_from(ls, nb@, k as int) == first_line_with(raw@, needle@),
        decreases lines@.len() - k,
    {
        let hit = find_bytes(lines[k].as_bytes(), nb);
        if hit.is_some() {
            return Some(k as u32 + 1);
        }
        k = k + 1;
    }
    None
}

/// The (1-based) line of the `[table]` header.
pub fn line_of_table_header(raw: &str, table: &str) -> (r: Option<u32>)
    requires
        raw.spec_bytes().len() < u32::MAX,
    ensures
        match r {
            Some(n) => first_line_with(raw@, "["@ + table@ + "]"@) == Some(n as int),
            None => first_line_with(raw@, "["@ + table@ + "]"@) is None,
        },
{
    let mut header = String::from_str("[");
    header.append(table);
    header.append("]");
    first_line_containing(raw, header.as_str())
}

/// The table has an entry named `key`.
pub open spec fn has_key(t: Seq<(Seq<char>, TomlSpec)>, key: Seq<char>) -> bool {
    entries_get(t, key) is Some
}

/// The dependency sections that can hold git dependencies, in scan order.
pub open spec fn dep_sections() -> Seq<Seq<char>> {
    seq!["dependencies"@, "dev-dependencies"@, "build-dependencies"@]
}

/// A dependency declared as an inline table with a `git` key: (section, name, table).
pub open spec fn git_dep_of(sec: Seq<char>, entry: (Seq<char>, TomlSpec)) -> Option<(Seq<char>, Seq<char>, Seq<(Seq<char>, TomlSpec)>)> {
    match entry.1 {
        TomlSpec::Table(t) => if has_key(t, "git"@) {
            Some((sec, entry.0, t))
        } else {
            None
        },
        _ => None,
    }
}

/// The git dependencies of one section, in table order.
pub open spec fn section_git_deps(root: TomlSpec, sec: Seq<char>) -> Seq<(Seq<char>, Seq<char>, Seq<(Seq<char>, TomlSpec)>)> {
    match get_table(root, sec) {
        Some(deps) => filter_some(deps.map_values(|e: (Seq<char>, TomlSpec)| git_dep_of(sec, e))),
        None => seq![],
    }
}

/// All git dependencies: section by section (`dependencies`, `dev-dependencies`,
/// `build-dependencies`), in each section's table order.
pub open spec fn git_deps(root: TomlSpec) -> Seq<(Seq<char>, Seq<char>, Seq<(Seq<char>, TomlSpec)>)> {
    concat_all(dep_sections().map_values(|sec: Seq<char>| section_git_deps(root, sec)))
}


pub open spec fn dep_list_view(s: Seq<(&'static str, String, &Vec<(String, TomlValue)>)>) -> Seq<(Seq<char>, Seq<char>, Seq<(Seq<char>, TomlSpec)>)> {
    s.map_values(|x: (&'static str, String, &Vec<(String, TomlValue)>)| (x.0@, x.1@, toml_entries_view(x.2@)))
}

fn push_section_deps<'a>(
    root: &'a TomlValue,
    sec: &'static str,
    out: &mut Vec<(&'static str, String, &'a Vec<(String, TomlValue)>)>,
)
    ensures
        dep_list_view(final(out)@) == dep_list_view(old(out)@) + section_git_deps(toml_view(*root), sec@),
{
    let ghost start = dep_list_view(out@);
    match value_get(root, sec) {
        Some(TomlValue::Table(deps)) => {
            let ghost es = toml_entries_view(deps@);
            let ghost all = es.map_values(|e: (Seq<char>, TomlSpec)| git_dep_of(sec@, e));
            proof {
                lemma_entries_len(deps@);
                assert(section_git_deps(toml_view(*root), sec@) == filter_some(all));
            }
            let mut i: usize = 0;
            while i < deps.len()
                invariant
                    es == toml_entries_view(deps@),
                    es.len() == deps@.len(),
                    all == es.map_values(|e: (Seq<char>, TomlSpec)| git_dep_of(sec@, e)),
                    i <= deps@.len(),
                    dep_list_view(out@) == start + filter_some(all.take(i as int)),
                decreases deps@.len() - i,
            {
                proof {
                    lemma_entries_view_index(deps@, i as int);
                    lemma_filter_some_take(all, i as int);
                }
                let ghost before = dep_list_view(out@);
                match &deps[i].1 {
                    TomlValue::Table(t) => {
                        if entries_lookup(t, "git").is_some() {
                            out.push((sec, deps[i].0.clone(), t));
                            proof {
                                assert(dep_list_view(out@) =~= before + seq![(sec@, deps@[i as int].0@, toml_entries_view(t@))]);
                            }
                        }
                    },
                    _ => {},
                }
                i = i + 1;
                proof {
                    assert(dep_list_view(out@) =~= start + filter_some(all.take(i as int)));
                }
            }
            proof {
                assert(all.take(deps@.len() as int) =~= all);
            }
        },
        _ => {
            proof {
                assert(dep_list_view(out@) =~= start + seq![]);
            }
        },
    }
}

/// Yields `(section_name, dep_name, dep_inline_table)` for entries that declare `git`.
pub fn each_git_dep_table(root: &TomlValue) -> (r: Vec<(&'static str, String, &Vec<(String, TomlValue)>)>)
    ensures
        dep_list_view(r@) == git_deps(toml_view(*root)),
{
    let mut out: Vec<(&'static str, String, &Vec<(String, TomlValue)>)> = Vec::new();
    let ghost parts = dep_sections().map_values(|sec: Seq<char>| section_git_deps(toml_view(*root), sec));
    proof {
        assert(dep_list_view(out@) =~= concat_all(parts.take(0)));
    }
    push_section_deps(root, "dependencies", &mut out);
    proof {
        lemma_concat_all_take(parts, 0);
    }
    push_section_deps(root, "dev-dependencies", &mut out);
    proof {
        lemma_concat_all_take(parts, 1);
    }
    push_section_deps(root, "build-dependencies", &mut out);
    proof {
        lemma_concat_all_take(parts, 2);
        assert(parts.take(3) =~= parts);
    }
    out
}


/// The resolved diagnostics of the manifest checks for a parsed `Move.toml`:
/// missing edition, then unpinned git dependencies, then wildcard git refs.
pub open spec fn manifest_report(
    path: Seq<char>,
    text: Seq<char>,
    root: TomlSpec,
    config_levels: Map<Seq<char>, crate::lint_meta::LintLevel>,
    cli: Map<Seq<char>, crate::lint_meta::LintLevel>,
    include_allowed: bool,
) -> Seq<DiagnosticView> {
    finalize_all(
        missing_move_edition::missing_edition_diags(path, text, root),
        manifest_defs()[0],
        config_levels,
        cli,
        include_allowed,
    ) + finalize_all(
        git_dep_unpinned::unpinned_diags(path, text, root),
        manifest_defs()[1],
        config_levels,
        cli,
        include_allowed,
    ) + finalize_all(
        wildcard_git_ref::wildcard_diags(path, text, root),
        manifest_defs()[2],
        config_levels,
        cli,
        include_allowed,
    )
}

/// Parse `Move.toml` and run the manifest-only lints.
pub fn run_manifest_lints(
    move_toml_path: &str,
    raw: &str,
    config: &SuiClippyConfig,
    options: &LintRunOptions,
) -> (r: Result<Vec<Diagnostic>, TomlError>)
    requires
        raw.spec_bytes().len() < u32::MAX,
    ensures
        r is Ok <==> toml_document(raw@) is Some,
        r matches Ok(ds) ==> diags_view(ds@) == manifest_report(
            move_toml_path@,
            raw@,
            toml_document(raw@).unwrap(),
            config.lint_levels@,
            options.cli_overrides@,
            options.include_allowed,
        ),
{
    let value = match parse_toml(raw) {
        Ok(v) => v,
        Err(e) => {
            return Err(e);
        },
    };
    let mut out: Vec<Diagnostic> = Vec::new();
    push_finalized(
        missing_move_edition::check(move_toml_path, raw, &value),
        missing_move_edition_lint(),
        config,
        options,
        &mut out,
    );
    push_finalized(
        git_dep_unpinned::check(move_toml_path, raw, &value),
        git_dep_unpinned_lint(),
        config,
        options,
        &mut out,
    );
    push_finalized(
        wildcard_git_ref::check(move_toml_path, raw, &value),
        wildcard_git_ref_lint(),
        config,
        options,
        &mut out,
    );
    proof {
        assert(diags_view(out@) =~= manifest_report(
            move_toml_path@,
            raw@,
            toml_view(value),
            config.lint_levels@,
            options.cli_overrides@,
            options.include_allowed,
        ));
    }
    Ok(out)
}

} // verus!
