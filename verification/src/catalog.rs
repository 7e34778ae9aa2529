//! The lint catalog: every declared lint with its category and default level.
use vstd::prelude::*;
use vstd::string::StringExecFns;

use crate::lint_engine::{all_source_lint_defs, source_passes};
use crate::lint_meta::{category_default_level, LintCategory, LintDef, LintLevel};
use crate::lints::{bare_abort, clock_timestamp, dynamic_field_access, empty_public_entry, public_fun_transfer, test_only_in_sources, todo_comment, tx_context_sender, SourceLintPass};
use crate::manifest::{manifest_defs, manifest_lint_defs};

verus! {

/// All lint definitions: the source passes in pass order, then the manifest checks.
pub open spec fn all_defs() -> Seq<LintDef> {
    source_passes().map_values(|p: crate::lint_engine::SourcePass| p.spec_lint_def()) + manifest_defs()
}

/// All lint definitions (source passes + manifest checks).
pub fn all_lint_defs() -> (r: Vec<LintDef>)
    ensures
        r@ == all_defs(),
{
    let mut r = all_source_lint_defs();
    let mut m = manifest_lint_defs();
    r.append(&mut m);
    r
}

/// Every lint has its own id.
pub proof fn lemma_lint_ids_distinct()
    ensures
        forall|i: int, j: int|
            0 <= i < j < all_defs().len() ==> (#[trigger] all_defs()[i]).id@ != (#[trigger] all_defs()[j]).id@,
{
    reveal_strlit("todo_comment");
    reveal_strlit("tx_context_sender");
    reveal_strlit("empty_public_entry");
    reveal_strlit("public_fun_transfer");
    reveal_strlit("bare_abort");
    reveal_strlit("clock_timestamp");
    reveal_strlit("dynamic_field_access");
    reveal_strlit("test_only_in_sources");
    reveal_strlit("missing_move_edition");
    reveal_strlit("git_dep_unpinned");
    reveal_strlit("wildcard_git_ref");
    let d = all_defs();
    assert(d.len() == 11);
    assert(d[0].id == todo_comment::ID);
    assert(d[1].id == tx_context_sender::ID);
    assert(d[2].id == empty_public_entry::ID);
    assert(d[3].id == public_fun_transfer::ID);
    assert(d[4].id == bare_abort::ID);
    assert(d[5].id == clock_timestamp::ID);
    assert(d[6].id == dynamic_field_access::ID);
    assert(d[7].id == test_only_in_sources::ID);
    assert(d[8].id == crate::manifest::MISSING_MOVE_EDITION_ID);
    assert(d[9].id == crate::manifest::GIT_DEP_UNPINNED_ID);
    assert(d[10].id == crate::manifest::WILDCARD_GIT_REF_ID);
    let lens = seq![12int, 17, 18, 19, 10, 15, 20, 20, 20, 16, 16];
    let firsts = seq!['t', 't', 'e', 'p', 'b', 'c', 'd', 't', 'm', 'g', 'w'];
    assert forall|i: int| 0 <= i < 11 implies #[trigger] d[i].id@.len() == lens[i] && d[i].id@[0] == firsts[i] by {
        if i == 0 { assert(d[0].id@.len() == 12); }
    }
    assert forall|i: int, j: int| 0 <= i < j < d.len() implies (#[trigger] d[i]).id@ != (
    #[trigger] d[j]).id@ by {
        assert(d[i].id@.len() == lens[i] && d[i].id@[0] == firsts[i]);
        assert(d[j].id@.len() == lens[j] && d[j].id@[0] == firsts[j]);
        if lens[i] == lens[j] {
            assert(firsts[i] != firsts[j]);
        }
    }
}

/// The `Debug` name of a category.
pub open spec fn category_debug_name(c: LintCategory) -> Seq<char> {
    match c {
        LintCategory::Correctness => "Correctness"@,
        LintCategory::Suspicious => "Suspicious"@,
        LintCategory::Style => "Style"@,
        LintCategory::Complexity => "Complexity"@,
        LintCategory::Perf => "Perf"@,
        LintCategory::Pedantic => "Pedantic"@,
        LintCategory::Nursery => "Nursery"@,
        LintCategory::Restriction => "Restriction"@,
        LintCategory::Cargo => "Cargo"@,
        LintCategory::Sui => "Sui"@,
        LintCategory::Security => "Security"@,
    }
}

/// The lowercase label of a category (as it appears in serialized catalogs).
pub open spec fn category_label(c: LintCategory) -> Seq<char> {
    match c {
        LintCategory::Correctness => "correctness"@,
        LintCategory::Suspicious => "suspicious"@,
        LintCategory::Style => "style"@,
        LintCategory::Complexity => "complexity"@,
        LintCategory::Perf => "perf"@,
        LintCategory::Pedantic => "pedantic"@,
        LintCategory::Nursery => "nursery"@,
        LintCategory::Restriction => "restriction"@,
        LintCategory::Cargo => "cargo"@,
        LintCategory::Sui => "sui"@,
        LintCategory::Security => "security"@,
    }
}

/// The `Debug` name of a level.
pub open spec fn level_debug_name(l: LintLevel) -> Seq<char> {
    match l {
        LintLevel::Allow => "Allow"@,
        LintLevel::Warn => "Warn"@,
        LintLevel::Deny => "Deny"@,
    }
}

/// The lowercase label of a level.
pub open spec fn level_label(l: LintLevel) -> Seq<char> {
    match l {
        LintLevel::Allow => "allow"@,
        LintLevel::Warn => "warn"@,
        LintLevel::Deny => "deny"@,
    }
}

impl LintCategory {
    pub fn debug_name(self) -> (r: &'static str)
        ensures
            r@ == category_debug_name(self),
    {
        match self {
            LintCategory::Correctness => "Correctness",
            LintCategory::Suspicious => "Suspicious",
            LintCategory::Style => "Style",
            LintCategory::Complexity => "Complexity",
            LintCategory::Perf => "Perf",
            LintCategory::Pedantic => "Pedantic",
            LintCategory::Nursery => "Nursery",
            LintCategory::Restriction => "Restriction",
            LintCategory::Cargo => "Cargo",
            LintCategory::Sui => "Sui",
            LintCategory::Security => "Security",
        }
    }

    pub fn label(self) -> (r: &'static str)
        ensures
            r@ == category_label(self),
    {
        match self {
            LintCategory::Correctness => "correctness",
            LintCategory::Suspicious => "suspicious",
            LintCategory::Style => "style",
            LintCategory::Complexity => "complexity",
            LintCategory::Perf => "perf",
            LintCategory::Pedantic => "pedantic",
            LintCategory::Nursery => "nursery",
            LintCategory::Restriction => "restriction",
            LintCategory::Cargo => "cargo",
            LintCategory::Sui => "sui",
            LintCategory::Security => "security",
        }
    }
}

impl LintLevel {
    pub fn debug_name(self) -> (r: &'static str)
        ensures
            r@ == level_debug_name(self),
    {
        match self {
            LintLevel::Allow => "Allow",
            LintLevel::Warn => "Warn",
            LintLevel::Deny => "Deny",
        }
    }

    pub fn label(self) -> (r: &'static str)
        ensures
            r@ == level_label(self),
    {
        match self {
            LintLevel::Allow => "allow",
            LintLevel::Warn => "warn",
            LintLevel::Deny => "deny",
        }
    }
}

/// One catalog line: id, category, default level and documentation, tab-separated.
pub open spec fn catalog_row(d: LintDef) -> Seq<char> {
    d.id@ + "\t"@ + category_debug_name(d.category) + "\t"@ + level_debug_name(
        category_default_level(d.category),
    ) + "\t"@ + d.doc@
}

/// The text catalog: one row per lint, each ended by a newline.
pub open spec fn catalog_text_spec(defs: Seq<LintDef>) -> Seq<char>
    decreases defs.len(),
{
    if defs.len() == 0 {
        seq![]
    } else {
        catalog_text_spec(defs.drop_last()) + catalog_row(defs.last()) + "\n"@
    }
}

/// The lint catalog as tab-separated text, one lint per line.
pub fn catalog_text(defs: &Vec<LintDef>) -> (r: String)
    ensures
        r@ == catalog_text_spec(defs@),
{
    let mut out = String::new();
    let mut k: usize = 0;
    while k < defs.len()
        invariant
            k <= defs@.len(),
            out@ == catalog_text_spec(defs@.take(k as int)),
        decreases defs@.len() - k,
    {
        let d = defs[k];
        out.append(d.id);
        out.append("\t");
        out.append(d.category.debug_name());
        out.append("\t");
        out.append(d.category.default_level().debug_name());
        out.append("\t");
        out.append(d.doc);
        out.append("\n");
        proof {
            assert(defs@.take(k + 1).drop_last() =~= defs@.take(k as int));
            assert(defs@.take(k + 1).last() == d);
        }
        k = k + 1;
    }
    proof {
        assert(defs@.take(defs@.len() as int) =~= defs@);
    }
    out
}

} // verus!
