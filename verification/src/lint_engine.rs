//! Running the built-in source passes on a file and resolving each diagnostic's level.
use vstd::prelude::*;
use vstd::hash_map::StringHashMap;
use vstd::utf8::encode_utf8;

use crate::config::{glob_matches, SuiClippyConfig};
use crate::diagnostic::{diags_view, note_view, Diagnostic, DiagnosticView, Severity};
use crate::lint_meta::{category_default_level, LintCategory, LintDef, LintLevel};
use crate::lints::{bare_abort, clock_timestamp, dynamic_field_access, empty_public_entry, public_fun_transfer, test_only_in_sources, todo_comment, tx_context_sender, SourceLintPass};
use crate::paths::{path_strip_prefix, strip_path_prefix};
use crate::seq_util::{concat_all, filter_some, lemma_concat_all_take, lemma_filter_some_take};
use crate::source_file::SourceFile;
use crate::text::{replace_ascii, replace_char};

verus! {

/// Options for one lint run.
pub struct LintRunOptions {
    /// If true, include diagnostics whose effective level is `allow` (normally suppressed).
    pub include_allowed: bool,
    /// Per-lint overrides for this run (`--warn`/`--allow`/`--deny`), highest precedence
    /// over `sui-clippy.toml`.
    pub cli_overrides: StringHashMap<LintLevel>,
}

impl Default for LintRunOptions {
    fn default() -> (r: Self)
        ensures
            !r.include_allowed,
            r.cli_overrides@ == Map::<Seq<char>, LintLevel>::empty(),
    {
        LintRunOptions { include_allowed: false, cli_overrides: StringHashMap::new() }
    }
}

/// The level a lint has in a run: the command line wins over `sui-clippy.toml`, which
/// wins over the category default.
pub open spec fn effective_level(
    def: LintDef,
    config_levels: Map<Seq<char>, LintLevel>,
    cli: Map<Seq<char>, LintLevel>,
) -> LintLevel {
    if cli.contains_key(def.id@) {
        cli[def.id@]
    } else if config_levels.contains_key(def.id@) {
        config_levels[def.id@]
    } else {
        category_default_level(def.category)
    }
}

/// The severity diagnostics of a level are reported with.
pub open spec fn severity_of(l: LintLevel) -> Severity {
    match l {
        LintLevel::Allow => Severity::Allow,
        LintLevel::Warn => Severity::Warning,
        LintLevel::Deny => Severity::Error,
    }
}

/// A raw diagnostic after level resolution: dropped when the lint is allowed (unless
/// allowed diagnostics are requested), otherwise given the severity of its level.
pub open spec fn finalize_spec(
    d: DiagnosticView,
    def: LintDef,
    config_levels: Map<Seq<char>, LintLevel>,
    cli: Map<Seq<char>, LintLevel>,
    include_allowed: bool,
) -> Option<DiagnosticView> {
    let eff = effective_level(def, config_levels, cli);
    if eff == LintLevel::Allow && !include_allowed {
        None
    } else {
        Some(DiagnosticView { severity: severity_of(eff), ..d })
    }
}

/// A level given on the command line wins over `sui-clippy.toml`, which wins over the
/// lint's category default.
pub proof fn lemma_level_precedence(
    def: LintDef,
    config_levels: Map<Seq<char>, LintLevel>,
    cli: Map<Seq<char>, LintLevel>,
)
    ensures
        cli.contains_key(def.id@) ==> effective_level(def, config_levels, cli) == cli[def.id@],
        !cli.contains_key(def.id@) && config_levels.contains_key(def.id@) ==> effective_level(
            def,
            config_levels,
            cli,
        ) == config_levels[def.id@],
        !cli.contains_key(def.id@) && !config_levels.contains_key(def.id@) ==> effective_level(
            def,
            config_levels,
            cli,
        ) == category_default_level(def.category),
{
}

/// A diagnostic of a lint that resolves to `allow` is reported only when allowed
/// diagnostics are requested, and then with severity `allow`; any other diagnostic is
/// kept with the severity of its level and otherwise unchanged.
pub proof fn lemma_allowed_are_dropped(
    d: DiagnosticView,
    def: LintDef,
    config_levels: Map<Seq<char>, LintLevel>,
    cli: Map<Seq<char>, LintLevel>,
    include_allowed: bool,
)
    ensures
        effective_level(def, config_levels, cli) == LintLevel::Allow ==> (finalize_spec(
            d,
            def,
            config_levels,
            cli,
            include_allowed,
        ) is Some <==> include_allowed),
        finalize_spec(d, def, config_levels, cli, include_allowed) matches Some(x) ==> {
            &&& x.severity == severity_of(effective_level(def, config_levels, cli))
            &&& x.lint_id == d.lint_id
            &&& x.message == d.message
            &&& x.span == d.span
            &&& x.note == d.note
        },
        effective_level(def, config_levels, cli) != LintLevel::Allow ==> finalize_spec(
            d,
            def,
            config_levels,
            cli,
            include_allowed,
        ) is Some,
{
}

/// Level resolution applied to each diagnostic of one lint, in order.
pub open spec fn finalize_all(
    ds: Seq<DiagnosticView>,
    def: LintDef,
    config_levels: Map<Seq<char>, LintLevel>,
    cli: Map<Seq<char>, LintLevel>,
    include_allowed: bool,
) -> Seq<DiagnosticView> {
    filter_some(ds.map_values(|d: DiagnosticView| finalize_spec(d, def, config_levels, cli, include_allowed)))
}

/// Apply `sui-clippy.toml`, command-line overrides, and `include_allowed` to a raw diagnostic.
pub fn finalize_diagnostic(
    d: Diagnostic,
    def: LintDef,
    config: &SuiClippyConfig,
    options: &LintRunOptions,
) -> (r: Option<Diagnostic>)
    ensures
        match r {
            Some(x) => finalize_spec(d@, def, config.lint_levels@, options.cli_overrides@, options.include_allowed) == Some(x@),
            None => finalize_spec(d@, def, config.lint_levels@, options.cli_overrides@, options.include_allowed) is None,
        },
{
    let default = def.category.default_level();
    let from_file = config.level_for(def.id, default);
    let effective = match options.cli_overrides.get(def.id) {
        Some(l) => *l,
        None => from_file,
    };
    if effective == LintLevel::Allow && !options.include_allowed {
        return None;
    }
    let mut d = d;
    d.severity = match effective {
        LintLevel::Allow => Severity::Allow,
        LintLevel::Warn => Severity::Warning,
        LintLevel::Deny => Severity::Error,
    };
    if d.severity != Severity::Allow || options.include_allowed {
        Some(d)
    } else {
        None
    }
}

/// Appends the resolved diagnostics of one lint to `out`.
pub fn push_finalized(
    ds: Vec<Diagnostic>,
    def: LintDef,
    config: &SuiClippyConfig,
    options: &LintRunOptions,
    out: &mut Vec<Diagnostic>,
)
    ensures
        diags_view(final(out)@) == diags_view(old(out)@) + finalize_all(
            diags_view(ds@),
            def,
            config.lint_levels@,
            options.cli_overrides@,
            options.include_allowed,
        ),
{
    let ghost all = diags_view(ds@).map_values(
        |d: DiagnosticView|
            finalize_spec(d, def, config.lint_levels@, options.cli_overrides@, options.include_allowed),
    );
    let ghost start = diags_view(out@);
    let mut ds = ds;
    let ghost orig = ds@;
    let mut k: usize = 0;
    let n = ds.len();
    // reversed, so that popping yields the diagnostics in their input order
    let mut rest: Vec<Diagnostic> = Vec::new();
    while ds.len() > 0
        invariant
            rest@.len() + ds@.len() == n,
            n == orig.len(),
            forall|j: int| 0 <= j < ds@.len() ==> ds@[j] == orig[j],
            forall|j: int| 0 <= j < rest@.len() ==> rest@[j] == orig[n - 1 - j],
        decreases ds@.len(),
    {
        let x = ds.pop().unwrap();
        rest.push(x);
    }
    while k < n
        invariant
            n == orig.len(),
            k <= n,
            rest@.len() == n - k,
            forall|j: int| 0 <= j < rest@.len() ==> rest@[j] == orig[n - 1 - j],
            all == diags_view(orig).map_values(
                |d: DiagnosticView|
                    finalize_spec(d, def, config.lint_levels@, options.cli_overrides@, options.include_allowed),
            ),
            diags_view(out@) == start + filter_some(all.take(k as int)),
        decreases n - k,
    {
        let d = rest.pop().unwrap();
        proof {
            assert(d == orig[k as int]);
            lemma_filter_some_take(all, k as int);
        }
        let ghost before = diags_view(out@);
        match finalize_diagnostic(d, def, config, options) {
            Some(x) => {
                out.push(x);
                proof {
                    assert(diags_view(out@) =~= before + seq![x@]);
                }
            },
            None => {},
        }
        k = k + 1;
        proof {
            assert(diags_view(out@) =~= start + filter_some(all.take(k as int)));
        }
    }
    proof {
        assert(all.take(n as int) =~= all);
    }
}


/// The built-in source passes, in stable order.
#[derive(Debug, Clone, Copy, PartialEq, Eq, Structural)]
pub enum SourcePass {
    TodoComment,
    TxContextSender,
    EmptyPublicEntry,
    PublicFunTransfer,
    BareAbort,
    ClockTimestamp,
    DynamicFieldAccess,
    TestOnlyInSources,
}

impl SourceLintPass for SourcePass {
    open spec fn spec_lint_def(&self) -> LintDef {
        match *self {
            SourcePass::TodoComment => todo_comment::Pass.spec_lint_def(),
            SourcePass::TxContextSender => tx_context_sender::Pass.spec_lint_def(),
            SourcePass::EmptyPublicEntry => empty_public_entry::Pass.spec_lint_def(),
            SourcePass::PublicFunTransfer => public_fun_transfer::Pass.spec_lint_def(),
            SourcePass::BareAbort => bare_abort::Pass.spec_lint_def(),
            SourcePass::ClockTimestamp => clock_timestamp::Pass.spec_lint_def(),
            SourcePass::DynamicFieldAccess => dynamic_field_access::Pass.spec_lint_def(),
            SourcePass::TestOnlyInSources => test_only_in_sources::Pass.spec_lint_def(),
        }
    }

    open spec fn spec_check_file(
        &self,
        path: Seq<char>,
        text: Seq<char>,
        rel: Option<Seq<char>>,
    ) -> Seq<DiagnosticView> {
        match *self {
            SourcePass::TodoComment => todo_comment::Pass.spec_check_file(path, text, rel),
            SourcePass::TxContextSender => tx_context_sender::Pass.spec_check_file(path, text, rel),
            SourcePass::EmptyPublicEntry => empty_public_entry::Pass.spec_check_file(path, text, rel),
            SourcePass::PublicFunTransfer => public_fun_transfer::Pass.spec_check_file(path, text, rel),
            SourcePass::BareAbort => bare_abort::Pass.spec_check_file(path, text, rel),
            SourcePass::ClockTimestamp => clock_timestamp::Pass.spec_check_file(path, text, rel),
            SourcePass::DynamicFieldAccess => dynamic_field_access::Pass.spec_check_file(path, text, rel),
            SourcePass::TestOnlyInSources => test_only_in_sources::Pass.spec_check_file(path, text, rel),
        }
    }

    fn lint_def(&self) -> (d: LintDef) {
        match self {
            SourcePass::TodoComment => todo_comment::Pass.lint_def(),
            SourcePass::TxContextSender => tx_context_sender::Pass.lint_def(),
            SourcePass::EmptyPublicEntry => empty_public_entry::Pass.lint_def(),
            SourcePass::PublicFunTransfer => public_fun_transfer::Pass.lint_def(),
            SourcePass::BareAbort => bare_abort::Pass.lint_def(),
            SourcePass::ClockTimestamp => clock_timestamp::Pass.lint_def(),
            SourcePass::DynamicFieldAccess => dynamic_field_access::Pass.lint_def(),
            SourcePass::TestOnlyInSources => test_only_in_sources::Pass.lint_def(),
        }
    }

    fn check_file(&self, file: &SourceFile) -> (r: Vec<Diagnostic>) {
        match self {
            SourcePass::TodoComment => todo_comment::Pass.check_file(file),
            SourcePass::TxContextSender => tx_context_sender::Pass.check_file(file),
            SourcePass::EmptyPublicEntry => empty_public_entry::Pass.check_file(file),
            SourcePass::PublicFunTransfer => public_fun_transfer::Pass.check_file(file),
            SourcePass::BareAbort => bare_abort::Pass.check_file(file),
            SourcePass::ClockTimestamp => clock_timestamp::Pass.check_file(file),
            SourcePass::DynamicFieldAccess => dynamic_field_access::Pass.check_file(file),
            SourcePass::TestOnlyInSources => test_only_in_sources::Pass.check_file(file),
        }
    }
}

/// The passes in the order they run.
pub open spec fn source_passes() -> Seq<SourcePass> {
    seq![
        SourcePass::TodoComment,
        SourcePass::TxContextSender,
        SourcePass::EmptyPublicEntry,
        SourcePass::PublicFunTransfer,
        SourcePass::BareAbort,
        SourcePass::ClockTimestamp,
        SourcePass::DynamicFieldAccess,
        SourcePass::TestOnlyInSources,
    ]
}

/// All built-in source passes, in stable order.
pub fn all_source_passes() -> (r: Vec<SourcePass>)
    ensures
        r@ == source_passes(),
{
    let r = vec![
        SourcePass::TodoComment,
        SourcePass::TxContextSender,
        SourcePass::EmptyPublicEntry,
        SourcePass::PublicFunTransfer,
        SourcePass::BareAbort,
        SourcePass::ClockTimestamp,
        SourcePass::DynamicFieldAccess,
        SourcePass::TestOnlyInSources,
    ];
    proof {
        assert(r@ =~= source_passes());
    }
    r
}

/// Lint metadata for the built-in source passes, in pass order.
pub fn all_source_lint_defs() -> (r: Vec<LintDef>)
    ensures
        r@ == source_passes().map_values(|p: SourcePass| p.spec_lint_def()),
{
    let passes = all_source_passes();
    let mut r: Vec<LintDef> = Vec::new();
    let mut k: usize = 0;
    while k < passes.len()
        invariant
            passes@ == source_passes(),
            k <= passes@.len(),
            r@ == source_passes().map_values(|p: SourcePass| p.spec_lint_def()).take(k as int),
        decreases passes@.len() - k,
    {
        r.push(passes[k].lint_def());
        k = k + 1;
        proof {
            assert(r@ =~= source_passes().map_values(|p: SourcePass| p.spec_lint_def()).take(k as int));
        }
    }
    proof {
        assert(r@ =~= source_passes().map_values(|p: SourcePass| p.spec_lint_def()));
    }
    r
}

/// The path of a file relative to the package root, with `/` separators; empty when
/// the file is not under the root.
pub open spec fn relative_path(path: Seq<char>, root: Seq<char>) -> Seq<char> {
    match path_strip_prefix(path, root) {
        Some(r) => replace_char(r, '\\', "/"@),
        None => seq![],
    }
}

/// What one pass contributes to a file's report after level resolution.
pub open spec fn pass_report(
    p: SourcePass,
    path: Seq<char>,
    text: Seq<char>,
    rel: Option<Seq<char>>,
    config_levels: Map<Seq<char>, LintLevel>,
    cli: Map<Seq<char>, LintLevel>,
    include_allowed: bool,
) -> Seq<DiagnosticView> {
    finalize_all(p.spec_check_file(path, text, rel), p.spec_lint_def(), config_levels, cli, include_allowed)
}

/// The report for one file: nothing when its relative path is excluded, otherwise each
/// pass's resolved diagnostics, pass after pass.
pub open spec fn source_report(
    path: Seq<char>,
    text: Seq<char>,
    rel: Option<Seq<char>>,
    root: Seq<char>,
    exclude: Seq<Seq<char>>,
    config_levels: Map<Seq<char>, LintLevel>,
    cli: Map<Seq<char>, LintLevel>,
    include_allowed: bool,
) -> Seq<DiagnosticView> {
    if exists|i: int| 0 <= i < exclude.len() && glob_matches(#[trigger] exclude[i], relative_path(path, root)) {
        seq![]
    } else {
        concat_all(
            source_passes().map_values(
                |p: SourcePass| pass_report(p, path, text, rel, config_levels, cli, include_allowed),
            ),
        )
    }
}

/// The package-relative path a file is linted under (`/`-separated), when the file lies
/// inside the package.
pub open spec fn package_rel(path: Seq<char>, root: Seq<char>) -> Option<Seq<char>> {
    match path_strip_prefix(path, root) {
        Some(r) => Some(replace_char(r, '\\', "/"@)),
        None => None,
    }
}

/// The source file for `path` in the package at `package_root`: with its relative path
/// when `path` lies under the root.
pub fn package_source_file(path: String, text: String, package_root: &str) -> (f: SourceFile)
    ensures
        f.path@ == path@,
        f.text@ == text@,
        note_view(f.rel_to_package) == package_rel(path@, package_root@),
{
    match strip_path_prefix(path.as_str(), package_root) {
        Some(rel) => SourceFile::with_rel(path, text, rel.as_str()),
        None => SourceFile::new(path, text),
    }
}

/// The diagnostics whose severity is not `allow`, in order.
pub open spec fn drop_allowed(ds: Seq<DiagnosticView>) -> Seq<DiagnosticView>
    decreases ds.len(),
{
    if ds.len() == 0 {
        seq![]
    } else {
        drop_allowed(ds.drop_last()) + if ds.last().severity == Severity::Allow {
            seq![]
        } else {
            seq![ds.last()]
        }
    }
}

proof fn lemma_drop_allowed_concat(a: Seq<DiagnosticView>, b: Seq<DiagnosticView>)
    ensures
        drop_allowed(a + b) == drop_allowed(a) + drop_allowed(b),
    decreases b.len(),
{
    if b.len() == 0 {
        assert(a + b =~= a);
        assert(drop_allowed(a) + drop_allowed(b) =~= drop_allowed(a));
    } else {
        lemma_drop_allowed_concat(a, b.drop_last());
        assert((a + b).drop_last() =~= a + b.drop_last());
        assert((a + b).last() == b.last());
        assert(drop_allowed(a + b) =~= drop_allowed(a) + drop_allowed(b));
    }
}

proof fn lemma_drop_allowed_no_allow(ds: Seq<DiagnosticView>)
    ensures
        forall|i: int| 0 <= i < drop_allowed(ds).len() ==> (#[trigger] drop_allowed(ds)[i]).severity != Severity::Allow,
    decreases ds.len(),
{
    if ds.len() > 0 {
        lemma_drop_allowed_no_allow(ds.drop_last());
        let p = drop_allowed(ds.drop_last());
        assert forall|i: int| 0 <= i < drop_allowed(ds).len() implies (#[trigger] drop_allowed(ds)[i]).severity
            != Severity::Allow by {
            if i < p.len() {
                assert(drop_allowed(ds)[i] == p[i]);
            }
        }
    }
}

proof fn lemma_finalize_all_drops_allowed(
    ds: Seq<DiagnosticView>,
    def: LintDef,
    config_levels: Map<Seq<char>, LintLevel>,
    cli: Map<Seq<char>, LintLevel>,
)
    ensures
        finalize_all(ds, def, config_levels, cli, false) == drop_allowed(
            finalize_all(ds, def, config_levels, cli, true),
        ),
    decreases ds.len(),
{
    let f = |d: DiagnosticView| finalize_spec(d, def, config_levels, cli, false);
    let t = |d: DiagnosticView| finalize_spec(d, def, config_levels, cli, true);
    if ds.len() == 0 {
        assert(ds.map_values(f) =~= Seq::<Option<DiagnosticView>>::empty());
        assert(ds.map_values(t) =~= Seq::<Option<DiagnosticView>>::empty());
    } else {
        let init = ds.drop_last();
        lemma_finalize_all_drops_allowed(init, def, config_levels, cli);
        assert(ds.map_values(f).drop_last() =~= init.map_values(f));
        assert(ds.map_values(t).drop_last() =~= init.map_values(t));
        let tail_t: Seq<DiagnosticView> = match t(ds.last()) {
            Some(x) => seq![x],
            None => seq![],
        };
        let prefix_t = finalize_all(init, def, config_levels, cli, true);
        assert(finalize_all(ds, def, config_levels, cli, true) == prefix_t + tail_t);
        lemma_drop_allowed_concat(prefix_t, tail_t);
        assert(tail_t.len() == 1);
        assert(tail_t.drop_last() =~= Seq::<DiagnosticView>::empty());
        assert(drop_allowed(tail_t.drop_last()) =~= Seq::<DiagnosticView>::empty());
        assert(drop_allowed(tail_t) =~= (if tail_t[0].severity == Severity::Allow { seq![] } else { tail_t }));
    }
}

proof fn lemma_concat_drops_allowed(parts_f: Seq<Seq<DiagnosticView>>, parts_t: Seq<Seq<DiagnosticView>>)
    requires
        parts_f.len() == parts_t.len(),
        forall|k: int| 0 <= k < parts_f.len() ==> #[trigger] parts_f[k] == drop_allowed(parts_t[k]),
    ensures
        concat_all(parts_f) == drop_allowed(concat_all(parts_t)),
    decreases parts_f.len(),
{
    if parts_f.len() == 0 {
        assert(drop_allowed(seq![]) =~= Seq::<DiagnosticView>::empty());
    } else {
        lemma_concat_drops_allowed(parts_f.drop_last(), parts_t.drop_last());
        lemma_drop_allowed_concat(concat_all(parts_t.drop_last()), parts_t.last());
        assert(parts_f.last() == drop_allowed(parts_t.last()));
    }
}

/// Asking for allowed diagnostics only adds them: the report without them is the report
/// with them, less every diagnostic of severity `allow`, in the same order; and it holds
/// no diagnostic of severity `allow`.
pub proof fn lemma_include_allowed_only_adds(
    path: Seq<char>,
    text: Seq<char>,
    rel: Option<Seq<char>>,
    root: Seq<char>,
    exclude: Seq<Seq<char>>,
    config_levels: Map<Seq<char>, LintLevel>,
    cli: Map<Seq<char>, LintLevel>,
)
    ensures
        source_report(path, text, rel, root, exclude, config_levels, cli, false) == drop_allowed(
            source_report(path, text, rel, root, exclude, config_levels, cli, true),
        ),
        forall|i: int|
            0 <= i < source_report(path, text, rel, root, exclude, config_levels, cli, false).len()
                ==> (#[trigger] source_report(path, text, rel, root, exclude, config_levels, cli, false)[i]).severity
                != Severity::Allow,
{
    let pf = source_passes().map_values(|p: SourcePass| pass_report(p, path, text, rel, config_levels, cli, false));
    let pt = source_passes().map_values(|p: SourcePass| pass_report(p, path, text, rel, config_levels, cli, true));
    if exists|i: int| 0 <= i < exclude.len() && glob_matches(#[trigger] exclude[i], relative_path(path, root)) {
        assert(drop_allowed(seq![]) =~= Seq::<DiagnosticView>::empty());
    } else {
        assert forall|k: int| 0 <= k < pf.len() implies #[trigger] pf[k] == drop_allowed(pt[k]) by {
            let p = source_passes()[k];
            lemma_finalize_all_drops_allowed(
                p.spec_check_file(path, text, rel),
                p.spec_lint_def(),
                config_levels,
                cli,
            );
        }
        lemma_concat_drops_allowed(pf, pt);
    }
    lemma_drop_allowed_no_allow(source_report(path, text, rel, root, exclude, config_levels, cli, true));
}

/// Run the built-in source-level lints on one file.
pub fn run_source_lints(
    file: &SourceFile,
    package_root: &str,
    config: &SuiClippyConfig,
    options: &LintRunOptions,
) -> (r: Vec<Diagnostic>)
    requires
        encode_utf8(file.text@).len() < u32::MAX,
        crate::config::patterns_fit(config.exclude@),
    ensures
        diags_view(r@) == source_report(
            file.path@,
            file.text@,
            note_view(file.rel_to_package),
            package_root@,
            crate::config::strings_view(config.exclude@),
            config.lint_levels@,
            options.cli_overrides@,
            options.include_allowed,
        ),
{
    let rel = match strip_path_prefix(file.path.as_str(), package_root) {
        Some(r) => {
            let x = replace_ascii(r.as_str(), 92, "/");
            proof {
                assert(92u8 as char == '\\');
            }
            x
        },
        None => String::new(),
    };
    proof {
        assert(rel@ == relative_path(file.path@, package_root@));
    }
    let excluded = config.is_excluded(rel.as_str());
    proof {
        let ex = crate::config::strings_view(config.exclude@);
        if excluded {
            let i = choose|i: int|
                0 <= i < config.exclude@.len() && glob_matches(
                    #[trigger] config.exclude@[i]@,
                    rel@,
                );
            assert(ex[i] == config.exclude@[i]@);
        } else {
            assert forall|i: int| 0 <= i < ex.len() implies !glob_matches(#[trigger] ex[i], rel@) by {
                assert(ex[i] == config.exclude@[i]@);
            }
        }
    }
    if excluded {
        return Vec::new();
    }
    let passes = all_source_passes();
    let ghost parts = source_passes().map_values(
        |p: SourcePass|
            pass_report(
                p,
                file.path@,
                file.text@,
                note_view(file.rel_to_package),
                config.lint_levels@,
                options.cli_overrides@,
                options.include_allowed,
            ),
    );
    let mut out: Vec<Diagnostic> = Vec::new();
    let mut k: usize = 0;
    while k < passes.len()
        invariant
            passes@ == source_passes(),
            encode_utf8(file.text@).len() < u32::MAX,
            parts == source_passes().map_values(
                |p: SourcePass|
                    pass_report(
                        p,
                        file.path@,
                        file.text@,
                        note_view(file.rel_to_package),
                        config.lint_levels@,
                        options.cli_overrides@,
                        options.include_allowed,
                    ),
            ),
            k <= passes@.len(),
            diags_view(out@) == concat_all(parts.take(k as int)),
        decreases passes@.len() - k,
    {
        let pass = passes[k];
        let ds = pass.check_file(file);
        proof {
            lemma_concat_all_take(parts, k as int);
        }
        push_finalized(ds, pass.lint_def(), config, options, &mut out);
        k = k + 1;
    }
    proof {
        assert(parts.take(passes@.len() as int) =~= parts);
    }
    out
}

} // verus!
