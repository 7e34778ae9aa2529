//! Command-line options, their merge into run parameters, and the outcome of a run.
use vstd::prelude::*;
use vstd::hash_map::StringHashMap;

use crate::config::strings_view;
use crate::diagnostic::{diags_view, Diagnostic};
use crate::lint_meta::LintLevel;
use crate::report::{exit_code, exit_status, sort_diagnostics, sorted_by_key, stable_reordering};

verus! {

/// How a run reports its diagnostics.
#[derive(Clone, Copy, Debug, PartialEq, Eq, Structural)]
pub enum OutputFormat {
    /// Human-readable diagnostics (default).
    Text,
    /// One JSON object per line (NDJSON), one diagnostic per line.
    Json,
    /// Single SARIF 2.1.0 JSON document on stdout.
    Sarif,
}

impl Default for OutputFormat {
    fn default() -> (r: Self)
        ensures
            r == OutputFormat::Text,
    {
        OutputFormat::Text
    }
}

/// The command line of the linter, as parsed.
#[derive(Debug, Clone)]
pub struct CliArgs {
    /// Path to Move package (directory containing Move.toml) or a single .move file.
    pub path: String,
    /// Output format (use `json` for one diagnostic JSON per line).
    pub format: OutputFormat,
    /// Shorthand for `--format json`.
    pub json: bool,
    /// Run `sui move build --lint` in the package as well.
    pub with_sui_lint: bool,
    /// Include diagnostics suppressed to `allow` by config (for tooling).
    pub include_allowed: bool,
    /// List built-in lint ids and exit.
    pub list_lints: bool,
    /// Skip Move.toml manifest checks.
    pub skip_manifest: bool,
    /// Insert a default `edition` under `[package]` when missing (mutates Move.toml).
    pub fix_manifest: bool,
    /// Apply supported automatic fixes (currently: same as `--fix-manifest`).
    pub fix: bool,
    /// Reserved for future source-level autofixes (no-op today).
    pub fix_sources: bool,
    /// Lint every package listed under `[workspace].members`.
    pub workspace: bool,
    /// Run the Move compiler on `sources/`.
    pub typed: bool,
    /// Lints set to warn (repeatable).
    pub warn_lint: Vec<String>,
    /// Lints set to allow (repeatable).
    pub allow_lint: Vec<String>,
    /// Lints set to deny (repeatable).
    pub deny_lint: Vec<String>,
}

/// The format a command line asks for: `--json` wins over `--format`.
pub open spec fn requested_format(json: bool, format: OutputFormat) -> OutputFormat {
    if json {
        OutputFormat::Json
    } else {
        format
    }
}

impl CliArgs {
    pub fn output_format(&self) -> (r: OutputFormat)
        ensures
            r == requested_format(self.json, self.format),
    {
        if self.json {
            OutputFormat::Json
        } else {
            self.format
        }
    }
}

/// Some entry of `s` is `k`.
pub open spec fn listed(s: Seq<Seq<char>>, k: Seq<char>) -> bool {
    exists|i: int| 0 <= i < s.len() && s[i] == k
}

/// The per-lint levels given on the command line: every lint named anywhere, at `deny`
/// when it is among the denied, else `warn` when among the warned, else `allow`.
pub open spec fn merged_overrides(
    allow: Seq<Seq<char>>,
    warn: Seq<Seq<char>>,
    deny: Seq<Seq<char>>,
) -> Map<Seq<char>, LintLevel> {
    Map::new(
        |k: Seq<char>| listed(allow, k) || listed(warn, k) || listed(deny, k),
        |k: Seq<char>|
            if listed(deny, k) {
                LintLevel::Deny
            } else if listed(warn, k) {
                LintLevel::Warn
            } else {
                LintLevel::Allow
            },
    )
}

/// Inserts every name of `names` at `level`.
fn insert_all(m: &mut StringHashMap<LintLevel>, names: &Vec<String>, level: LintLevel)
    ensures
        forall|k: Seq<char>| #[trigger]
            final(m)@.contains_key(k) <==> old(m)@.contains_key(k) || listed(strings_view(names@), k),
        forall|k: Seq<char>|
            #[trigger] final(m)@.contains_key(k) ==> final(m)@[k] == (if listed(strings_view(names@), k) {
                level
            } else {
                old(m)@[k]
            }),
{
    let ghost start = m@;
    let ghost ns = strings_view(names@);
    let mut i: usize = 0;
    while i < names.len()
        invariant
            i <= names@.len(),
            ns == strings_view(names@),
            forall|k: Seq<char>| #[trigger]
                m@.contains_key(k) <==> start.contains_key(k) || listed(ns.take(i as int), k),
            forall|k: Seq<char>|
                #[trigger] m@.contains_key(k) ==> m@[k] == (if listed(ns.take(i as int), k) {
                    level
                } else {
                    start[k]
                }),
        decreases names@.len() - i,
    {
        let ghost before = ns.take(i as int);
        m.insert(names[i].clone(), level);
        i = i + 1;
        proof {
            let now = ns.take(i as int);
            assert(now[now.len() - 1] == ns[i - 1]);
            assert forall|k: Seq<char>| listed(now, k) <==> listed(before, k) || k == ns[i - 1] by {
                if listed(before, k) {
                    let j = choose|j: int| 0 <= j < before.len() && before[j] == k;
                    assert(now[j] == before[j]);
                }
                if listed(now, k) && k != ns[i - 1] {
                    let j = choose|j: int| 0 <= j < now.len() && now[j] == k;
                    assert(before[j] == now[j]);
                }
            }
        }
    }
    proof {
        assert(ns.take(names@.len() as int) =~= ns);
    }
}

/// Merge the command-line allow/warn/deny lists; for a lint named in several, deny wins
/// over warn, which wins over allow.
pub fn merge_cli_lint_overrides(
    allow: &Vec<String>,
    warn: &Vec<String>,
    deny: &Vec<String>,
) -> (r: StringHashMap<LintLevel>)
    ensures
        r@ == merged_overrides(strings_view(allow@), strings_view(warn@), strings_view(deny@)),
{
    let mut m: StringHashMap<LintLevel> = StringHashMap::new();
    insert_all(&mut m, allow, LintLevel::Allow);
    insert_all(&mut m, warn, LintLevel::Warn);
    insert_all(&mut m, deny, LintLevel::Deny);
    proof {
        assert(m@ =~= merged_overrides(strings_view(allow@), strings_view(warn@), strings_view(deny@)));
    }
    m
}

/// A lint named on the command line runs at the strongest level it was named with.
pub proof fn lemma_cli_strongest_wins(allow: Seq<Seq<char>>, warn: Seq<Seq<char>>, deny: Seq<Seq<char>>, k: Seq<char>)
    ensures
        listed(deny, k) ==> merged_overrides(allow, warn, deny)[k] == LintLevel::Deny,
        listed(warn, k) && !listed(deny, k) ==> merged_overrides(allow, warn, deny)[k] == LintLevel::Warn,
        listed(allow, k) && !listed(warn, k) && !listed(deny, k) ==> merged_overrides(allow, warn, deny)[k]
            == LintLevel::Allow,
        merged_overrides(allow, warn, deny).contains_key(k) <==> listed(allow, k) || listed(warn, k) || listed(
            deny,
            k,
        ),
{
}

/// What one run of the linter is asked to do.
pub struct RunParams {
    pub path: String,
    pub format: OutputFormat,
    pub with_sui_lint: bool,
    pub include_allowed: bool,
    pub skip_manifest: bool,
    pub fix_manifest: bool,
    /// When true with `--workspace`, also apply future source fixes (currently a no-op).
    pub fix_sources: bool,
    pub typed: bool,
    /// Lint every member package under a Move `[workspace].members` root.
    pub workspace: bool,
    pub cli_overrides: StringHashMap<LintLevel>,
}

impl RunParams {
    /// The parameters a command line asks for: `--fix` implies `--fix-manifest`, `--json`
    /// implies `--format json`, and the allow/warn/deny lists become per-lint overrides.
    pub fn from_args(args: CliArgs) -> (r: RunParams)
        ensures
            r.path@ == args.path@,
            r.format == requested_format(args.json, args.format),
            r.with_sui_lint == args.with_sui_lint,
            r.include_allowed == args.include_allowed,
            r.skip_manifest == args.skip_manifest,
            r.fix_manifest == (args.fix_manifest || args.fix),
            r.fix_sources == args.fix_sources,
            r.typed == args.typed,
            r.workspace == args.workspace,
            r.cli_overrides@ == merged_overrides(
                strings_view(args.allow_lint@),
                strings_view(args.warn_lint@),
                strings_view(args.deny_lint@),
            ),
    {
        let overrides = merge_cli_lint_overrides(&args.allow_lint, &args.warn_lint, &args.deny_lint);
        let format = args.output_format();
        RunParams {
            path: args.path,
            format,
            with_sui_lint: args.with_sui_lint,
            include_allowed: args.include_allowed,
            skip_manifest: args.skip_manifest,
            fix_manifest: args.fix_manifest || args.fix,
            fix_sources: args.fix_sources,
            typed: args.typed,
            workspace: args.workspace,
            cli_overrides: overrides,
        }
    }
}

/// The result of a run.
#[derive(Debug)]
pub struct RunOutcome {
    pub exit_code: i32,
    /// Collected diagnostics (severity already reflects effective level).
    pub diagnostics: Vec<Diagnostic>,
}

impl Default for RunOutcome {
    fn default() -> (r: Self)
        ensures
            r.exit_code == 0,
            r.diagnostics@.len() == 0,
    {
        RunOutcome { exit_code: 0, diagnostics: Vec::new() }
    }
}

impl RunOutcome {
    /// The outcome of a run that collected `ds`: the diagnostics ordered by path then
    /// line, and exit status 1 when any of them is an error.
    pub fn from_diagnostics(ds: Vec<Diagnostic>) -> (r: RunOutcome)
        ensures
            sorted_by_key(diags_view(r.diagnostics@)),
            exists|perm: Seq<int>| stable_reordering(diags_view(r.diagnostics@), diags_view(ds@), perm),
            r.exit_code == exit_status(diags_view(ds@)),
    {
        let code = exit_code(&ds);
        let sorted = sort_diagnostics(ds);
        RunOutcome { exit_code: code, diagnostics: sorted }
    }
}

/// Where the package roots of a run are looked for.
#[derive(Clone, Copy, Debug, PartialEq, Eq, Structural)]
pub enum PackageSearch {
    /// The members of the `[workspace]` manifest at the given directory.
    Workspace,
    /// The nearest directory holding `Move.toml`, from the file's directory upward.
    AboveFile,
    /// The nearest directory holding `Move.toml`, from the given directory upward.
    AtOrAboveDir,
}

/// What a run does, decided from its parameters before any package is read.
#[derive(Clone, Copy, Debug, PartialEq, Eq, Structural)]
pub struct RunPlan {
    /// Print the note that source fixes are not applied yet.
    pub note_fix_sources: bool,
    pub search: PackageSearch,
    /// Insert a missing `edition` into each package manifest.
    pub fix_manifest: bool,
    /// Run the manifest lints on each package.
    pub lint_manifest: bool,
    /// Scan each package's whole `sources/` tree (otherwise only the given path).
    pub scan_whole_package: bool,
    /// Run the compiler probe on each package.
    pub run_probe: bool,
    /// The compiler pass was asked for but this build has no compiler: the run fails
    /// when it reaches it.
    pub probe_unavailable: bool,
    /// Run `sui move build --lint` on each package.
    pub run_sui_lint: bool,
    /// The Sui linter's own output goes to standard output (text mode) rather than
    /// standard error.
    pub sui_output_to_stdout: bool,
}

/// Why a run was refused before it started.
#[derive(Clone, Copy, Debug, PartialEq, Eq, Structural)]
pub enum RunError {
    /// `--workspace` was given a file.
    WorkspaceNeedsDirectory,
}

/// The plan of a run, given whether its path names a file and whether this build has the
/// Move compiler.
pub open spec fn plan_spec(p: RunParams, path_is_file: bool, compiler: bool) -> Result<RunPlan, RunError> {
    if p.workspace && path_is_file {
        Err(RunError::WorkspaceNeedsDirectory)
    } else {
        Ok(RunPlan {
            note_fix_sources: p.fix_sources && p.format == OutputFormat::Text,
            search: if p.workspace {
                PackageSearch::Workspace
            } else if path_is_file {
                PackageSearch::AboveFile
            } else {
                PackageSearch::AtOrAboveDir
            },
            fix_manifest: p.fix_manifest && !p.skip_manifest,
            lint_manifest: !p.skip_manifest,
            scan_whole_package: p.workspace,
            run_probe: p.typed && compiler,
            probe_unavailable: p.typed && !compiler,
            run_sui_lint: p.with_sui_lint,
            sui_output_to_stdout: p.format == OutputFormat::Text,
        })
    }
}

/// Decides what a run does.
pub fn plan(params: &RunParams, path_is_file: bool, compiler: bool) -> (r: Result<RunPlan, RunError>)
    ensures
        r == plan_spec(*params, path_is_file, compiler),
{
    if params.workspace && path_is_file {
        return Err(RunError::WorkspaceNeedsDirectory);
    }
    let text = params.format == OutputFormat::Text;
    let search = if params.workspace {
        PackageSearch::Workspace
    } else if path_is_file {
        PackageSearch::AboveFile
    } else {
        PackageSearch::AtOrAboveDir
    };
    Ok(RunPlan {
        note_fix_sources: params.fix_sources && text,
        search,
        fix_manifest: params.fix_manifest && !params.skip_manifest,
        lint_manifest: !params.skip_manifest,
        scan_whole_package: params.workspace,
        run_probe: params.typed && compiler,
        probe_unavailable: params.typed && !compiler,
        run_sui_lint: params.with_sui_lint,
        sui_output_to_stdout: text,
    })
}

} // verus!
