use vstd::prelude::*;

verus! {

/// Lint categories aligned with rust-clippy defaults, plus Sui-specific groups.
#[derive(Debug, Clone, Copy, PartialEq, Eq, Hash, Structural)]
pub enum LintCategory {
    Correctness,
    Suspicious,
    Style,
    Complexity,
    Perf,
    Pedantic,
    Nursery,
    Restriction,
    Cargo,
    /// Sui object model, PTB composability, framework usage.
    Sui,
    /// Security-sensitive heuristics (expect false positives).
    Security,
}

#[derive(Debug, Clone, Copy, PartialEq, Eq, Hash, Structural)]
pub enum LintLevel {
    Allow,
    Warn,
    Deny,
}

/// The level a category has when neither the config file nor the command line overrides it.
pub open spec fn category_default_level(c: LintCategory) -> LintLevel {
    match c {
        LintCategory::Correctness => LintLevel::Deny,
        LintCategory::Suspicious | LintCategory::Style | LintCategory::Complexity
        | LintCategory::Perf => LintLevel::Warn,
        _ => LintLevel::Allow,
    }
}

impl LintCategory {
    /// Default diagnostic level when not overridden by config.
    pub fn default_level(self) -> (l: LintLevel)
        ensures
            l == category_default_level(self),
    {
        match self {
            LintCategory::Correctness => LintLevel::Deny,
            LintCategory::Suspicious | LintCategory::Style | LintCategory::Complexity
            | LintCategory::Perf => LintLevel::Warn,
            LintCategory::Pedantic | LintCategory::Nursery | LintCategory::Restriction
            | LintCategory::Cargo | LintCategory::Sui | LintCategory::Security => LintLevel::Allow,
        }
    }
}

/// Static description of one lint rule.
#[derive(Debug, Clone, Copy)]
pub struct LintDef {
    pub id: &'static str,
    pub category: LintCategory,
    pub doc: &'static str,
}

} // verus!
