//! `sui-clippy.toml`: per-lint levels and excluded paths for a package.
use vstd::prelude::*;
use vstd::hash_map::StringHashMap;
use vstd::utf8::encode_utf8;
use vstd::string::StringSliceAdditionalSpecFns;

use crate::lint_meta::LintLevel;
use crate::toml_model::{get_array, get_table, opt_toml_view, parse_toml, toml_document, toml_view, toml_get, value_get, TomlError, TomlSpec, TomlValue, lemma_entries_len, lemma_entries_view_index, lemma_seq_view_index, lemma_seq_view_len, toml_entries_view, toml_seq_view};

verus! {

/// Resolved configuration for a package root.
pub struct SuiClippyConfig {
    /// Per-lint level overrides (`lint_id` -> level).
    pub lint_levels: StringHashMap<LintLevel>,
    /// Glob patterns relative to package root; matched paths are skipped.
    pub exclude: Vec<String>,
}

impl Default for SuiClippyConfig {
    fn default() -> (r: Self)
        ensures
            r.lint_levels@ == Map::<Seq<char>, LintLevel>::empty(),
            r.exclude@.len() == 0,
    {
        SuiClippyConfig { lint_levels: StringHashMap::new(), exclude: Vec::new() }
    }
}

/// Whether the glob `pattern`, compiled by `globset::Glob::new`, matches `path`;
/// false when the pattern does not compile.
pub uninterp spec fn glob_matches(pattern: Seq<char>, path: Seq<char>) -> bool;

/// Patterns are limited to this many bytes: `globset` builds an Aho-Corasick automaton
/// over a glob's literal part and panics when that automaton exceeds its state limit
/// (about 2^31 states), which a shorter pattern cannot reach.
pub const MAX_PATTERN_BYTES: usize = 0x4000_0000;

/// `globset::Glob::new(pattern)`, added alone to a `GlobSetBuilder` and built, then
/// `GlobSet::is_match(path)`.
/// Trusted: the result is the named match; a pattern that fails to parse or to build
/// matches nothing.
#[verifier::external_body]
fn glob_is_match(pattern: &str, path: &str) -> (r: bool)
    requires
        encode_utf8(pattern@).len() < MAX_PATTERN_BYTES,
    ensures
        r == glob_matches(pattern@, path@),
{
    match globset::Glob::new(pattern) {
        Ok(g) => globset::GlobSetBuilder::new().add(g).build().map(|set| set.is_match(path)).unwrap_or(false),
        Err(_) => false,
    }
}

/// Every exclude pattern is shorter than [`MAX_PATTERN_BYTES`].
pub open spec fn patterns_fit(exclude: Seq<String>) -> bool {
    forall|i: int| 0 <= i < exclude.len() ==> encode_utf8((#[trigger] exclude[i])@).len() < MAX_PATTERN_BYTES
}

/// The views of a list of strings.
pub open spec fn strings_view(v: Seq<String>) -> Seq<Seq<char>> {
    v.map_values(|s: String| s@)
}

/// Why a `sui-clippy.toml` was refused.
#[derive(Debug, Clone)]
pub enum ConfigError {
    /// The text is not a TOML document.
    Parse(TomlError),
    /// `exclude` is not an array of strings.
    InvalidExclude,
    /// `lint` is not a table of strings.
    InvalidLintTable,
    /// A `lint` entry names an unknown level.
    InvalidLevel { lint: String, value: String },
}

/// ASCII lower-casing of UTF-8 bytes (`str::to_ascii_lowercase`).
pub open spec fn ascii_lower_bytes(b: Seq<u8>) -> Seq<u8> {
    b.map_values(|x: u8| if 65 <= x <= 90 { (x + 32) as u8 } else { x })
}

/// The level a config value names, case-insensitively: `allow`; `warn` or `warning`;
/// `deny` or `forbid`.
pub open spec fn level_from_text(s: Seq<char>) -> Option<LintLevel> {
    let l = ascii_lower_bytes(encode_utf8(s));
    if l == encode_utf8("allow"@) {
        Some(LintLevel::Allow)
    } else if l == encode_utf8("warn"@) || l == encode_utf8("warning"@) {
        Some(LintLevel::Warn)
    } else if l == encode_utf8("deny"@) || l == encode_utf8("forbid"@) {
        Some(LintLevel::Deny)
    } else {
        None
    }
}

fn bytes_eq(a: &[u8], b: &[u8]) -> (r: bool)
    ensures
        r == (a@ == b@),
{
    if a.len() != b.len() {
        return false;
    }
    let mut i: usize = 0;
    while i < a.len()
        invariant
            a@.len() == b@.len(),
            i <= a@.len(),
            forall|j: int| 0 <= j < i ==> a@[j] == b@[j],
        decreases a@.len() - i,
    {
        if a[i] != b[i] {
            return false;
        }
        i = i + 1;
    }
    proof {
        assert(a@ =~= b@);
    }
    true
}

/// Parse a level name from `sui-clippy.toml`.
pub fn parse_level(s: &str) -> (r: Option<LintLevel>)
    ensures
        r == level_from_text(s@),
{
    let b = s.as_bytes();
    let mut lower: Vec<u8> = Vec::new();
    let mut i: usize = 0;
    while i < b.len()
        invariant
            i <= b@.len(),
            lower@ == ascii_lower_bytes(b@).take(i as int),
        decreases b@.len() - i,
    {
        let x = b[i];
        let y = if 65 <= x && x <= 90 {
            x + 32
        } else {
            x
        };
        lower.push(y);
        i = i + 1;
        proof {
            assert(lower@ =~= ascii_lower_bytes(b@).take(i as int));
        }
    }
    proof {
        assert(lower@ =~= ascii_lower_bytes(b@));
    }
    let l = lower.as_slice();
    if bytes_eq(l, "allow".as_bytes()) {
        Some(LintLevel::Allow)
    } else if bytes_eq(l, "warn".as_bytes()) || bytes_eq(l, "warning".as_bytes()) {
        Some(LintLevel::Warn)
    } else if bytes_eq(l, "deny".as_bytes()) || bytes_eq(l, "forbid".as_bytes()) {
        Some(LintLevel::Deny)
    } else {
        None
    }
}

impl SuiClippyConfig {
    /// The level configured for `lint_id`, or `category_default` when the file does not set it.
    pub fn level_for(&self, lint_id: &str, category_default: LintLevel) -> (r: LintLevel)
        ensures
            r == (if self.lint_levels@.contains_key(lint_id@) {
                self.lint_levels@[lint_id@]
            } else {
                category_default
            }),
    {
        match self.lint_levels.get(lint_id) {
            Some(l) => *l,
            None => category_default,
        }
    }

    /// Whether every exclude pattern is short enough to be matched.
    pub fn exclude_fits(&self) -> (r: bool)
        ensures
            r == patterns_fit(self.exclude@),
    {
        let mut i: usize = 0;
        while i < self.exclude.len()
            invariant
                i <= self.exclude@.len(),
                forall|j: int| 0 <= j < i ==> encode_utf8((#[trigger] self.exclude@[j])@).len() < MAX_PATTERN_BYTES,
            decreases self.exclude@.len() - i,
        {
            let pat: &str = self.exclude[i].as_str();
            let n = pat.as_bytes().len();
            proof {
                assert(pat.spec_bytes() == encode_utf8(self.exclude@[i as int]@));
            }
            if n >= MAX_PATTERN_BYTES {
                return false;
            }
            i = i + 1;
        }
        true
    }

    /// `relative_path` uses `/` separators relative to the package root.
    pub fn is_excluded(&self, relative_path: &str) -> (r: bool)
        requires
            patterns_fit(self.exclude@),
        ensures
            r == exists|i: int|
                0 <= i < self.exclude@.len() && glob_matches(
                    #[trigger] self.exclude@[i]@,
                    relative_path@,
                ),
    {
        let mut i: usize = 0;
        while i < self.exclude.len()
            invariant
                i <= self.exclude@.len(),
                patterns_fit(self.exclude@),
                forall|j: int|
                    0 <= j < i ==> !glob_matches(#[trigger] self.exclude@[j]@, relative_path@),
            decreases self.exclude@.len() - i,
        {
            if glob_is_match(self.exclude[i].as_str(), relative_path) {
                return true;
            }
            i = i + 1;
        }
        false
    }
}


/// Every element is a string.
pub open spec fn all_strs(a: Seq<TomlSpec>) -> bool {
    forall|i: int| 0 <= i < a.len() ==> (#[trigger] a[i]) is Str
}

/// Every entry's value is a string.
pub open spec fn all_str_entries(es: Seq<(Seq<char>, TomlSpec)>) -> bool {
    forall|i: int| 0 <= i < es.len() ==> (#[trigger] es[i]).1 is Str
}

/// The string of a string value.
pub open spec fn str_of(v: TomlSpec) -> Seq<char> {
    match v {
        TomlSpec::Str(s) => s,
        _ => seq![],
    }
}

/// `exclude` is present but not an array of strings.
pub open spec fn exclude_invalid(doc: TomlSpec) -> bool {
    match toml_get(doc, "exclude"@) {
        None => false,
        Some(TomlSpec::Array(a)) => !all_strs(a),
        Some(_) => true,
    }
}

/// `lint` is present but not a table of strings.
pub open spec fn lint_table_invalid(doc: TomlSpec) -> bool {
    match toml_get(doc, "lint"@) {
        None => false,
        Some(TomlSpec::Table(es)) => !all_str_entries(es),
        Some(_) => true,
    }
}

/// The configured exclude patterns (none when `exclude` is absent).
pub open spec fn exclude_patterns(doc: TomlSpec) -> Seq<Seq<char>> {
    match get_array(doc, "exclude"@) {
        Some(a) => a.map_values(|v: TomlSpec| str_of(v)),
        None => seq![],
    }
}

/// The `lint` entries (none when `lint` is absent).
pub open spec fn lint_entries(doc: TomlSpec) -> Seq<(Seq<char>, TomlSpec)> {
    match get_table(doc, "lint"@) {
        Some(es) => es,
        None => seq![],
    }
}

/// Index of the first entry whose value names no level.
pub open spec fn first_bad_level(es: Seq<(Seq<char>, TomlSpec)>, from: int) -> Option<int>
    decreases es.len() - from,
{
    if from < 0 || from >= es.len() {
        None
    } else if level_from_text(str_of(es[from].1)) is None {
        Some(from)
    } else {
        first_bad_level(es, from + 1)
    }
}

/// The level map built from the entries, in order.
pub open spec fn levels_map(es: Seq<(Seq<char>, TomlSpec)>) -> Map<Seq<char>, LintLevel>
    decreases es.len(),
{
    if es.len() == 0 {
        Map::empty()
    } else {
        levels_map(es.drop_last()).insert(
            es.last().0,
            level_from_text(str_of(es.last().1)).unwrap(),
        )
    }
}

proof fn lemma_first_bad_level(es: Seq<(Seq<char>, TomlSpec)>, from: int)
    requires
        0 <= from,
    ensures
        first_bad_level(es, from) matches Some(i) ==> from <= i < es.len() && level_from_text(
            str_of(es[i].1),
        ) is None && forall|j: int| from <= j < i ==> level_from_text(str_of(es[j].1)) is Some,
        first_bad_level(es, from) is None ==> forall|j: int|
            from <= j < es.len() ==> level_from_text(str_of(es[j].1)) is Some,
    decreases es.len() - from,
{
    if from < es.len() && level_from_text(str_of(es[from].1)) is Some {
        lemma_first_bad_level(es, from + 1);
        assert forall|j: int| from <= j < es.len() && j < from + 1 implies level_from_text(
            str_of(es[j].1),
        ) is Some by {
            assert(j == from);
        }
    }
}

impl SuiClippyConfig {
    /// Reads the settings of a `sui-clippy.toml`: `exclude` (array of glob strings) and
    /// `lint` (table from lint id to level name); other keys are ignored.
    pub fn from_toml_str(text: &str) -> (r: Result<Self, ConfigError>)
        ensures
            (r matches Err(ConfigError::Parse(_))) <==> toml_document(text@) is None,
            toml_document(text@) matches Some(doc) ==> match r {
                Err(ConfigError::Parse(_)) => false,
                Err(ConfigError::InvalidExclude) => exclude_invalid(doc),
                Err(ConfigError::InvalidLintTable) => !exclude_invalid(doc) && lint_table_invalid(
                    doc,
                ),
                Err(ConfigError::InvalidLevel { lint, value }) => {
                    &&& !exclude_invalid(doc)
                    &&& !lint_table_invalid(doc)
                    &&& first_bad_level(lint_entries(doc), 0) is Some
                    &&& lint@ == lint_entries(doc)[first_bad_level(lint_entries(doc), 0).unwrap()].0
                    &&& value@ == str_of(
                        lint_entries(doc)[first_bad_level(lint_entries(doc), 0).unwrap()].1,
                    )
                },
                Ok(c) => {
                    &&& !exclude_invalid(doc)
                    &&& !lint_table_invalid(doc)
                    &&& first_bad_level(lint_entries(doc), 0) is None
                    &&& c.lint_levels@ == levels_map(lint_entries(doc))
                    &&& strings_view(c.exclude@) == exclude_patterns(doc)
                },
            },
    {
        let v = match parse_toml(text) {
            Ok(v) => v,
            Err(e) => {
                return Err(ConfigError::Parse(e));
            },
        };
        let exclude = match read_exclude(&v) {
            Some(ex) => ex,
            None => {
                return Err(ConfigError::InvalidExclude);
            },
        };
        let lint_levels = match value_get(&v, "lint") {
            None => {
                proof {
                    assert(lint_entries(toml_view(v)) =~= Seq::<(Seq<char>, TomlSpec)>::empty());
                }
                StringHashMap::new()
            },
            Some(TomlValue::Table(entries)) => {
                proof {
                    lemma_entries_len(entries@);
                }
                if !entries_all_str(entries) {
                    return Err(ConfigError::InvalidLintTable);
                }
                match read_levels(entries) {
                    Ok(m) => m,
                    Err(k) => {
                        proof {
                            lemma_entries_view_index(entries@, k as int);
                        }
                        let value: &str = match &entries[k].1 {
                            TomlValue::Str(s) => s.as_str(),
                            _ => "",
                        };
                        return Err(
                            ConfigError::InvalidLevel {
                                lint: entries[k].0.clone(),
                                value: value.to_string(),
                            },
                        );
                    },
                }
            },
            Some(_) => {
                return Err(ConfigError::InvalidLintTable);
            },
        };
        Ok(SuiClippyConfig { lint_levels, exclude })
    }
}

/// The `exclude` patterns, or `None` when `exclude` is not an array of strings.
fn read_exclude(v: &TomlValue) -> (r: Option<Vec<String>>)
    ensures
        r is None <==> exclude_invalid(toml_view(*v)),
        r matches Some(ex) ==> strings_view(ex@) == exclude_patterns(toml_view(*v)),
{
    let mut exclude: Vec<String> = Vec::new();
    match value_get(v, "exclude") {
        None => {
            proof {
                assert(strings_view(exclude@) =~= exclude_patterns(toml_view(*v)));
            }
            Some(exclude)
        },
        Some(TomlValue::Array(items)) => {
            proof {
                lemma_seq_view_len(items@);
            }
            let ghost a = toml_seq_view(items@);
            let mut i: usize = 0;
            while i < items.len()
                invariant
                    a == toml_seq_view(items@),
                    toml_get(toml_view(*v), "exclude"@) == Some(TomlSpec::Array(a)),
                    a.len() == items@.len(),
                    i <= items@.len(),
                    forall|j: int| 0 <= j < i ==> (#[trigger] a[j]) is Str,
                    strings_view(exclude@) == a.take(i as int).map_values(|v: TomlSpec| str_of(v)),
                decreases items@.len() - i,
            {
                proof {
                    lemma_seq_view_index(items@, i as int);
                }
                match &items[i] {
                    TomlValue::Str(s) => {
                        let ghost before = strings_view(exclude@);
                        exclude.push(s.clone());
                        proof {
                            assert(a[i as int] == TomlSpec::Str(s@));
                            assert(strings_view(exclude@) =~= before + seq![s@]);
                            assert(a.take(i + 1).map_values(|v: TomlSpec| str_of(v))
                                =~= a.take(i as int).map_values(|v: TomlSpec| str_of(v)) + seq![s@]);
                        }
                    },
                    _ => {
                        return None;
                    },
                }
                i = i + 1;
            }
            proof {
                assert(a.take(items@.len() as int) =~= a);
            }
            Some(exclude)
        },
        Some(_) => None,
    }
}

/// Every entry's value is a string.
fn entries_all_str(entries: &Vec<(String, TomlValue)>) -> (r: bool)
    ensures
        r == all_str_entries(toml_entries_view(entries@)),
{
    proof {
        lemma_entries_len(entries@);
    }
    let ghost es = toml_entries_view(entries@);
    let mut i: usize = 0;
    while i < entries.len()
        invariant
            es == toml_entries_view(entries@),
            es.len() == entries@.len(),
            i <= entries@.len(),
            forall|j: int| 0 <= j < i ==> (#[trigger] es[j]).1 is Str,
        decreases entries@.len() - i,
    {
        proof {
            lemma_entries_view_index(entries@, i as int);
        }
        match &entries[i].1 {
            TomlValue::Str(_) => {},
            _ => {
                return false;
            },
        }
        i = i + 1;
    }
    true
}

/// The level map of string entries, or the index of the first entry naming no level.
fn read_levels(entries: &Vec<(String, TomlValue)>) -> (r: Result<StringHashMap<LintLevel>, usize>)
    requires
        all_str_entries(toml_entries_view(entries@)),
    ensures
        match r {
            Ok(m) => first_bad_level(toml_entries_view(entries@), 0) is None && m@ == levels_map(
                toml_entries_view(entries@),
            ),
            Err(k) => first_bad_level(toml_entries_view(entries@), 0) == Some(k as int)
                && k < entries@.len(),
        },
{
    proof {
        lemma_entries_len(entries@);
    }
    let ghost es = toml_entries_view(entries@);
    let mut lint_levels: StringHashMap<LintLevel> = StringHashMap::new();
    let mut k: usize = 0;
    proof {
        assert(es.take(0) =~= Seq::<(Seq<char>, TomlSpec)>::empty());
    }
    while k < entries.len()
        invariant
            es == toml_entries_view(entries@),
            all_str_entries(es),
            es.len() == entries@.len(),
            k <= entries@.len(),
            forall|j: int| 0 <= j < k ==> level_from_text(str_of(#[trigger] es[j].1)) is Some,
            lint_levels@ == levels_map(es.take(k as int)),
        decreases entries@.len() - k,
    {
        proof {
            lemma_entries_view_index(entries@, k as int);
            assert(es[k as int].1 is Str);
        }
        let value: &str = match &entries[k].1 {
            TomlValue::Str(s) => s.as_str(),
            _ => "",
        };
        proof {
            assert(value@ == str_of(es[k as int].1));
        }
        match parse_level(value) {
            Some(level) => {
                lint_levels.insert(entries[k].0.clone(), level);
                proof {
                    assert(es.take(k + 1).drop_last() =~= es.take(k as int));
                    assert(es.take(k + 1).last() == es[k as int]);
                }
            },
            None => {
                proof {
                    lemma_first_bad_is(es, 0, k as int);
                }
                return Err(k);
            },
        }
        k = k + 1;
    }
    proof {
        assert(es.take(entries@.len() as int) =~= es);
        lemma_no_bad(es, 0);
    }
    Ok(lint_levels)
}

proof fn lemma_first_bad_is(es: Seq<(Seq<char>, TomlSpec)>, from: int, k: int)
    requires
        0 <= from <= k < es.len(),
        level_from_text(str_of(es[k].1)) is None,
        forall|j: int| from <= j < k ==> level_from_text(str_of(#[trigger] es[j].1)) is Some,
    ensures
        first_bad_level(es, from) == Some(k),
    decreases k - from,
{
    if from < k {
        lemma_first_bad_is(es, from + 1, k);
    }
}

proof fn lemma_no_bad(es: Seq<(Seq<char>, TomlSpec)>, from: int)
    requires
        0 <= from,
        forall|j: int| from <= j < es.len() ==> level_from_text(str_of(#[trigger] es[j].1)) is Some,
    ensures
        first_bad_level(es, from) is None,
    decreases es.len() - from,
{
    if from < es.len() {
        lemma_no_bad(es, from + 1);
    }
}

} // verus!
