//! Safe, opt-in manifest edits (explicit command-line flag only).
use vstd::prelude::*;
use vstd::string::{StringExecFns, StringSliceAdditionalSpecFns};

use crate::chars::{chars_of, range_eq, trim, trim_bounds};
use crate::lints::text_lines;
use crate::manifest::has_key;
use crate::source_file::str_lines;
use crate::toml_model::{entries_lookup, get_table, parse_toml, toml_document, toml_view, value_get, TomlError, TomlSpec, TomlValue};

verus! {

/// Why the edition could not be inserted.
#[derive(Debug, Clone)]
pub enum FixError {
    /// The manifest is not a TOML document.
    Parse(TomlError),
    /// The manifest has no `[package]` table.
    NoPackageTable,
    /// The `package` table has no `[package]` header line (it is written inline or with
    /// dotted keys), so there is no line for `edition` to follow.
    NoPackageLine,
}

/// The first index at or after `i` whose character is not a space or a tab (or `i`
/// itself when it is past the end).
pub open spec fn skip_blanks(t: Seq<char>, i: int) -> int
    decreases t.len() - i,
{
    if 0 <= i < t.len() && (t[i] == ' ' || t[i] == '\t') {
        skip_blanks(t, i + 1)
    } else {
        i
    }
}

/// The line is the header of the `package` table: `[package]`, with blanks allowed
/// inside the brackets, followed by nothing but blanks and an optional `#` comment.
pub open spec fn is_package_header(line: Seq<char>) -> bool {
    let t = trim(line);
    let a = skip_blanks(t, 1);
    let b = skip_blanks(t, a + 7);
    let c = skip_blanks(t, b + 1);
    &&& t.len() > 0 && t[0] == '['
    &&& a + 7 <= t.len() && t.subrange(a, a + 7) == "package"@
    &&& b < t.len() && t[b] == ']'
    &&& (c == t.len() || t[c] == '#')
}

/// The text from line `i` on, each line followed by `\n`, with `edition = "<edition>"`
/// inserted after the first `[package]` header line; the flag tells whether the
/// insertion happened.
pub open spec fn edition_scan(lines: Seq<Seq<char>>, edition: Seq<char>, i: int, inserted: bool) -> (Seq<char>, bool)
    decreases lines.len() - i,
{
    if i < 0 || i >= lines.len() {
        (seq![], inserted)
    } else {
        let out_line = lines[i] + "\n"@;
        if !inserted && is_package_header(lines[i]) {
            let r = edition_scan(lines, edition, i + 1, true);
            (out_line + "edition = \""@ + edition + "\"\n"@ + r.0, r.1)
        } else {
            let r = edition_scan(lines, edition, i + 1, inserted);
            (out_line + r.0, r.1)
        }
    }
}

/// `skip_blanks` over a character vector.
fn skip_blanks_in(t: &Vec<char>, i: usize) -> (r: usize)
    requires
        i <= t@.len() + 8,
    ensures
        r == skip_blanks(t@, i as int),
        i <= r,
        r <= t@.len() + 8,
        i <= t@.len() ==> r <= t@.len(),
{
    let mut j = i;
    while j < t.len() && (t[j] == ' ' || t[j] == '\t')
        invariant
            i <= j <= t@.len() + 8,
            skip_blanks(t@, j as int) == skip_blanks(t@, i as int),
            i <= t@.len() ==> j <= t@.len(),
        decreases t@.len() + 8 - j,
    {
        j = j + 1;
    }
    j
}

/// Whether `line` is a `[package]` header line.
fn package_header(line: &str) -> (r: bool)
    ensures
        r == is_package_header(line@),
{
    let cs = chars_of(line);
    let (s, e) = trim_bounds(&cs);
    let mut t: Vec<char> = Vec::new();
    let mut k = s;
    while k < e
        invariant
            s <= k <= e <= cs@.len(),
            t@ == cs@.subrange(s as int, k as int),
        decreases e - k,
    {
        t.push(cs[k]);
        k = k + 1;
        proof {
            assert(t@ =~= cs@.subrange(s as int, k as int));
        }
    }
    proof {
        assert(t@ == trim(line@));
    }
    if t.len() == 0 || t[0] != '[' {
        return false;
    }
    let a = skip_blanks_in(&t, 1);
    if a > t.len() || t.len() - a < 7 {
        return false;
    }
    let p = chars_of("package");
    if !range_eq(&t, a, a + 7, &p) {
        return false;
    }
    let b = skip_blanks_in(&t, a + 7);
    if b >= t.len() || t[b] != ']' {
        return false;
    }
    let c = skip_blanks_in(&t, b + 1);
    c == t.len() || (c < t.len() && t[c] == '#')
}

/// The manifest text with `edition = "<edition>"` inserted right after the `[package]`
/// header line when the `package` table has no `edition`: `Ok(None)` when it already has
/// one.
pub fn add_default_edition(raw: &str, edition: &str) -> (r: Result<Option<String>, FixError>)
    requires
        raw.spec_bytes().len() < u32::MAX,
    ensures
        (r matches Err(FixError::Parse(_))) <==> toml_document(raw@) is None,
        toml_document(raw@) matches Some(doc) ==> match get_table(doc, "package"@) {
            None => r matches Err(FixError::NoPackageTable),
            Some(pkg) => if has_key(pkg, "edition"@) {
                r matches Ok(None)
            } else {
                let (out, ins) = edition_scan(text_lines(raw@), edition@, 0, false);
                if ins {
                    r matches Ok(Some(s)) && s@ == out
                } else {
                    r matches Err(FixError::NoPackageLine)
                }
            },
        },
{
    let value = match parse_toml(raw) {
        Ok(v) => v,
        Err(e) => {
            return Err(FixError::Parse(e));
        },
    };
    let pkg = match value_get(&value, "package") {
        Some(TomlValue::Table(t)) => t,
        _ => {
            return Err(FixError::NoPackageTable);
        },
    };
    if entries_lookup(pkg, "edition").is_some() {
        return Ok(None);
    }
    let lines = str_lines(raw);
    let ghost ls = text_lines(raw@);
    let mut out = String::new();
    let mut inserted = false;
    let mut i: usize = 0;
    proof {
        assert(out@ + edition_scan(ls, edition@, 0, false).0 =~= edition_scan(ls, edition@, 0, false).0);
    }
    while i < lines.len()
        invariant
            lines@.len() == ls.len(),
            ls == text_lines(raw@),
            forall|j: int| 0 <= j < lines@.len() ==> (#[trigger] lines@[j])@ == ls[j],
            i <= lines@.len(),
            out@ + edition_scan(ls, edition@, i as int, inserted).0 == edition_scan(ls, edition@, 0, false).0,
            edition_scan(ls, edition@, i as int, inserted).1 == edition_scan(ls, edition@, 0, false).1,
        decreases lines@.len() - i,
    {
        let line = lines[i];
        let ghost before = out@;
        out.append(line);
        out.append("\n");
        if !inserted && package_header(line) {
            out.append("edition = \"");
            out.append(edition);
            out.append("\"\n");
            proof {
                assert(before + edition_scan(ls, edition@, i as int, inserted).0 =~= out@
                    + edition_scan(ls, edition@, i + 1, true).0);
            }
            inserted = true;
        } else {
            proof {
                assert(before + edition_scan(ls, edition@, i as int, inserted).0 =~= out@
                    + edition_scan(ls, edition@, i + 1, inserted).0);
            }
        }
        i = i + 1;
    }
    proof {
        assert(out@ =~= edition_scan(ls, edition@, 0, false).0);
    }
    if !inserted {
        return Err(FixError::NoPackageLine);
    }
    Ok(Some(out))
}

} // verus!
