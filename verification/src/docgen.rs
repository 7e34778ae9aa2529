//! The lint reference pages: a Markdown table of every lint and the HTML lint list.
use vstd::prelude::*;
use vstd::string::StringExecFns;

use crate::catalog::{category_label, level_label};
use crate::lint_meta::{category_default_level, LintDef};
use crate::order::{lemma_lex_irreflexive, lemma_lex_transitive, lex_less, lex_lt};
use crate::report::{decimal, decimal_string};
use crate::sarif::{str_key, str_key_of};
use crate::text::{replace_ascii, replace_char};

verus! {

/// Text made safe for one Markdown table cell: `|` escaped, newlines as spaces.
pub open spec fn md_cell_spec(s: Seq<char>) -> Seq<char> {
    replace_char(replace_char(s, '|', "\\|"@), '\n', " "@)
}

pub fn md_cell(s: &str) -> (r: String)
    ensures
        r@ == md_cell_spec(s@),
{
    let escaped = replace_ascii(s, 124, "\\|");
    let r = replace_ascii(escaped.as_str(), 10, " ");
    proof {
        assert(124u8 as char == '|');
        assert(10u8 as char == '\n');
        reveal_strlit("\\|");
        reveal_strlit(" ");
    }
    r
}

/// Every `|` of `t` is preceded by a backslash.
pub open spec fn pipes_escaped(t: Seq<char>) -> bool {
    forall|i: int| 0 <= i < t.len() && #[trigger] t[i] == '|' ==> i > 0 && t[i - 1] == '\\'
}

proof fn lemma_escape_pipes(s: Seq<char>)
    ensures
        pipes_escaped(replace_char(s, '|', "\\|"@)),
    decreases s.len(),
{
    reveal_strlit("\\|");
    if s.len() > 0 {
        lemma_escape_pipes(s.drop_first());
        let h: Seq<char> = if s[0] == '|' { "\\|"@ } else { seq![s[0]] };
        let rest = replace_char(s.drop_first(), '|', "\\|"@);
        let t = replace_char(s, '|', "\\|"@);
        assert(t == h + rest);
        assert forall|i: int| 0 <= i < t.len() && #[trigger] t[i] == '|' implies i > 0 && t[i - 1] == '\\' by {
            if i >= h.len() {
                assert(t[i] == rest[i - h.len()]);
                if i - h.len() > 0 {
                    assert(t[i - 1] == rest[i - h.len() - 1]);
                }
            }
        }
    }
}

proof fn lemma_replace_one_for_one(x: Seq<char>, c: char, d: char)
    ensures
        replace_char(x, c, seq![d]).len() == x.len(),
        forall|i: int|
            0 <= i < x.len() ==> #[trigger] replace_char(x, c, seq![d])[i] == (if x[i] == c {
                d
            } else {
                x[i]
            }),
    decreases x.len(),
{
    if x.len() > 0 {
        lemma_replace_one_for_one(x.drop_first(), c, d);
        let t = replace_char(x, c, seq![d]);
        let rest = replace_char(x.drop_first(), c, seq![d]);
        assert forall|i: int| 0 <= i < x.len() implies #[trigger] t[i] == (if x[i] == c { d } else { x[i] }) by {
            if i > 0 {
                assert(t[i] == rest[i - 1]);
                assert(x.drop_first()[i - 1] == x[i]);
            }
        }
    }
}

/// A Markdown cell never breaks the table: it has no newline, and each `|` in it is
/// escaped.
pub proof fn lemma_md_cell_is_one_cell(s: Seq<char>)
    ensures
        forall|i: int| 0 <= i < md_cell_spec(s).len() ==> md_cell_spec(s)[i] != '\n',
        pipes_escaped(md_cell_spec(s)),
{
    reveal_strlit(" ");
    let e = replace_char(s, '|', "\\|"@);
    lemma_escape_pipes(s);
    assert(" "@ == seq![' ']);
    lemma_replace_one_for_one(e, '\n', ' ');
    let t = md_cell_spec(s);
    assert forall|i: int| 0 <= i < t.len() && #[trigger] t[i] == '|' implies i > 0 && t[i - 1] == '\\' by {
        assert(e[i] == '|');
    }
}

/// The ordering key of a lint: its id, byte by byte.
pub open spec fn id_key(d: LintDef) -> Seq<u32> {
    str_key(d.id@)
}

/// Lints ordered by id.
pub open spec fn defs_sorted(s: Seq<LintDef>) -> bool {
    forall|i: int, j: int| 0 <= i < j < s.len() ==> !lex_lt(#[trigger] id_key(s[j]), #[trigger] id_key(s[i]))
}

/// The lints ordered by id.
pub fn sort_lint_defs(defs: Vec<LintDef>) -> (r: Vec<LintDef>)
    ensures
        defs_sorted(r@),
        r@.to_multiset() == defs@.to_multiset(),
{
    broadcast use vstd::seq_lib::group_to_multiset_ensures;

    let mut out: Vec<LintDef> = Vec::new();
    let mut keys: Vec<Vec<u32>> = Vec::new();
    let mut k: usize = 0;
    proof {
        assert(defs@.take(0) =~= Seq::<LintDef>::empty());
    }
    while k < defs.len()
        invariant
            k <= defs@.len(),
            keys@.len() == out@.len(),
            forall|j: int| 0 <= j < keys@.len() ==> (#[trigger] keys@[j])@ == id_key(out@[j]),
            defs_sorted(out@),
            out@.to_multiset() == defs@.take(k as int).to_multiset(),
        decreases defs@.len() - k,
    {
        let d = defs[k];
        let key = str_key_of(d.id);
        let mut p: usize = 0;
        while p < out.len() && !lex_less(&key, &keys[p])
            invariant
                p <= out@.len(),
                keys@.len() == out@.len(),
                forall|j: int| 0 <= j < keys@.len() ==> (#[trigger] keys@[j])@ == id_key(out@[j]),
                forall|j: int| 0 <= j < p ==> !lex_lt(id_key(d), #[trigger] id_key(out@[j])),
                key@ == id_key(d),
            decreases out@.len() - p,
        {
            p = p + 1;
        }
        let ghost old_out = out@;
        out.insert(p, d);
        keys.insert(p, key);
        proof {
            assert forall|j: int| 0 <= j < keys@.len() implies (#[trigger] keys@[j])@ == id_key(out@[j]) by {
                if j > p {
                    assert(out@[j] == old_out[j - 1]);
                }
            }
            assert forall|i: int, j: int| 0 <= i < j < out@.len() implies !lex_lt(
                #[trigger] id_key(out@[j]),
                #[trigger] id_key(out@[i]),
            ) by {
                if j < p {
                    assert(out@[i] == old_out[i] && out@[j] == old_out[j]);
                } else if j == p {
                    assert(out@[i] == old_out[i]);
                } else if i == p {
                    assert(out@[j] == old_out[j - 1]);
                    if lex_lt(id_key(old_out[j - 1]), id_key(d)) {
                        if j - 1 == p {
                            lemma_lex_transitive(id_key(old_out[p as int]), id_key(d), id_key(old_out[p as int]));
                            lemma_lex_irreflexive(id_key(old_out[p as int]));
                        } else {
                            lemma_lex_transitive(id_key(old_out[j - 1]), id_key(d), id_key(old_out[p as int]));
                            assert(!lex_lt(id_key(old_out[j - 1]), id_key(old_out[p as int])));
                        }
                    }
                } else if i < p {
                    assert(out@[i] == old_out[i] && out@[j] == old_out[j - 1]);
                } else {
                    assert(out@[i] == old_out[i - 1] && out@[j] == old_out[j - 1]);
                }
            }
            vstd::seq_lib::to_multiset_insert(old_out, p as int, d);
            assert(defs@.take(k + 1) =~= defs@.take(k as int).push(d));
            vstd::seq_lib::to_multiset_build(defs@.take(k as int), d);
        }
        k = k + 1;
    }
    proof {
        assert(defs@.take(defs@.len() as int) =~= defs@);
    }
    out
}

/// The Markdown lint index before its rows.
pub const MD_HEADER: &'static str = "# Lint index (generated)\n\n> This file is produced by `cargo run -p sui-clippy-docgen`. Do not edit by hand.\n\nSee the [Lint categories](lints.md) chapter for what each group means.\n\n| Lint ID | Category | Default level | Documentation |\n|---------|----------|---------------|---------------|\n";

/// One row of the Markdown lint index.
pub open spec fn md_row(d: LintDef) -> Seq<char> {
    "| [`"@ + d.id@ + "`](lints_generated.html#"@ + d.id@ + ") | `"@ + category_label(d.category) + "` | `"@
        + level_label(category_default_level(d.category)) + "` | "@ + md_cell_spec(d.doc@) + " |\n"@
}

pub open spec fn md_rows(defs: Seq<LintDef>) -> Seq<char>
    decreases defs.len(),
{
    if defs.len() == 0 {
        seq![]
    } else {
        md_rows(defs.drop_last()) + md_row(defs.last())
    }
}

/// The Markdown lint index: a table with one row per lint, in the given order.
pub fn lints_markdown(defs: &Vec<LintDef>) -> (r: String)
    ensures
        r@ == MD_HEADER@ + md_rows(defs@),
{
    let mut out = MD_HEADER.to_string();
    let mut k: usize = 0;
    while k < defs.len()
        invariant
            k <= defs@.len(),
            out@ == MD_HEADER@ + md_rows(defs@.take(k as int)),
        decreases defs@.len() - k,
    {
        let d = defs[k];
        out.append("| [`");
        out.append(d.id);
        out.append("`](lints_generated.html#");
        out.append(d.id);
        out.append(") | `");
        out.append(d.category.label());
        out.append("` | `");
        out.append(d.category.default_level().label());
        out.append("` | ");
        out.append(md_cell(d.doc).as_str());
        out.append(" |\n");
        proof {
            assert(defs@.take(k + 1).drop_last() =~= defs@.take(k as int));
            assert(defs@.take(k + 1).last() == d);
            assert(out@ =~= MD_HEADER@ + md_rows(defs@.take(k + 1)));
        }
        k = k + 1;
    }
    proof {
        assert(defs@.take(defs@.len() as int) =~= defs@);
    }
    out
}

/// The HTML lint list before the rule count.
pub const HTML_HEAD: &'static str = "<!DOCTYPE html>\n<html lang=\"en\">\n<head>\n  <meta charset=\"utf-8\"/>\n  <meta name=\"viewport\" content=\"width=device-width, initial-scale=1\"/>\n  <title>sui-clippy lints</title>\n  <link rel=\"stylesheet\" href=\"style.css\"/>\n</head>\n<body>\n  <header class=\"page-header\">\n    <h1>sui-clippy lints <span class=\"badge\">";

/// Between the rule count and the lints' JSON.
pub const HTML_MID: &'static str = " rules</span></h1>\n    <p class=\"subtitle\">Sui Move linter \u{2014} same idea as <a href=\"https://rust-lang.github.io/rust-clippy/stable/index.html\">rust-clippy\u{2019}s lint list</a>.</p>\n  </header>\n  <div class=\"toolbar\">\n    <label for=\"q\">Search</label>\n    <input id=\"q\" type=\"search\" placeholder=\"id, category, or doc text\u{2026}\" autocomplete=\"off\"/>\n    <label for=\"cat\">Category</label>\n    <select id=\"cat\"><option value=\"\">(all)</option></select>\n  </div>\n  <table id=\"lint-table\">\n    <thead><tr><th>Lint</th><th>Category</th><th>Default</th><th>Documentation</th></tr></thead>\n    <tbody id=\"lint-body\"></tbody>\n  </table>\n  <p class=\"footer\">Generated from crate metadata \u{b7} <a href=\"https://github.com/hoh/sui-clippy\">repository</a></p>\n  <script type=\"application/json\" id=\"lint-json\">";

/// After the lints' JSON.
pub const HTML_TAIL: &'static str = "</script>\n  <script src=\"script.js\"></script>\n</body>\n</html>";

/// The HTML lint list page for `count` lints described by `lints_json`.
pub fn lint_list_html(count: u32, lints_json: &str) -> (r: String)
    ensures
        r@ == HTML_HEAD@ + decimal(count as nat) + HTML_MID@ + lints_json@ + HTML_TAIL@,
{
    let mut out = HTML_HEAD.to_string();
    out.append(decimal_string(count).as_str());
    out.append(HTML_MID);
    out.append(lints_json);
    out.append(HTML_TAIL);
    out
}

} // verus!
