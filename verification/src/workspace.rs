//! Package roots of a Move workspace: the members named under `[workspace].members`.
use vstd::prelude::*;
use vstd::utf8::encode_utf8;
use vstd::string::StringSliceAdditionalSpecFns;

use crate::config::strings_view;
use crate::paths::{is_move_file, path_extension};
use crate::order::{lemma_lex_irreflexive, lemma_lex_transitive, lex_less, lex_lt};
use crate::report::{path_key, path_sort_key};
use crate::seq_util::{filter_some, lemma_filter_some_take};
use crate::toml_model::{
    entries_get, entries_lookup, get_table, lemma_seq_view_index, lemma_seq_view_len, parse_toml,
    toml_document, toml_get, toml_seq_view, toml_view, value_get, TomlError, TomlSpec, TomlValue,
};

verus! {

/// A member entry's name, when it is a string.
pub open spec fn member_name(v: TomlSpec) -> Option<Seq<char>> {
    match v {
        TomlSpec::Str(s) => Some(s),
        _ => None,
    }
}

/// The string entries of `[workspace].members`, in order (none when the manifest has no
/// such array).
pub open spec fn workspace_members(doc: TomlSpec) -> Seq<Seq<char>> {
    match get_table(doc, "workspace"@) {
        Some(ws) => match entries_get(ws, "members"@) {
            Some(TomlSpec::Array(items)) => filter_some(items.map_values(|v: TomlSpec| member_name(v))),
            _ => seq![],
        },
        None => seq![],
    }
}

/// The member names listed by a workspace manifest; an error when the manifest is not
/// TOML.
pub fn workspace_member_names(raw_manifest: &str) -> (r: Result<Vec<String>, TomlError>)
    ensures
        r is Ok <==> toml_document(raw_manifest@) is Some,
        r matches Ok(v) ==> strings_view(v@) == workspace_members(toml_document(raw_manifest@)->0),
{
    let doc = match parse_toml(raw_manifest) {
        Ok(d) => d,
        Err(e) => {
            return Err(e);
        },
    };
    let ghost dv = toml_view(doc);
    let mut out: Vec<String> = Vec::new();
    let members = match value_get(&doc, "workspace") {
        Some(TomlValue::Table(entries)) => {
            proof {
                assert(get_table(dv, "workspace"@) == Some(crate::toml_model::toml_entries_view(entries@)));
            }
            entries_lookup(entries, "members")
        },
        _ => {
            proof {
                assert(strings_view(out@) =~= workspace_members(dv));
            }
            return Ok(out);
        },
    };
    match members {
        Some(TomlValue::Array(items)) => {
            proof {
                lemma_seq_view_len(items@);
            }
            let ghost a = toml_seq_view(items@);
            let ghost names = a.map_values(|v: TomlSpec| member_name(v));
            proof {
                assert(workspace_members(dv) == filter_some(names));
            }
            let mut i: usize = 0;
            while i < items.len()
                invariant
                    a == toml_seq_view(items@),
                    names == a.map_values(|v: TomlSpec| member_name(v)),
                    a.len() == items@.len(),
                    i <= items@.len(),
                    strings_view(out@) == filter_some(names.take(i as int)),
                decreases items@.len() - i,
            {
                proof {
                    lemma_seq_view_index(items@, i as int);
                    lemma_filter_some_take(names, i as int);
                }
                match &items[i] {
                    TomlValue::Str(s) => {
                        let ghost before = strings_view(out@);
                        out.push(s.clone());
                        proof {
                            assert(names[i as int] == Some(s@));
                            assert(strings_view(out@) =~= before + seq![s@]);
                        }
                    },
                    _ => {
                        proof {
                            assert(names[i as int] is None);
                        }
                    },
                }
                i = i + 1;
            }
            proof {
                assert(names.take(items@.len() as int) =~= names);
            }
            Ok(out)
        },
        _ => {
            proof {
                assert(strings_view(out@) =~= workspace_members(dv));
            }
            Ok(out)
        },
    }
}

/// The ordering key of a path string (the order of `std::path::Path`).
pub open spec fn pkey(s: Seq<char>) -> Seq<u32> {
    path_key(encode_utf8(s))
}

/// Each path is no less than the one before it.
pub open spec fn paths_sorted(s: Seq<Seq<char>>) -> bool {
    forall|i: int, j: int| 0 <= i < j < s.len() ==> !lex_lt(#[trigger] pkey(s[j]), #[trigger] pkey(s[i]))
}

/// `out` is `inp` rearranged by `perm`, and paths that order equal keep their input order.
pub open spec fn stable_path_reordering(out: Seq<Seq<char>>, inp: Seq<Seq<char>>, perm: Seq<int>) -> bool {
    &&& perm.len() == out.len()
    &&& out.len() == inp.len()
    &&& forall|i: int| 0 <= i < perm.len() ==> 0 <= #[trigger] perm[i] < inp.len()
    &&& forall|i: int, j: int| 0 <= i < j < perm.len() ==> #[trigger] perm[i] != #[trigger] perm[j]
    &&& forall|i: int| 0 <= i < out.len() ==> #[trigger] out[i] == inp[perm[i]]
    &&& forall|i: int, j: int|
        0 <= i < j < out.len() && pkey(#[trigger] out[i]) == pkey(#[trigger] out[j]) ==> perm[i] < perm[j]
}

/// The candidates whose manifest exists, in order.
pub open spec fn kept_candidates(cands: Seq<Seq<char>>, has_manifest: Seq<bool>) -> Seq<Seq<char>> {
    filter_some(Seq::new(cands.len(), |i: int| if has_manifest[i] { Some(cands[i]) } else { None }))
}

spec fn partial_sorted(out: Seq<Seq<char>>, inp: Seq<Seq<char>>, perm: Seq<int>, k: int) -> bool {
    &&& perm.len() == out.len()
    &&& out.len() == k
    &&& k <= inp.len()
    &&& forall|i: int| 0 <= i < perm.len() ==> 0 <= #[trigger] perm[i] < k
    &&& forall|i: int, j: int| 0 <= i < j < perm.len() ==> #[trigger] perm[i] != #[trigger] perm[j]
    &&& forall|i: int| 0 <= i < out.len() ==> #[trigger] out[i] == inp[perm[i]]
    &&& forall|i: int, j: int|
        0 <= i < j < out.len() && pkey(#[trigger] out[i]) == pkey(#[trigger] out[j]) ==> perm[i] < perm[j]
    &&& paths_sorted(out)
}

proof fn lemma_insert_keeps_sorted(out: Seq<Seq<char>>, inp: Seq<Seq<char>>, perm: Seq<int>, k: int, p: int, d: Seq<char>)
    requires
        partial_sorted(out, inp, perm, k),
        k < inp.len(),
        inp[k] == d,
        0 <= p <= out.len(),
        forall|j: int| 0 <= j < p ==> !lex_lt(pkey(d), #[trigger] pkey(out[j])),
        p < out.len() ==> lex_lt(pkey(d), pkey(out[p])),
    ensures
        partial_sorted(out.insert(p, d), inp, perm.insert(p, k), k + 1),
{
    let o2 = out.insert(p, d);
    let p2 = perm.insert(p, k);
    assert forall|i: int| 0 <= i < o2.len() implies #[trigger] o2[i] == inp[p2[i]] by {
        if i > p {
            assert(o2[i] == out[i - 1]);
            assert(p2[i] == perm[i - 1]);
        }
    }
    assert forall|i: int| 0 <= i < p2.len() implies 0 <= #[trigger] p2[i] < k + 1 by {
        if i > p {
            assert(p2[i] == perm[i - 1]);
        }
    }
    assert forall|i: int, j: int| 0 <= i < j < p2.len() implies #[trigger] p2[i] != #[trigger] p2[j] by {
        let ii = if i < p { i } else { i - 1 };
        let jj = if j < p { j } else { j - 1 };
        if i != p && j != p {
            assert(p2[i] == perm[ii]);
            assert(p2[j] == perm[jj]);
        } else if i == p {
            assert(p2[j] == perm[jj]);
        } else {
            assert(p2[i] == perm[ii]);
        }
    }
    assert forall|i: int, j: int| 0 <= i < j < o2.len() implies !lex_lt(
        #[trigger] pkey(o2[j]),
        #[trigger] pkey(o2[i]),
    ) by {
        if j < p {
            assert(o2[i] == out[i] && o2[j] == out[j]);
        } else if j == p {
            assert(o2[i] == out[i]);
        } else if i == p {
            assert(o2[j] == out[j - 1]);
            if lex_lt(pkey(out[j - 1]), pkey(d)) {
                if j - 1 == p {
                    lemma_lex_transitive(pkey(out[p]), pkey(d), pkey(out[p]));
                    lemma_lex_irreflexive(pkey(out[p]));
                } else {
                    lemma_lex_transitive(pkey(out[j - 1]), pkey(d), pkey(out[p]));
                    assert(!lex_lt(pkey(out[j - 1]), pkey(out[p])));
                }
            }
        } else if i < p {
            assert(o2[i] == out[i] && o2[j] == out[j - 1]);
        } else {
            assert(o2[i] == out[i - 1] && o2[j] == out[j - 1]);
        }
    }
    assert forall|i: int, j: int|
        0 <= i < j < o2.len() && pkey(#[trigger] o2[i]) == pkey(#[trigger] o2[j]) implies p2[i] < p2[j] by {
        if j < p {
            assert(o2[i] == out[i] && o2[j] == out[j]);
            assert(p2[i] == perm[i] && p2[j] == perm[j]);
        } else if j == p {
            assert(p2[i] == perm[i]);
        } else if i == p {
            assert(o2[j] == out[j - 1]);
            if j - 1 == p {
                lemma_lex_irreflexive(pkey(d));
            } else {
                assert(!lex_lt(pkey(out[j - 1]), pkey(out[p])));
            }
        } else if i < p {
            assert(o2[i] == out[i] && o2[j] == out[j - 1]);
            assert(p2[i] == perm[i] && p2[j] == perm[j - 1]);
        } else {
            assert(o2[i] == out[i - 1] && o2[j] == out[j - 1]);
            assert(p2[i] == perm[i - 1] && p2[j] == perm[j - 1]);
        }
    }
}

/// Paths in the order of `std::path::Path`; paths that order equal keep their order.
pub fn sort_paths(paths: Vec<String>) -> (r: Vec<String>)
    ensures
        paths_sorted(strings_view(r@)),
        exists|perm: Seq<int>| stable_path_reordering(strings_view(r@), strings_view(paths@), perm),
{
    let ghost inp = strings_view(paths@);
    let n = paths.len();
    let mut out: Vec<String> = Vec::new();
    let mut keys: Vec<Vec<u32>> = Vec::new();
    let ghost mut perm: Seq<int> = seq![];
    let mut k: usize = 0;
    while k < n
        invariant
            n == inp.len(),
            inp == strings_view(paths@),
            k <= n,
            keys@.len() == out@.len(),
            forall|j: int| 0 <= j < keys@.len() ==> (#[trigger] keys@[j])@ == pkey(out@[j]@),
            partial_sorted(strings_view(out@), inp, perm, k as int),
        decreases n - k,
    {
        let d = paths[k].clone();
        let key = path_sort_key(d.as_str());
        let mut p: usize = 0;
        while p < out.len() && !lex_less(&key, &keys[p])
            invariant
                p <= out@.len(),
                keys@.len() == out@.len(),
                forall|j: int| 0 <= j < keys@.len() ==> (#[trigger] keys@[j])@ == pkey(out@[j]@),
                forall|j: int| 0 <= j < p ==> !lex_lt(pkey(d@), #[trigger] pkey(strings_view(out@)[j])),
                key@ == pkey(d@),
            decreases out@.len() - p,
        {
            p = p + 1;
        }
        proof {
            lemma_insert_keeps_sorted(strings_view(out@), inp, perm, k as int, p as int, d@);
            perm = perm.insert(p as int, k as int);
        }
        let ghost old_out = out@;
        out.insert(p, d);
        keys.insert(p, key);
        proof {
            assert(strings_view(out@) =~= strings_view(old_out).insert(p as int, inp[k as int]));
            assert forall|j: int| 0 <= j < keys@.len() implies (#[trigger] keys@[j])@ == pkey(out@[j]@) by {
                if j > p {
                    assert(out@[j] == old_out[j - 1]);
                }
            }
        }
        k = k + 1;
    }
    proof {
        assert(stable_path_reordering(strings_view(out@), inp, perm));
    }
    out
}

/// The package roots of a workspace: the member directories that have a manifest, in path
/// order; the workspace directory itself when there is none.
pub fn select_package_roots(workspace_dir: &str, candidates: Vec<String>, has_manifest: &Vec<bool>) -> (r: Vec<
    String,
>)
    requires
        candidates@.len() == has_manifest@.len(),
    ensures
        kept_candidates(strings_view(candidates@), has_manifest@).len() == 0 ==> strings_view(r@) == seq![
            workspace_dir@,
        ],
        kept_candidates(strings_view(candidates@), has_manifest@).len() > 0 ==> {
            &&& paths_sorted(strings_view(r@))
            &&& exists|perm: Seq<int>|
                stable_path_reordering(
                    strings_view(r@),
                    kept_candidates(strings_view(candidates@), has_manifest@),
                    perm,
                )
        },
{
    let ghost cs = strings_view(candidates@);
    let ghost opts = Seq::new(cs.len(), |i: int| if has_manifest@[i] { Some(cs[i]) } else { None });
    let mut kept: Vec<String> = Vec::new();
    let mut i: usize = 0;
    while i < candidates.len()
        invariant
            candidates@.len() == has_manifest@.len(),
            cs == strings_view(candidates@),
            opts == Seq::new(cs.len(), |i: int| if has_manifest@[i] { Some(cs[i]) } else { None }),
            i <= candidates@.len(),
            strings_view(kept@) == filter_some(opts.take(i as int)),
        decreases candidates@.len() - i,
    {
        proof {
            lemma_filter_some_take(opts, i as int);
        }
        if has_manifest[i] {
            let ghost before = strings_view(kept@);
            kept.push(candidates[i].clone());
            proof {
                assert(strings_view(kept@) =~= before + seq![cs[i as int]]);
            }
        }
        i = i + 1;
    }
    proof {
        assert(opts.take(cs.len() as int) =~= opts);
    }
    if kept.len() == 0 {
        let mut r: Vec<String> = Vec::new();
        r.push(workspace_dir.to_string());
        proof {
            assert(strings_view(r@) =~= seq![workspace_dir@]);
        }
        return r;
    }
    sort_paths(kept)
}

/// Each path, kept when it names a Move source file.
pub open spec fn move_file_options(paths: Seq<Seq<char>>) -> Seq<Option<Seq<char>>> {
    paths.map_values(|p: Seq<char>| if path_extension(p) == Some("move"@) { Some(p) } else { None })
}

/// The Move source files among `paths`, in order.
pub open spec fn move_files_among(paths: Seq<Seq<char>>) -> Seq<Seq<char>> {
    filter_some(move_file_options(paths))
}

/// The Move source files among the files found under `sources/`, in path order.
pub fn move_sources(files: Vec<String>) -> (r: Vec<String>)
    ensures
        paths_sorted(strings_view(r@)),
        exists|perm: Seq<int>| stable_path_reordering(strings_view(r@), move_files_among(strings_view(files@)), perm),
{
    let ghost fs = strings_view(files@);
    let ghost opts = move_file_options(fs);
    let mut kept: Vec<String> = Vec::new();
    let mut i: usize = 0;
    while i < files.len()
        invariant
            fs == strings_view(files@),
            opts == move_file_options(fs),
            i <= files@.len(),
            strings_view(kept@) == filter_some(opts.take(i as int)),
        decreases files@.len() - i,
    {
        proof {
            lemma_filter_some_take(opts, i as int);
        }
        if is_move_file(files[i].as_str()) {
            let ghost before = strings_view(kept@);
            kept.push(files[i].clone());
            proof {
                assert(strings_view(kept@) =~= before + seq![fs[i as int]]);
            }
        }
        i = i + 1;
    }
    proof {
        assert(opts.take(fs.len() as int) =~= opts);
        assert(strings_view(kept@) == move_files_among(fs));
    }
    let ghost inp = strings_view(kept@);
    let r = sort_paths(kept);
    proof {
        let perm = choose|perm: Seq<int>| stable_path_reordering(strings_view(r@), inp, perm);
        assert(stable_path_reordering(strings_view(r@), move_files_among(fs), perm));
    }
    r
}

} // verus!
