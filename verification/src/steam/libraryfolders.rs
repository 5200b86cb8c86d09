//! The Steam library folders listed in `libraryfolders.vdf`.

use crate::order::{
    goes_before, is_stable_order, key_views, keys_equal, lemma_lex_transitive,
    lemma_stable_order_is_permutation, lex_lt, permuted, stable_sort,
};
use crate::paths::{path_key, path_order_key};
use crate::steam::locations::string_views;
use crate::steam::SteamError;
use crate::text::{has_prefix, push_str};
use crate::vdf::{
    as_obj, entry_str, get_str, parse_vdf, parsed_vdf_text, value_obj, VdfDocument, VdfValue,
};
use vstd::prelude::*;

verus! {

/// The `path` string of one library entry (an object).
pub open spec fn folder_path(v: VdfValue) -> Option<Seq<char>> {
    match as_obj(v) {
        Some(o) => get_str(o, "path"@),
        None => None,
    }
}

/// The `path` strings of the library entries, in document order.
pub open spec fn folder_paths(entries: Seq<(String, VdfValue)>) -> Seq<Seq<char>>
    decreases entries.len(),
{
    if entries.len() == 0 {
        seq![]
    } else {
        let rest = folder_paths(entries.drop_last());
        match folder_path(entries.last().1) {
            Some(p) => rest.push(p),
            None => rest,
        }
    }
}

/// The library paths a parsed `libraryfolders.vdf` document lists: the
/// `path` of each entry of its root object, or `None` when the root value
/// is not an object.
pub open spec fn doc_libraries(doc: VdfDocument) -> Option<Seq<Seq<char>>> {
    match as_obj(doc.value) {
        None => None,
        Some(e) => Some(folder_paths(e)),
    }
}

/// The library paths that a `libraryfolders.vdf` text lists: `None` when it
/// does not parse or its root value is not an object.
pub open spec fn listed_libraries(text: Seq<char>) -> Option<Seq<Seq<char>>> {
    match parsed_vdf_text(text) {
        None => None,
        Some(doc) => doc_libraries(doc),
    }
}

/// The library paths a parsed `libraryfolders.vdf` document lists, in
/// document order (see [`doc_libraries`]).
pub fn library_paths_of(doc: &VdfDocument) -> (res: Option<Vec<String>>)
    ensures
        res is None <==> doc_libraries(*doc) is None,
        res matches Some(v) ==> doc_libraries(*doc) == Some(string_views(v@)),
{
    let entries = match value_obj(&doc.value) {
        Some(e) => e,
        None => return None,
    };
    let mut out: Vec<String> = Vec::new();
    let mut i: usize = 0;
    while i < entries.len()
        invariant
            i <= entries@.len(),
            string_views(out@) == folder_paths(entries@.take(i as int)),
        decreases entries@.len() - i,
    {
        assert(entries@.take(i + 1).drop_last() =~= entries@.take(i as int));
        assert(entries@.take(i + 1).last() == entries@[i as int]);
        match value_obj(&entries[i].1) {
            Some(o) => match entry_str(o, "path") {
                Some(p) => {
                    out.push(p.clone());
                },
                None => {},
            },
            None => {},
        }
        assert(string_views(out@) =~= folder_paths(entries@.take(i + 1)));
        i = i + 1;
    }
    assert(entries@.take(entries@.len() as int) =~= entries@);
    Some(out)
}

/// The library paths listed in the text of `libraryfolders.vdf`, in
/// document order. Errors: the text does not parse (a `Parse` error whose
/// message starts with `libraryfolders.vdf: `), or its root value is not an
/// object (`Parse("libraryfolders.vdf: root value is not an object")`).
pub fn library_folder_paths(text: &str) -> (res: Result<Vec<String>, SteamError>)
    ensures
        res is Ok <==> listed_libraries(text@) is Some,
        res matches Ok(v) ==> listed_libraries(text@) == Some(string_views(v@)),
        res matches Err(e) ==> (e matches SteamError::Parse(m) && has_prefix(
            m@,
            "libraryfolders.vdf: "@,
        )),
        res matches Err(e) ==> (parsed_vdf_text(text@) is Some ==> (e matches SteamError::Parse(m)
            && m@ == "libraryfolders.vdf: root value is not an object"@)),
{
    let doc = match parse_vdf(text) {
        Ok(d) => d,
        Err(msg) => {
            let mut m = String::new();
            push_str(&mut m, "libraryfolders.vdf: ");
            push_str(&mut m, msg.as_str());
            proof {
                reveal_strlit("libraryfolders.vdf: ");
                assert(m@.subrange(0, 20) =~= "libraryfolders.vdf: "@);
            }
            return Err(SteamError::Parse(m));
        },
    };
    match library_paths_of(&doc) {
        Some(v) => Ok(v),
        None => {
            let mut m = String::new();
            push_str(&mut m, "libraryfolders.vdf: root value is not an object");
            proof {
                reveal_strlit("libraryfolders.vdf: root value is not an object");
                reveal_strlit("libraryfolders.vdf: ");
                assert(m@.subrange(0, 20) =~= "libraryfolders.vdf: "@);
            }
            Err(SteamError::Parse(m))
        },
    }
}

/// The paths of `paths` whose flag in `flags` is set (flags beyond the end of
/// `flags` count as unset), in order.
pub open spec fn flagged(paths: Seq<Seq<char>>, flags: Seq<bool>) -> Seq<Seq<char>>
    decreases paths.len(),
{
    if paths.len() == 0 {
        seq![]
    } else {
        let rest = flagged(paths.drop_last(), flags);
        let k = paths.len() - 1;
        if k < flags.len() && flags[k] {
            rest.push(paths.last())
        } else {
            rest
        }
    }
}

/// `s` with every element whose path key equals that of the element before
/// it removed (`Vec::dedup` on `PathBuf`s).
pub open spec fn dedup_paths(s: Seq<Seq<char>>) -> Seq<Seq<char>>
    decreases s.len(),
{
    if s.len() <= 1 {
        s
    } else {
        let rest = dedup_paths(s.drop_last());
        if path_key(s.last()) == path_key(s[s.len() - 2]) {
            rest
        } else {
            rest.push(s.last())
        }
    }
}

/// The path keys of a sequence of paths.
pub open spec fn path_keys(s: Seq<Seq<char>>) -> Seq<Seq<u32>> {
    s.map_values(|p: Seq<char>| path_key(p))
}

/// `a` does not come after `b` as a path.
pub open spec fn path_le(a: Seq<char>, b: Seq<char>) -> bool {
    lex_lt(path_key(a), path_key(b)) || path_key(a) == path_key(b)
}

/// The paths of `s` are in path order, each strictly after the one before:
/// sorted, and no two equal as paths.
pub open spec fn strictly_sorted_paths(s: Seq<Seq<char>>) -> bool {
    forall|i: int, j: int| 0 <= i < j < s.len() ==> lex_lt(path_key(#[trigger] s[i]), path_key(#[trigger] s[j]))
}

proof fn lemma_flagged_members(paths: Seq<Seq<char>>, flags: Seq<bool>)
    ensures
        forall|i: int|
            0 <= i < paths.len() && i < flags.len() && flags[i] ==> flagged(paths, flags).contains(
                #[trigger] paths[i],
            ),
        forall|q: Seq<char>|
            flagged(paths, flags).contains(q) ==> exists|i: int|
                0 <= i < paths.len() && i < flags.len() && flags[i] && #[trigger] paths[i] == q,
    decreases paths.len(),
{
    if paths.len() > 0 {
        let pre = paths.drop_last();
        lemma_flagged_members(pre, flags);
        let rest = flagged(pre, flags);
        let k = paths.len() - 1;
        assert forall|i: int|
            0 <= i < paths.len() && i < flags.len() && flags[i] implies flagged(paths, flags).contains(
                #[trigger] paths[i],
            ) by {
            if i < k {
                assert(pre[i] == paths[i]);
                let m = choose|m: int| 0 <= m < rest.len() && rest[m] == pre[i];
                if k < flags.len() && flags[k] {
                    assert(flagged(paths, flags)[m] == rest[m]);
                }
            } else {
                assert(flagged(paths, flags).last() == paths.last());
            }
        }
        assert forall|q: Seq<char>| flagged(paths, flags).contains(q) implies exists|i: int|
            0 <= i < paths.len() && i < flags.len() && flags[i] && #[trigger] paths[i] == q by {
            let m = choose|m: int| 0 <= m < flagged(paths, flags).len() && flagged(paths, flags)[m] == q;
            if m < rest.len() {
                assert(flagged(paths, flags)[m] == rest[m]);
                assert(rest.contains(q));
                let i = choose|i: int| 0 <= i < pre.len() && i < flags.len() && flags[i] && pre[i] == q;
                assert(paths[i] == q);
            } else {
                assert(paths[k] == q);
            }
        }
    }
}

proof fn lemma_dedup_last(s: Seq<Seq<char>>)
    requires
        s.len() > 0,
    ensures
        dedup_paths(s).len() > 0,
        path_key(dedup_paths(s).last()) == path_key(s.last()),
    decreases s.len(),
{
    if s.len() > 1 {
        lemma_dedup_last(s.drop_last());
    }
}

proof fn lemma_dedup_cover_one(s: Seq<Seq<char>>, i: int)
    requires
        0 <= i < s.len(),
    ensures
        exists|j: int| 0 <= j < dedup_paths(s).len() && path_key(dedup_paths(s)[j]) == path_key(s[i]),
    decreases s.len(),
{
    let d = dedup_paths(s);
    if s.len() <= 1 {
        assert(d == s);
        assert(path_key(d[i]) == path_key(s[i]));
    } else {
        let n = s.len();
        let pre = s.drop_last();
        let rest = dedup_paths(pre);
        let same = path_key(s[n - 1]) == path_key(s[n - 2]);
        if i == n - 1 && !same {
            assert(d == rest.push(s[n - 1]));
            assert(d[d.len() - 1] == s[i]);
        } else {
            let i2 = if i < n - 1 {
                i
            } else {
                n - 2
            };
            assert(path_key(pre[i2]) == path_key(s[i]));
            lemma_dedup_cover_one(pre, i2);
            let j = choose|j: int| 0 <= j < rest.len() && path_key(rest[j]) == path_key(pre[i2]);
            if same {
                assert(d == rest);
            } else {
                assert(d == rest.push(s[n - 1]));
            }
            assert(d[j] == rest[j]);
            assert(path_key(d[j]) == path_key(s[i]));
        }
    }
}

proof fn lemma_dedup_members(s: Seq<Seq<char>>)
    ensures
        forall|j: int| 0 <= j < dedup_paths(s).len() ==> s.contains(#[trigger] dedup_paths(s)[j]),
    decreases s.len(),
{
    let d = dedup_paths(s);
    if s.len() <= 1 {
        assert forall|j: int| 0 <= j < d.len() implies s.contains(#[trigger] d[j]) by {
            assert(s[j] == d[j]);
        }
    } else {
        let pre = s.drop_last();
        let rest = dedup_paths(pre);
        lemma_dedup_members(pre);
        assert forall|j: int| 0 <= j < d.len() implies s.contains(#[trigger] d[j]) by {
            if j < rest.len() {
                assert(d[j] == rest[j]);
                assert(pre.contains(rest[j]));
                let i = choose|i: int| 0 <= i < pre.len() && pre[i] == rest[j];
                assert(s[i] == d[j]);
            } else {
                assert(s[s.len() - 1] == d[j]);
            }
        }
    }
}

proof fn lemma_dedup_sorted(s: Seq<Seq<char>>)
    requires
        forall|i: int, j: int| 0 <= i < j < s.len() ==> path_le(#[trigger] s[i], #[trigger] s[j]),
    ensures
        strictly_sorted_paths(dedup_paths(s)),
    decreases s.len(),
{
    let d = dedup_paths(s);
    if s.len() > 1 {
        let pre = s.drop_last();
        let rest = dedup_paths(pre);
        let n = s.len();
        assert forall|i: int, j: int| 0 <= i < j < pre.len() implies path_le(
            #[trigger] pre[i],
            #[trigger] pre[j],
        ) by {
            assert(pre[i] == s[i] && pre[j] == s[j]);
        }
        lemma_dedup_sorted(pre);
        if path_key(s.last()) != path_key(s[n - 2]) {
            lemma_dedup_last(pre);
            assert(pre.last() == s[n - 2]);
            assert(path_le(s[n - 2], s[n - 1]));
            let lk = path_key(s.last());
            assert(lex_lt(path_key(rest.last()), lk));
            assert forall|i: int, j: int| 0 <= i < j < d.len() implies lex_lt(
                path_key(#[trigger] d[i]),
                path_key(#[trigger] d[j]),
            ) by {
                assert(d[i] == rest[i]);
                if j < rest.len() {
                    assert(d[j] == rest[j]);
                } else {
                    assert(d[j] == s.last());
                    if i < rest.len() - 1 {
                        assert(lex_lt(path_key(rest[i]), path_key(rest[rest.len() - 1])));
                        lemma_lex_transitive(path_key(rest[i]), path_key(rest.last()), lk);
                    }
                }
            }
        }
    }
}

proof fn lemma_permuted_sorted(f: Seq<Seq<char>>, perm: Seq<int>)
    requires
        is_stable_order(path_keys(f), false, perm),
    ensures
        forall|i: int, j: int|
            0 <= i < j < permuted(f, perm).len() ==> path_le(
                #[trigger] permuted(f, perm)[i],
                #[trigger] permuted(f, perm)[j],
            ),
{
    let keys = path_keys(f);
    let sp = permuted(f, perm);
    assert forall|i: int, j: int| 0 <= i < j < sp.len() implies path_le(#[trigger] sp[i], #[trigger] sp[j]) by {
        assert(goes_before(keys, false, perm[i], perm[j]));
        assert(keys[perm[i]] == path_key(sp[i]));
        assert(keys[perm[j]] == path_key(sp[j]));
    }
}

proof fn lemma_listed_kept(
    listed: Seq<Seq<char>>,
    path_is_dir: Seq<bool>,
    perm: Seq<int>,
    i: int,
)
    requires
        is_stable_order(path_keys(flagged(listed, path_is_dir)), false, perm),
        0 <= i < listed.len(),
        i < path_is_dir.len(),
        path_is_dir[i],
    ensures
        exists|j: int|
            0 <= j < dedup_paths(permuted(flagged(listed, path_is_dir), perm)).len() && path_key(
                dedup_paths(permuted(flagged(listed, path_is_dir), perm))[j],
            ) == path_key(listed[i]),
{
    let f = flagged(listed, path_is_dir);
    let sp = permuted(f, perm);
    lemma_flagged_members(listed, path_is_dir);
    lemma_stable_order_is_permutation(path_keys(f), false, perm);
    assert(f.contains(listed[i]));
    let m = choose|m: int| 0 <= m < f.len() && f[m] == listed[i];
    assert(perm.contains(m));
    let k = choose|k: int| 0 <= k < perm.len() && perm[k] == m;
    assert(sp[k] == listed[i]);
    lemma_dedup_cover_one(sp, k);
}

proof fn lemma_kept_listed(
    listed: Seq<Seq<char>>,
    path_is_dir: Seq<bool>,
    perm: Seq<int>,
    j: int,
)
    requires
        is_stable_order(path_keys(flagged(listed, path_is_dir)), false, perm),
        0 <= j < dedup_paths(permuted(flagged(listed, path_is_dir), perm)).len(),
    ensures
        exists|i: int|
            0 <= i < listed.len() && i < path_is_dir.len() && path_is_dir[i] && dedup_paths(
                permuted(flagged(listed, path_is_dir), perm),
            )[j] == listed[i],
{
    let f = flagged(listed, path_is_dir);
    let sp = permuted(f, perm);
    let out = dedup_paths(sp);
    lemma_dedup_members(sp);
    assert(sp.contains(out[j]));
    let k = choose|k: int| 0 <= k < sp.len() && sp[k] == out[j];
    assert(f[perm[k]] == out[j]);
    assert(f.contains(out[j]));
    lemma_flagged_members(listed, path_is_dir);
}

/// The library folders of a listing: every listed path whose flag says it
/// is an existing directory is in the result (as a path: a duplicate of it
/// may stand in its place), every result is such a listed path, and the
/// results are in path order with no two equal as paths.
pub proof fn lemma_library_folders(
    listed: Seq<Seq<char>>,
    path_is_dir: Seq<bool>,
    perm: Seq<int>,
    out: Seq<Seq<char>>,
)
    requires
        is_stable_order(path_keys(flagged(listed, path_is_dir)), false, perm),
        out == dedup_paths(permuted(flagged(listed, path_is_dir), perm)),
    ensures
        forall|i: int|
            0 <= i < listed.len() && i < path_is_dir.len() && path_is_dir[i] ==> exists|j: int|
                0 <= j < out.len() && path_key(out[j]) == path_key(#[trigger] listed[i]),
        forall|j: int|
            0 <= j < out.len() ==> exists|i: int|
                0 <= i < listed.len() && i < path_is_dir.len() && path_is_dir[i] && #[trigger] out[j]
                    == listed[i],
        strictly_sorted_paths(out),
{
    let sp = permuted(flagged(listed, path_is_dir), perm);
    lemma_permuted_sorted(flagged(listed, path_is_dir), perm);
    lemma_dedup_sorted(sp);
    assert forall|i: int|
        0 <= i < listed.len() && i < path_is_dir.len() && path_is_dir[i] implies exists|j: int|
            0 <= j < out.len() && path_key(out[j]) == path_key(#[trigger] listed[i]) by {
        lemma_listed_kept(listed, path_is_dir, perm, i);
    }
    assert forall|j: int| 0 <= j < out.len() implies exists|i: int|
        0 <= i < listed.len() && i < path_is_dir.len() && path_is_dir[i] && #[trigger] out[j]
            == listed[i] by {
        lemma_kept_listed(listed, path_is_dir, perm, j);
    }
}

proof fn lemma_library_folder_strings(
    listed: Seq<Seq<char>>,
    path_is_dir: Seq<bool>,
    perm: Seq<int>,
    v: Seq<String>,
)
    requires
        is_stable_order(path_keys(flagged(listed, path_is_dir)), false, perm),
        string_views(v) == dedup_paths(permuted(flagged(listed, path_is_dir), perm)),
    ensures
        folders_of_listing(listed, path_is_dir, v),
{
    let ov = string_views(v);
    lemma_library_folders(listed, path_is_dir, perm, ov);
    assert forall|i: int|
        0 <= i < listed.len() && i < path_is_dir.len() && path_is_dir[i] implies exists|j: int|
            0 <= j < v.len() && path_key(v[j]@) == path_key(#[trigger] listed[i]) by {
        let j = choose|j: int| 0 <= j < ov.len() && path_key(ov[j]) == path_key(listed[i]);
        assert(v[j]@ == ov[j]);
    }
    assert forall|j: int| 0 <= j < v.len() implies exists|i: int|
        0 <= i < listed.len() && i < path_is_dir.len() && path_is_dir[i] && (#[trigger] v[j])@
            == listed[i] by {
        assert(v[j]@ == ov[j]);
    }
}

/// What a library listing yields: every listed path whose flag says it is
/// an existing directory is in `out` (as a path: a listed duplicate of it
/// may stand in its place), every path of `out` is such a listed path, and
/// `out` is in path order with no two paths equal.
pub open spec fn folders_of_listing(listed: Seq<Seq<char>>, path_is_dir: Seq<bool>, out: Seq<String>) -> bool {
    &&& forall|i: int|
        0 <= i < listed.len() && i < path_is_dir.len() && path_is_dir[i] ==> exists|j: int|
            0 <= j < out.len() && path_key(out[j]@) == path_key(#[trigger] listed[i])
    &&& forall|j: int|
        0 <= j < out.len() ==> exists|i: int|
            0 <= i < listed.len() && i < path_is_dir.len() && path_is_dir[i] && (#[trigger] out[j])@
                == listed[i]
    &&& strictly_sorted_paths(string_views(out))
}

/// The existing paths of `listed` (those whose flag in `path_is_dir` is
/// set), sorted as paths with duplicates removed.
fn existing_folders(listed: Vec<String>, path_is_dir: &Vec<bool>) -> (out: Vec<String>)
    ensures
        exists|perm: Seq<int>|
            #[trigger] is_stable_order(
                path_keys(flagged(string_views(listed@), path_is_dir@)),
                false,
                perm,
            ) && string_views(out@) == dedup_paths(
                permuted(flagged(string_views(listed@), path_is_dir@), perm),
            ),
        folders_of_listing(string_views(listed@), path_is_dir@, out@),
{
    let ghost lv = string_views(listed@);
    let mut kept: Vec<String> = Vec::new();
    let mut keys: Vec<Vec<u32>> = Vec::new();
    let mut idx: usize = 0;
    let n = listed.len();
    while idx < n
        invariant
            n == lv.len(),
            lv == string_views(listed@),
            idx <= n,
            string_views(kept@) == flagged(lv.take(idx as int), path_is_dir@),
            key_views(keys@) == path_keys(string_views(kept@)),
        decreases n - idx,
    {
        let p = listed[idx].clone();
        assert(p@ == lv[idx as int]);
        assert(lv.take(idx + 1).drop_last() =~= lv.take(idx as int));
        assert(lv.take(idx + 1).last() == lv[idx as int]);
        if idx < path_is_dir.len() && path_is_dir[idx] {
            let k = path_order_key(p.as_str());
            let ghost kk = key_views(keys@);
            let ghost ks = string_views(kept@);
            let ghost pv = p@;
            kept.push(p);
            keys.push(k);
            assert(key_views(keys@) =~= kk.push(k@));
            assert(string_views(kept@) =~= ks.push(pv));
            assert(path_keys(ks.push(pv)) =~= path_keys(ks).push(path_key(pv)));
        }
        assert(string_views(kept@) =~= flagged(lv.take(idx + 1), path_is_dir@));
        idx = idx + 1;
    }
    assert(lv.take(n as int) =~= lv);
    let ghost kv = string_views(kept@);
    let (sorted, perm) = stable_sort(kept, &keys, false);
    let ghost sv = string_views(sorted@);
    assert(sv =~= permuted(kv, perm@));
    let mut out: Vec<String> = Vec::new();
    let mut j: usize = 0;
    let mut prev_key: Vec<u32> = Vec::new();
    let m = sorted.len();
    while j < m
        invariant
            m == sv.len(),
            sv == string_views(sorted@),
            j <= m,
            j > 0 ==> prev_key@ == path_key(sv[j - 1]),
            string_views(out@) == dedup_paths(sv.take(j as int)),
        decreases m - j,
    {
        let p = sorted[j].clone();
        assert(p@ == sv[j as int]);
        let k = path_order_key(p.as_str());
        assert(sv.take(j + 1).drop_last() =~= sv.take(j as int));
        assert(sv.take(j + 1).last() == sv[j as int]);
        if j == 0 || !keys_equal(&k, &prev_key) {
            out.push(p);
            proof {
                if j == 0 {
                    assert(sv.take(1) =~= seq![sv[0]]);
                } else {
                    assert(sv.take(j + 1)[j - 1] == sv[j - 1]);
                }
            }
            assert(string_views(out@) =~= dedup_paths(sv.take(j + 1)));
        } else {
            assert(sv.take(j + 1)[j - 1] == sv[j - 1]);
        }
        prev_key = k;
        j = j + 1;
    }
    assert(sv.take(m as int) =~= sv);
    proof {
        lemma_library_folder_strings(lv, path_is_dir@, perm@, out@);
        assert(is_stable_order(path_keys(flagged(lv, path_is_dir@)), false, perm@));
    }
    out
}

/// The library folders Steam lists, given the text of `libraryfolders.vdf`
/// (`None` when neither `config/libraryfolders.vdf` nor
/// `steamapps/libraryfolders.vdf` exists) and, for each listed path (see
/// [`library_folder_paths`]), whether it is an existing directory: the
/// existing ones, sorted as paths and with duplicates removed.
pub fn library_folders(vdf_text: Option<&str>, path_is_dir: &Vec<bool>) -> (res: Result<
    Vec<String>,
    SteamError,
>)
    ensures
        vdf_text is None ==> (res matches Err(SteamError::Parse(m)) && m@
            == "libraryfolders.vdf not found"@),
        vdf_text matches Some(t) ==> (res is Ok <==> listed_libraries(t@) is Some),
        vdf_text matches Some(t) ==> (res matches Err(e) ==> e is Parse),
        res matches Ok(v) ==> (vdf_text matches Some(t) ==> exists|perm: Seq<int>|
            #[trigger] is_stable_order(
                path_keys(flagged(listed_libraries(t@).unwrap(), path_is_dir@)),
                false,
                perm,
            ) && string_views(v@) == dedup_paths(
                permuted(flagged(listed_libraries(t@).unwrap(), path_is_dir@), perm),
            )),
        res matches Ok(v) ==> (vdf_text matches Some(t) ==> folders_of_listing(
            listed_libraries(t@).unwrap(),
            path_is_dir@,
            v@,
        )),
        res matches Ok(v) ==> strictly_sorted_paths(string_views(v@)),
{
    let text = match vdf_text {
        Some(t) => t,
        None => {
            let mut m = String::new();
            push_str(&mut m, "libraryfolders.vdf not found");
            return Err(SteamError::Parse(m));
        },
    };
    let listed = match library_folder_paths(text) {
        Ok(v) => v,
        Err(e) => return Err(e),
    };
    let ghost lv = string_views(listed@);
    let out = existing_folders(listed, path_is_dir);
    assert(listed_libraries(text@) == Some(lv));
    proof {
        let perm = choose|perm: Seq<int>|
            #[trigger] is_stable_order(path_keys(flagged(lv, path_is_dir@)), false, perm)
                && string_views(out@) == dedup_paths(permuted(flagged(lv, path_is_dir@), perm));
        let l = listed_libraries(text@).unwrap();
        assert(l == lv);
        assert(is_stable_order(path_keys(flagged(l, path_is_dir@)), false, perm) && string_views(
            out@,
        ) == dedup_paths(permuted(flagged(l, path_is_dir@), perm)));
    }
    Ok(out)
}

} // verus!
