//! Detect whether the launcher runs inside a Flatpak sandbox, and recognise
//! document-portal paths that must be resolved to their host origin.
//!
//! Inside a sandbox the `proton` script lives on the host and must be run
//! there through `flatpak-spawn --host`. Two signals exist only inside a
//! sandbox: the `/.flatpak-info` metadata file and the `FLATPAK_ID`
//! environment variable.

use crate::text::{
    chars_of, find_char, first_index_of, has_prefix, lemma_first_index_of, line_ranges,
    line_ranges_of, lines, matches_at, trim_range, trimmed,
};
use vstd::prelude::*;

verus! {

/// Whether the process runs inside a Flatpak sandbox, given whether
/// `/.flatpak-info` exists and whether `FLATPAK_ID` is set: either signal
/// suffices.
pub fn running_in_flatpak(flatpak_info_exists: bool, flatpak_id_set: bool) -> (res: bool)
    ensures
        res == (flatpak_info_exists || flatpak_id_set),
{
    flatpak_info_exists || flatpak_id_set
}

/// The second `/`-separated piece of `r` (`r.split('/').nth(1)`), if `r`
/// has a `/`.
pub open spec fn second_piece(r: Seq<char>) -> Option<Seq<char>> {
    match first_index_of(r, '/') {
        None => None,
        Some(k) => {
            let t = r.skip(k + 1);
            match first_index_of(t, '/') {
                Some(m) => Some(t.take(m)),
                None => Some(t),
            }
        },
    }
}

/// A document-portal alias: `/run/user/<uid>/doc/<docid>/...`.
pub open spec fn doc_path(path: Seq<char>) -> bool {
    has_prefix(path, "/run/user/"@) && second_piece(path.skip(10)) == Some("doc"@)
}

/// `path` is `/run/user/`, then a user id without `/`, then `/doc`, then
/// its end or a `/`.
pub open spec fn is_portal_alias(path: Seq<char>) -> bool {
    has_prefix(path, "/run/user/"@) && exists|k: int|
        10 <= k && k + 4 <= path.len() && #[trigger] path[k] == '/' && path[k + 1] == 'd' && path[k
            + 2] == 'o' && path[k + 3] == 'c' && (k + 4 == path.len() || path[k + 4] == '/')
            && forall|m: int| 10 <= m < k ==> path[m] != '/'
}

/// A document-portal path is exactly a path under `/run/user/<uid>/doc`.
pub proof fn lemma_doc_path(path: Seq<char>)
    ensures
        doc_path(path) <==> is_portal_alias(path),
{
    reveal_strlit("/run/user/");
    reveal_strlit("doc");
    if has_prefix(path, "/run/user/"@) {
        let r = path.skip(10);
        lemma_first_index_of(r, '/');
        match first_index_of(r, '/') {
            Some(k0) => {
                let t = r.skip(k0 + 1);
                let k = k0 + 10;
                lemma_first_index_of(t, '/');
                let piece = match first_index_of(t, '/') {
                    Some(m) => t.take(m),
                    None => t,
                };
                assert(path[k] == '/');
                assert forall|m: int| 10 <= m < k implies path[m] != '/' by {
                    assert(path[m] == r[m - 10]);
                }
                if piece == "doc"@ {
                    assert(piece.len() == 3);
                    assert(path[k + 1] == piece[0] && path[k + 2] == piece[1] && path[k + 3] == piece[2]);
                    match first_index_of(t, '/') {
                        Some(m) => {
                            assert(m == 3);
                            assert(path[k + 4] == t[3]);
                        },
                        None => {
                            assert(t.len() == 3);
                        },
                    }
                    assert(is_portal_alias(path));
                } else if is_portal_alias(path) {
                    let k2 = choose|k2: int|
                        10 <= k2 && k2 + 4 <= path.len() && #[trigger] path[k2] == '/' && path[k2 + 1]
                            == 'd' && path[k2 + 2] == 'o' && path[k2 + 3] == 'c' && (k2 + 4
                            == path.len() || path[k2 + 4] == '/') && forall|m: int|
                            10 <= m < k2 ==> path[m] != '/';
                    if k2 < k {
                        assert(r[k2 - 10] == '/');
                    } else if k2 > k {
                        assert(path[k] == '/');
                    }
                    assert(k2 == k);
                    assert(t[0] == 'd' && t[1] == 'o' && t[2] == 'c');
                    if k + 4 == path.len() {
                        assert(t.len() == 3);
                        assert(first_index_of(t, '/') is None);
                        assert(piece =~= "doc"@);
                    } else {
                        assert(t[3] == '/');
                        assert(first_index_of(t, '/') == Some(3int));
                        assert(piece =~= "doc"@);
                    }
                }
            },
            None => {
                if is_portal_alias(path) {
                    let k2 = choose|k2: int|
                        10 <= k2 && k2 + 4 <= path.len() && #[trigger] path[k2] == '/' && path[k2 + 1]
                            == 'd' && path[k2 + 2] == 'o' && path[k2 + 3] == 'c' && (k2 + 4
                            == path.len() || path[k2 + 4] == '/') && forall|m: int|
                            10 <= m < k2 ==> path[m] != '/';
                    assert(r[k2 - 10] == '/');
                }
            },
        }
    }
}

/// Whether `path` is a document-portal alias (see [`doc_path`]).
pub fn is_doc_path(path: &str) -> (res: bool)
    ensures
        res == doc_path(path@),
        res == is_portal_alias(path@),
{
    proof {
        lemma_doc_path(path@);
    }
    doc_path_of(path)
}

/// Whether `path` is a document-portal alias, as [`doc_path`] spells it.
fn doc_path_of(path: &str) -> (res: bool)
    ensures
        res == doc_path(path@),
{
    let cs = chars_of(path);
    let pre = chars_of("/run/user/");
    proof {
        reveal_strlit("/run/user/");
    }
    if !matches_at(&cs, 0, &pre) {
        return false;
    }
    assert(cs@.subrange(0, 10) == pre@);
    let ghost r = cs@.skip(10);
    let k = match find_char(&cs, 10, '/') {
        None => return false,
        Some(k) => k,
    };
    let ghost t = r.skip(k - 10 + 1);
    assert(t =~= cs@.skip(k + 1));
    let end = match find_char(&cs, k + 1, '/') {
        Some(m) => m,
        None => cs.len(),
    };
    let doc = chars_of("doc");
    let n = cs.len();
    let is_doc = end - (k + 1) == doc.len() && matches_at(&cs, k + 1, &doc);
    proof {
        match first_index_of(t, '/') {
            Some(m) => {
                assert(t.take(m) =~= cs@.subrange(k + 1, end as int));
            },
            None => {
                assert(t =~= cs@.subrange(k + 1, n as int));
            },
        }
        if is_doc {
            assert(cs@.subrange(k + 1, end as int) =~= doc@);
        } else if cs@.subrange(k + 1, end as int) == doc@ {
            assert(cs@.subrange(k + 1, k + 1 + doc@.len()) =~= doc@);
        }
    }
    is_doc
}

/// The host path that `flatpak document-info` reports: the rest of its
/// first line starting with `origin: `, trimmed.
pub open spec fn origin_in(ls: Seq<Seq<char>>) -> Option<Seq<char>>
    decreases ls.len(),
{
    if ls.len() == 0 {
        None
    } else if has_prefix(ls[0], "origin: "@) {
        Some(trimmed(ls[0].skip(8)))
    } else {
        origin_in(ls.drop_first())
    }
}

/// The origin found in lines is the rest of the first line that starts with
/// `origin: `, trimmed; there is none exactly when no line starts so.
pub proof fn lemma_origin_in(ls: Seq<Seq<char>>)
    ensures
        origin_in(ls) matches Some(o) ==> exists|i: int|
            0 <= i < ls.len() && has_prefix(#[trigger] ls[i], "origin: "@) && o == trimmed(
                ls[i].skip(8),
            ) && forall|j: int| 0 <= j < i ==> !has_prefix(ls[j], "origin: "@),
        origin_in(ls) is None ==> forall|i: int| 0 <= i < ls.len() ==> !has_prefix(#[trigger] ls[i], "origin: "@),
    decreases ls.len(),
{
    if ls.len() > 0 && !has_prefix(ls[0], "origin: "@) {
        let rest = ls.drop_first();
        lemma_origin_in(rest);
        match origin_in(rest) {
            Some(o) => {
                let i = choose|i: int|
                    0 <= i < rest.len() && has_prefix(#[trigger] rest[i], "origin: "@) && o == trimmed(
                        rest[i].skip(8),
                    ) && forall|j: int| 0 <= j < i ==> !has_prefix(rest[j], "origin: "@);
                assert(ls[i + 1] == rest[i]);
                assert forall|j: int| 0 <= j < i + 1 implies !has_prefix(ls[j], "origin: "@) by {
                    if j > 0 {
                        assert(ls[j] == rest[j - 1]);
                    }
                }
            },
            None => {
                assert forall|i: int| 0 <= i < ls.len() implies !has_prefix(#[trigger] ls[i], "origin: "@) by {
                    if i > 0 {
                        assert(ls[i] == rest[i - 1]);
                    }
                }
            },
        }
    }
}

/// The real host path in the output of `flatpak document-info <path>`: the
/// text after `origin: ` on the first line that starts with it, trimmed.
pub fn document_origin(stdout: &str) -> (res: Option<String>)
    ensures
        res matches Some(o) ==> origin_in(lines(stdout@)) == Some(o@),
        res is None ==> origin_in(lines(stdout@)) is None,
        res matches Some(o) ==> exists|i: int|
            0 <= i < lines(stdout@).len() && has_prefix(#[trigger] lines(stdout@)[i], "origin: "@)
                && o@ == trimmed(lines(stdout@)[i].skip(8)) && forall|j: int|
                0 <= j < i ==> !has_prefix(lines(stdout@)[j], "origin: "@),
        res is None ==> forall|i: int|
            0 <= i < lines(stdout@).len() ==> !has_prefix(#[trigger] lines(stdout@)[i], "origin: "@),
{
    proof {
        lemma_origin_in(lines(stdout@));
    }
    origin_line(stdout)
}

/// The origin in the output of `flatpak document-info`, as [`origin_in`]
/// spells it.
fn origin_line(stdout: &str) -> (res: Option<String>)
    ensures
        res matches Some(o) ==> origin_in(lines(stdout@)) == Some(o@),
        res is None ==> origin_in(lines(stdout@)) is None,
{
    let cs = chars_of(stdout);
    let ranges = line_ranges_of(&cs);
    let pre = chars_of("origin: ");
    proof {
        reveal_strlit("origin: ");
    }
    let ghost ls = lines(stdout@);
    let mut i: usize = 0;
    assert(ls.skip(0) =~= ls);
    while i < ranges.len()
        invariant
            cs@ == stdout@,
            pre@ == "origin: "@,
            pre@.len() == 8,
            ls == lines(stdout@),
            ls.len() == ranges@.len(),
            i <= ranges@.len(),
            forall|k: int|
                0 <= k < ranges@.len() ==> (#[trigger] ranges@[k]).0 as int == line_ranges(cs@)[k].0
                    && ranges@[k].1 as int == line_ranges(cs@)[k].1,
            forall|k: int| 0 <= k < ranges@.len() ==> (#[trigger] ranges@[k]).0 <= ranges@[k].1 <= cs@.len(),
            origin_in(ls) == origin_in(ls.skip(i as int)),
        decreases ranges@.len() - i,
    {
        let (a, b) = ranges[i];
        let ghost line = cs@.subrange(a as int, b as int);
        assert(ls[i as int] == line);
        assert(ls.skip(i as int)[0] == line);
        if b - a >= pre.len() && matches_at(&cs, a, &pre) {
            assert(line.subrange(0, 8) =~= cs@.subrange(a as int, a + 8));
            let o = trim_range(&cs, a + 8, b);
            assert(line.skip(8) =~= cs@.subrange(a + 8, b as int));
            return Some(o);
        }
        proof {
            if has_prefix(line, pre@) {
                assert(line.subrange(0, 8) =~= cs@.subrange(a as int, a + 8));
            }
        }
        assert(ls.skip(i as int).drop_first() =~= ls.skip(i + 1));
        i = i + 1;
    }
    None
}

} // verus!
