//! The Proton directory a game's prefix was created with, from the prefix's
//! `compatdata/<appid>/config_info` file.
//!
//! The file is line based; its first line is the Wine version of the tool,
//! and the line ending in `/files/share/default_pfx/` names a directory
//! inside the tool, so stripping that suffix gives the tool directory.

use crate::paths::{joined, path_join};
use crate::steam::locations::{first_flagged, first_flagged_from, lemma_first_flagged, string_views};
use crate::text::{
    chars_of, decimal, line_ranges, line_ranges_of, lines, last_occurrence, opt_view, push_decimal,
    lemma_last_occurrence, occurs_at, rfind_in, string_of_range, trim_range, trimmed,
};
use vstd::prelude::*;

verus! {

/// The `config_info` file of an app's prefix:
/// `<library>/steamapps/compatdata/<app_id>/config_info`.
pub open spec fn config_info_in(library: Seq<char>, app_id: u32) -> Seq<char> {
    joined(
        joined(joined(joined(library, "steamapps"@), "compatdata"@), decimal(app_id as nat)),
        "config_info"@,
    )
}

/// The path of the `config_info` file for an app's prefix in `library`.
pub fn config_info_path(library: &str, app_id: u32) -> (res: String)
    ensures
        res@ == config_info_in(library@, app_id),
        res@ == joined(
            joined(joined(joined(library@, "steamapps"@), "compatdata"@), decimal(app_id as nat)),
            "config_info"@,
        ),
{
    let a = path_join(library, "steamapps");
    let b = path_join(a.as_str(), "compatdata");
    let mut id = String::new();
    push_decimal(&mut id, app_id as u64);
    assert(id@ =~= decimal(app_id as nat));
    let c = path_join(b.as_str(), id.as_str());
    path_join(c.as_str(), "config_info")
}

/// The first line of `ls` that is not blank, trimmed.
pub open spec fn first_nonblank(ls: Seq<Seq<char>>) -> Option<Seq<char>>
    decreases ls.len(),
{
    if ls.len() == 0 {
        None
    } else if trimmed(ls[0]).len() > 0 {
        Some(trimmed(ls[0]))
    } else {
        first_nonblank(ls.drop_first())
    }
}

/// The first non-blank line, trimmed, is a line that is not blank after
/// trimming, with only blank lines before it; there is none exactly when
/// every line is blank.
pub proof fn lemma_first_nonblank(ls: Seq<Seq<char>>)
    ensures
        first_nonblank(ls) matches Some(v) ==> v.len() > 0 && exists|i: int|
            0 <= i < ls.len() && trimmed(#[trigger] ls[i]) == v && forall|j: int|
                0 <= j < i ==> trimmed(ls[j]).len() == 0,
        first_nonblank(ls) is None ==> forall|i: int| 0 <= i < ls.len() ==> trimmed(#[trigger] ls[i]).len() == 0,
    decreases ls.len(),
{
    if ls.len() > 0 && trimmed(ls[0]).len() == 0 {
        let rest = ls.drop_first();
        lemma_first_nonblank(rest);
        match first_nonblank(rest) {
            Some(v) => {
                let i = choose|i: int|
                    0 <= i < rest.len() && trimmed(#[trigger] rest[i]) == v && forall|j: int|
                        0 <= j < i ==> trimmed(rest[j]).len() == 0;
                assert(ls[i + 1] == rest[i]);
                assert forall|j: int| 0 <= j < i + 1 implies trimmed(ls[j]).len() == 0 by {
                    if j > 0 {
                        assert(ls[j] == rest[j - 1]);
                    }
                }
            },
            None => {
                assert forall|i: int| 0 <= i < ls.len() implies trimmed(#[trigger] ls[i]).len() == 0 by {
                    if i > 0 {
                        assert(ls[i] == rest[i - 1]);
                    }
                }
            },
        }
    }
}

/// The Wine version recorded in a prefix's `config_info` (its first
/// non-blank line, trimmed), given the file's text (`None` when the file
/// does not exist or cannot be read).
pub fn wine_version(config_info: Option<&str>) -> (res: Option<String>)
    ensures
        config_info matches Some(t) ==> (res matches Some(v) ==> v@.len() > 0 && exists|i: int|
            0 <= i < lines(t@).len() && trimmed(#[trigger] lines(t@)[i]) == v@ && forall|j: int|
                0 <= j < i ==> trimmed(lines(t@)[j]).len() == 0),
        config_info matches Some(t) ==> (res is None ==> forall|i: int|
            0 <= i < lines(t@).len() ==> trimmed(#[trigger] lines(t@)[i]).len() == 0),
        config_info is None ==> res is None,
        config_info matches Some(t) ==> (match res {
            Some(v) => first_nonblank(lines(t@)) == Some(v@),
            None => first_nonblank(lines(t@)) is None,
        }),
{
    proof {
        if config_info is Some {
            lemma_first_nonblank(lines(config_info.unwrap()@));
        }
    }
    first_nonblank_line(config_info)
}

/// The first non-blank line of a `config_info` text, trimmed (see
/// [`first_nonblank`]).
fn first_nonblank_line(config_info: Option<&str>) -> (res: Option<String>)
    ensures
        config_info is None ==> res is None,
        config_info matches Some(t) ==> (match res {
            Some(v) => first_nonblank(lines(t@)) == Some(v@),
            None => first_nonblank(lines(t@)) is None,
        }),
{
    let text = match config_info {
        Some(t) => t,
        None => return None,
    };
    let cs = chars_of(text);
    let ranges = line_ranges_of(&cs);
    let ghost ls = lines(text@);
    let mut i: usize = 0;
    assert(ls.skip(0) =~= ls);
    while i < ranges.len()
        invariant
            config_info == Some(text),
            cs@ == text@,
            ls == lines(text@),
            ls.len() == ranges@.len(),
            i <= ranges@.len(),
            forall|k: int|
                0 <= k < ranges@.len() ==> (#[trigger] ranges@[k]).0 as int == line_ranges(cs@)[k].0
                    && ranges@[k].1 as int == line_ranges(cs@)[k].1,
            forall|k: int| 0 <= k < ranges@.len() ==> (#[trigger] ranges@[k]).0 <= ranges@[k].1 <= cs@.len(),
            first_nonblank(ls) == first_nonblank(ls.skip(i as int)),
        decreases ranges@.len() - i,
    {
        let (a, b) = ranges[i];
        let t = trim_range(&cs, a, b);
        assert(ls[i as int] == cs@.subrange(a as int, b as int));
        assert(ls.skip(i as int)[0] == ls[i as int]);
        if !t.as_str().is_empty() {
            assert(first_nonblank(ls.skip(i as int)) == Some(t@));
            return Some(t);
        }
        assert(ls.skip(i as int).drop_first() =~= ls.skip(i + 1));
        i = i + 1;
    }
    None
}

/// The tool directory a `config_info` line names: the text before the last
/// occurrence of `/files/share/default_pfx/`, if there is one.
pub open spec fn tool_candidate(line: Seq<char>) -> Option<Seq<char>> {
    match last_occurrence(line, "/files/share/default_pfx/"@) {
        Some(k) => Some(line.subrange(0, k)),
        None => None,
    }
}

/// The tool directories named by the lines `ls`, in order.
pub open spec fn candidates_of(ls: Seq<Seq<char>>) -> Seq<Seq<char>>
    decreases ls.len(),
{
    if ls.len() == 0 {
        seq![]
    } else {
        let rest = candidates_of(ls.drop_last());
        match tool_candidate(ls.last()) {
            Some(c) => rest.push(c),
            None => rest,
        }
    }
}

/// `c` is a line of `ls` cut at the last occurrence of
/// `/files/share/default_pfx/` in it.
pub open spec fn cut_at_default_pfx(ls: Seq<Seq<char>>, c: Seq<char>) -> bool {
    exists|i: int|
        0 <= i < ls.len() && occurs_at(#[trigger] ls[i], "/files/share/default_pfx/"@, c.len() as int)
            && ls[i].subrange(0, c.len() as int) == c && forall|j: int|
            c.len() < j ==> !occurs_at(ls[i], "/files/share/default_pfx/"@, j)
}

/// Every candidate tool directory is a line cut at the last occurrence of
/// `/files/share/default_pfx/` in it.
pub proof fn lemma_candidates_of(ls: Seq<Seq<char>>)
    ensures
        forall|k: int|
            0 <= k < candidates_of(ls).len() ==> cut_at_default_pfx(ls, #[trigger] candidates_of(ls)[k]),
    decreases ls.len(),
{
    if ls.len() > 0 {
        let pre = ls.drop_last();
        lemma_candidates_of(pre);
        let rest = candidates_of(pre);
        let all = candidates_of(ls);
        let suf: Seq<char> = "/files/share/default_pfx/"@;
        assert forall|k: int| 0 <= k < all.len() implies cut_at_default_pfx(ls, #[trigger] all[k]) by {
            if k < rest.len() {
                assert(all[k] == rest[k]);
                let c = rest[k];
                let i = choose|i: int|
                    0 <= i < pre.len() && occurs_at(#[trigger] pre[i], suf, c.len() as int)
                        && pre[i].subrange(0, c.len() as int) == c && forall|j: int|
                        c.len() < j ==> !occurs_at(pre[i], suf, j);
                assert(ls[i] == pre[i]);
            } else {
                let line = ls.last();
                let m = last_occurrence(line, suf).unwrap();
                lemma_last_occurrence(line, suf);
                assert(all[k] == line.subrange(0, m));
                assert(ls[ls.len() - 1] == line);
                assert(line.subrange(0, m).len() == m);
            }
        }
    }
}

/// The candidate tool directories named in a `config_info` text, in line
/// order. These are the directories whose existence [`proton_dir_for`] is
/// told about.
pub fn prefix_tool_candidates(config_info: &str) -> (res: Vec<String>)
    ensures
        string_views(res@) == candidates_of(lines(config_info@)),
        forall|k: int|
            0 <= k < res@.len() ==> cut_at_default_pfx(lines(config_info@), (#[trigger] res@[k])@),
{
    proof {
        lemma_candidates_of(lines(config_info@));
    }
    let res = prefix_candidates_of(config_info);
    proof {
        assert forall|k: int| 0 <= k < res@.len() implies cut_at_default_pfx(
            lines(config_info@),
            (#[trigger] res@[k])@,
        ) by {
            assert(string_views(res@)[k] == res@[k]@);
        }
    }
    res
}

/// The candidate tool directories named in a `config_info` text (see
/// [`candidates_of`]).
fn prefix_candidates_of(config_info: &str) -> (res: Vec<String>)
    ensures
        string_views(res@) == candidates_of(lines(config_info@)),
{
    let cs = chars_of(config_info);
    let ranges = line_ranges_of(&cs);
    let suffix = chars_of("/files/share/default_pfx/");
    let ghost ls = lines(config_info@);
    let mut out: Vec<String> = Vec::new();
    let mut i: usize = 0;
    while i < ranges.len()
        invariant
            cs@ == config_info@,
            suffix@ == "/files/share/default_pfx/"@,
            ls == lines(config_info@),
            ls.len() == ranges@.len(),
            i <= ranges@.len(),
            forall|k: int|
                0 <= k < ranges@.len() ==> (#[trigger] ranges@[k]).0 as int == line_ranges(cs@)[k].0
                    && ranges@[k].1 as int == line_ranges(cs@)[k].1,
            forall|k: int| 0 <= k < ranges@.len() ==> (#[trigger] ranges@[k]).0 <= ranges@[k].1 <= cs@.len(),
            string_views(out@) == candidates_of(ls.take(i as int)),
        decreases ranges@.len() - i,
    {
        let (a, b) = ranges[i];
        let ghost line = cs@.subrange(a as int, b as int);
        assert(ls[i as int] == line);
        assert(ls.take(i + 1).drop_last() =~= ls.take(i as int));
        assert(ls.take(i + 1).last() == line);
        match rfind_in(&cs, a, b, &suffix) {
            Some(k) => {
                let c = string_of_range(&cs, a, k);
                assert(c@ =~= line.subrange(0, k - a));
                out.push(c);
                assert(string_views(out@) =~= candidates_of(ls.take(i + 1)));
            },
            None => {
                assert(string_views(out@) =~= candidates_of(ls.take(i + 1)));
            },
        }
        i = i + 1;
    }
    assert(ls.take(ranges@.len() as int) =~= ls);
    out
}

/// The Proton directory an app's prefix records: the first of the tool
/// directories its `config_info` text names (`None` when there is no such
/// text) that is an existing directory, where `candidate_is_dir[k]` tells
/// whether the `k`-th is.
pub open spec fn prefix_proton_dir(config_info: Option<Seq<char>>, candidate_is_dir: Seq<bool>) -> Option<
    Seq<char>,
> {
    match config_info {
        None => None,
        Some(t) => first_flagged_from(candidates_of(lines(t)), candidate_is_dir, 0),
    }
}

/// Resolve the Proton directory of an app's prefix from its `config_info`
/// text (`None` when the prefix has not been created or the file cannot be
/// read): the first of [`prefix_tool_candidates`] that is an existing
/// directory, where `candidate_is_dir[k]` tells whether the `k`-th is.
pub fn proton_dir_for(config_info: Option<&str>, candidate_is_dir: &Vec<bool>) -> (res: Option<
    String,
>)
    ensures
        match res {
            Some(d) => prefix_proton_dir(opt_view(config_info), candidate_is_dir@) == Some(d@),
            None => prefix_proton_dir(opt_view(config_info), candidate_is_dir@) is None,
        },
        config_info is None ==> res is None,
        config_info matches Some(t) ==> (res matches Some(d) ==> cut_at_default_pfx(lines(t@), d@)
            && exists|k: int|
            0 <= k < candidate_is_dir@.len() && candidate_is_dir@[k] && d@ == #[trigger] candidates_of(
                lines(t@),
            )[k] && forall|j: int| 0 <= j < k ==> !candidate_is_dir@[j]),
        config_info matches Some(t) ==> (res is None ==> forall|k: int|
            0 <= k < candidates_of(lines(t@)).len() && k < candidate_is_dir@.len()
                ==> !candidate_is_dir@[k]),
{
    proof {
        if config_info is Some {
            let t = config_info.unwrap();
            lemma_first_flagged(candidates_of(lines(t@)), candidate_is_dir@, 0);
            lemma_candidates_of(lines(t@));
        }
    }
    match config_info {
        None => None,
        Some(t) => {
            let cands = prefix_tool_candidates(t);
            first_flagged(cands, candidate_is_dir)
        },
    }
}

} // verus!
