//! Locate the Steam installation root.

use crate::paths::{joined, path_join};
use crate::text::string_from;
use vstd::prelude::*;

verus! {

/// The candidate Steam roots relative to the home directory, in priority
/// order: `.local/share/Steam`, `.steam/root`, `.steam/steam`,
/// `.steam/debian-installation`.
pub open spec fn candidate_suffix(k: int) -> Seq<char> {
    if k == 0 {
        ".local/share/Steam"@
    } else if k == 1 {
        ".steam/root"@
    } else if k == 2 {
        ".steam/steam"@
    } else {
        ".steam/debian-installation"@
    }
}

/// The home directory from the value of `$HOME`: unset or empty means none.
pub open spec fn home_of(home_var: Option<Seq<char>>) -> Option<Seq<char>> {
    match home_var {
        Some(h) => if h.len() > 0 {
            Some(h)
        } else {
            None
        },
        None => None,
    }
}

/// The candidate Steam roots under `home`, in priority order.
pub open spec fn root_candidates(home: Seq<char>) -> Seq<Seq<char>> {
    Seq::new(4, |k: int| joined(home, candidate_suffix(k)))
}

/// The first of `cands[i..]` whose flag is set (flags beyond the end of
/// `flags` count as unset).
pub open spec fn first_flagged_from(cands: Seq<Seq<char>>, flags: Seq<bool>, i: int) -> Option<
    Seq<char>,
>
    decreases cands.len() - i,
{
    if i < 0 || i >= cands.len() || i >= flags.len() {
        None
    } else if flags[i] {
        Some(cands[i])
    } else {
        first_flagged_from(cands, flags, i + 1)
    }
}

/// The views of a vector of strings.
pub open spec fn string_views(v: Seq<String>) -> Seq<Seq<char>> {
    v.map_values(|s: String| s@)
}

/// The first of `cands` whose flag in `flags` is set.
pub fn first_flagged(cands: Vec<String>, flags: &Vec<bool>) -> (res: Option<String>)
    ensures
        res matches Some(r) ==> first_flagged_from(string_views(cands@), flags@, 0) == Some(r@),
        res is None ==> first_flagged_from(string_views(cands@), flags@, 0) is None,
{
    let ghost cv = string_views(cands@);
    let mut i: usize = 0;
    while i < cands.len() && i < flags.len()
        invariant
            cv == string_views(cands@),
            i <= cands@.len(),
            first_flagged_from(cv, flags@, 0) == first_flagged_from(cv, flags@, i as int),
        decreases cands@.len() - i,
    {
        if flags[i] {
            return Some(cands[i].clone());
        }
        i = i + 1;
    }
    None
}

/// The home directory, from the value of `$HOME` (unset or empty: none).
pub fn home_dir(home_var: Option<&str>) -> (res: Option<String>)
    ensures
        res matches Some(h) ==> home_of(
            match home_var {
                Some(v) => Some(v@),
                None => None,
            },
        ) == Some(h@),
        res is None ==> home_of(
            match home_var {
                Some(v) => Some(v@),
                None => None,
            },
        ) is None,
{
    match home_var {
        Some(h) => if h.is_empty() {
            None
        } else {
            Some(string_from(h))
        },
        None => None,
    }
}

/// The candidate Steam roots for the given `$HOME` value, in priority order;
/// empty when there is no home directory.
pub fn steam_root_candidates(home_var: Option<&str>) -> (res: Vec<String>)
    ensures
        home_var is None || home_var.unwrap()@.len() == 0 ==> res@.len() == 0,
        home_var matches Some(h) ==> (h@.len() > 0 ==> string_views(res@) == root_candidates(h@)),
        home_var matches Some(h) ==> (h@.len() > 0 ==> string_views(res@) == seq![
            joined(h@, ".local/share/Steam"@),
            joined(h@, ".steam/root"@),
            joined(h@, ".steam/steam"@),
            joined(h@, ".steam/debian-installation"@),
        ]),
{
    let mut out: Vec<String> = Vec::new();
    match home_var {
        Some(h) => {
            if !h.is_empty() {
                out.push(path_join(h, ".local/share/Steam"));
                out.push(path_join(h, ".steam/root"));
                out.push(path_join(h, ".steam/steam"));
                out.push(path_join(h, ".steam/debian-installation"));
                assert(string_views(out@) =~= root_candidates(h@));
            }
        },
        None => {},
    }
    out
}

/// The directory whose existence marks a Steam root.
pub open spec fn steamapps_in(root: Seq<char>) -> Seq<char> {
    joined(root, "steamapps"@)
}

/// The `steamapps` directory of a candidate root: the one whose existence
/// [`find_steam_root`] is told about.
pub fn steamapps_dir(root: &str) -> (res: String)
    ensures
        res@ == steamapps_in(root@),
        res@ == joined(root@, "steamapps"@),
{
    path_join(root, "steamapps")
}

/// Find the Steam root: the first of [`steam_root_candidates`]`(home_var)`
/// whose `steamapps` directory exists, where `has_steamapps[k]` tells whether
/// it exists for the `k`-th candidate.
pub fn find_steam_root(home_var: Option<&str>, has_steamapps: &Vec<bool>) -> (res: Option<String>)
    ensures
        home_var is None || home_var.unwrap()@.len() == 0 ==> res is None,
        home_var matches Some(h) ==> (h@.len() > 0 ==> (match res {
            Some(r) => first_flagged_from(root_candidates(h@), has_steamapps@, 0) == Some(r@),
            None => first_flagged_from(root_candidates(h@), has_steamapps@, 0) is None,
        })),
        home_var matches Some(h) ==> (h@.len() > 0 ==> {
            let cands = seq![
                joined(h@, ".local/share/Steam"@),
                joined(h@, ".steam/root"@),
                joined(h@, ".steam/steam"@),
                joined(h@, ".steam/debian-installation"@),
            ];
            &&& res matches Some(r) ==> exists|k: int|
                0 <= k < 4 && k < has_steamapps@.len() && has_steamapps@[k] && r@ == cands[k]
                    && forall|j: int| 0 <= j < k ==> !has_steamapps@[j]
            &&& res is None ==> forall|k: int|
                0 <= k < 4 && k < has_steamapps@.len() ==> !has_steamapps@[k]
        }),
{
    let cands = steam_root_candidates(home_var);
    let res = first_flagged(cands, has_steamapps);
    proof {
        if home_var is Some && home_var.unwrap()@.len() > 0 {
            lemma_first_flagged(root_candidates(home_var.unwrap()@), has_steamapps@, 0);
        }
    }
    res
}

/// The first flagged candidate from position `i` on is a candidate whose flag
/// is set and before which, from `i`, no flag is set; there is none exactly
/// when no flag from `i` on (within both lengths) is set.
pub proof fn lemma_first_flagged(cands: Seq<Seq<char>>, flags: Seq<bool>, i: int)
    requires
        0 <= i,
    ensures
        first_flagged_from(cands, flags, i) matches Some(r) ==> exists|k: int|
            i <= k < cands.len() && k < flags.len() && flags[k] && r == cands[k] && forall|j: int|
                i <= j < k ==> !flags[j],
        first_flagged_from(cands, flags, i) is None ==> forall|k: int|
            i <= k < cands.len() && k < flags.len() ==> !flags[k],
    decreases cands.len() - i,
{
    if i < cands.len() && i < flags.len() && !flags[i] {
        lemma_first_flagged(cands, flags, i + 1);
        match first_flagged_from(cands, flags, i) {
            Some(r) => {
                let k = choose|k: int|
                    i + 1 <= k < cands.len() && k < flags.len() && flags[k] && r == cands[k]
                        && forall|j: int| i + 1 <= j < k ==> !flags[j];
                assert forall|j: int| i <= j < k implies !flags[j] by {
                    if j > i {
                        assert(i + 1 <= j < k);
                    }
                }
            },
            None => {},
        }
    }
}

} // verus!
