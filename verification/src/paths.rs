//! A model of Unix paths held as strings: joining (`PathBuf::join`), the
//! components a path splits into (`Path::components`), the last component
//! (`Path::file_name`) and the chain of ancestors (`Path::parent`).
//!
//! Components are the pieces between `/` separators; empty pieces (from a
//! leading `/` or doubled `/`) and `.` pieces are not components, except that a
//! relative path starting with `./` (or equal to `.`) begins with the current
//! directory, which is recorded by [`has_cur_dir_prefix`].

use crate::text::{chars_of, matches_at, push_str, string_of, string_of_range};
use vstd::prelude::*;

verus! {

/// `PathBuf::join` / `PathBuf::push` on Unix: an absolute `seg` replaces the
/// base; otherwise `seg` is appended, with a `/` in between when the base is
/// not empty and does not already end in `/`.
pub open spec fn joined(base: Seq<char>, seg: Seq<char>) -> Seq<char> {
    if seg.len() > 0 && seg[0] == '/' {
        seg
    } else if base.len() > 0 && base.last() != '/' {
        base + seq!['/'] + seg
    } else {
        base + seg
    }
}

/// Joins `seg` onto `base` as `Path::join` does.
pub fn path_join(base: &str, seg: &str) -> (res: String)
    ensures
        res@ == joined(base@, seg@),
{
    let b = chars_of(base);
    let s = chars_of(seg);
    if s.len() > 0 && s[0] == '/' {
        return string_of(&s);
    }
    let mut out = string_of(&b);
    if b.len() > 0 && b[b.len() - 1] != '/' {
        out.push('/');
    }
    push_str(&mut out, seg);
    out
}

/// Whether a piece between separators is a component (not empty, not `.`).
pub open spec fn is_component_piece(p: Seq<char>) -> bool {
    p.len() > 0 && p != seq!['.']
}

/// Records the piece `s[a..b]` if it is a component.
pub open spec fn close_piece(s: Seq<char>, a: int, b: int, acc: Seq<(int, int)>) -> Seq<
    (int, int),
> {
    if is_component_piece(s.subrange(a, b)) {
        acc.push((a, b))
    } else {
        acc
    }
}

/// The component ranges of `s[i..]`, given that the current piece started at
/// `start` and the components before it are `acc`.
pub open spec fn scan_components(s: Seq<char>, i: int, start: int, acc: Seq<(int, int)>) -> Seq<
    (int, int),
>
    decreases s.len() - i,
{
    if i >= s.len() {
        close_piece(s, start, s.len() as int, acc)
    } else if s[i] == '/' {
        scan_components(s, i + 1, i + 1, close_piece(s, start, i, acc))
    } else {
        scan_components(s, i + 1, start, acc)
    }
}

/// The `[start, end)` character ranges of the components of the path `s`
/// (the root and a leading current-directory `.` excluded).
pub open spec fn components(s: Seq<char>) -> Seq<(int, int)> {
    scan_components(s, 0, 0, seq![])
}

/// The text of the `k`-th component of `s`.
pub open spec fn component(s: Seq<char>, k: int) -> Seq<char> {
    s.subrange(components(s)[k].0, components(s)[k].1)
}

/// The path is absolute (starts with `/`).
pub open spec fn has_root(s: Seq<char>) -> bool {
    s.len() > 0 && s[0] == '/'
}

/// The path is relative and starts with the current directory (`.` or `./`).
pub open spec fn has_cur_dir_prefix(s: Seq<char>) -> bool {
    !has_root(s) && s.len() > 0 && s[0] == '.' && (s.len() == 1 || s[1] == '/')
}

/// The path made of the first `k` components of `s`, as the repeated
/// `Path::parent` of `s` spells it: the input text up to the end of the
/// `k`-th component; for `k == 0`, `/` for an absolute path, `.` for one
/// starting with `./`, and the empty path otherwise.
pub open spec fn ancestor(s: Seq<char>, k: int) -> Seq<char> {
    if k >= 1 {
        s.subrange(0, components(s)[k - 1].1)
    } else if has_root(s) || has_cur_dir_prefix(s) {
        s.subrange(0, 1)
    } else {
        seq![]
    }
}

/// `Path::file_name`: the last component, unless the path has none or it is
/// `..`.
pub open spec fn file_name(s: Seq<char>) -> Option<Seq<char>> {
    let n = components(s).len();
    if n > 0 && component(s, n - 1) != seq!['.', '.'] {
        Some(component(s, n - 1))
    } else {
        None
    }
}

/// All component ranges of `c` lie inside `0..n`, in order.
pub open spec fn ranges_ok(c: Seq<(int, int)>, n: int) -> bool {
    forall|k: int| 0 <= k < c.len() ==> 0 <= (#[trigger] c[k]).0 <= c[k].1 <= n
}

proof fn lemma_scan_ok(s: Seq<char>, i: int, start: int, acc: Seq<(int, int)>)
    requires
        0 <= start <= i <= s.len(),
        ranges_ok(acc, s.len() as int),
    ensures
        ranges_ok(scan_components(s, i, start, acc), s.len() as int),
    decreases s.len() - i,
{
    if i >= s.len() {
    } else if s[i] == '/' {
        lemma_scan_ok(s, i + 1, i + 1, close_piece(s, start, i, acc));
    } else {
        lemma_scan_ok(s, i + 1, start, acc);
    }
}

/// Whether `cs[a..b]` equals `p`.
pub fn range_equals(cs: &[char], a: usize, b: usize, p: &[char]) -> (res: bool)
    requires
        a <= b <= cs@.len(),
    ensures
        res == (cs@.subrange(a as int, b as int) == p@),
{
    if b - a != p.len() {
        assert(cs@.subrange(a as int, b as int).len() != p@.len());
        return false;
    }
    matches_at(cs, a, p)
}

/// The component ranges of the path `cs`.
pub fn components_of(cs: &[char]) -> (res: Vec<(usize, usize)>)
    ensures
        res@.len() == components(cs@).len(),
        forall|k: int|
            0 <= k < res@.len() ==> (#[trigger] res@[k]).0 as int == components(cs@)[k].0
                && res@[k].1 as int == components(cs@)[k].1,
        forall|k: int| 0 <= k < res@.len() ==> (#[trigger] res@[k]).0 <= res@[k].1 <= cs@.len(),
{
    let ghost s = cs@;
    let dot = ['.'];
    let mut out: Vec<(usize, usize)> = Vec::new();
    let ghost mut acc: Seq<(int, int)> = seq![];
    let mut start: usize = 0;
    let mut i: usize = 0;
    let n = cs.len();
    while i < n
        invariant
            s == cs@,
            n == cs@.len(),
            start <= i <= n,
            scan_components(s, i as int, start as int, acc) == components(s),
            dot@ == seq!['.'],
            out@.len() == acc.len(),
            forall|k: int|
                0 <= k < out@.len() ==> (#[trigger] out@[k]).0 as int == acc[k].0 && out@[k].1
                    as int == acc[k].1,
            forall|k: int| 0 <= k < out@.len() ==> (#[trigger] out@[k]).0 <= out@[k].1 <= n,
        decreases n - i,
    {
        if cs[i] == '/' {
            let is_dot = range_equals(cs, start, i, &dot);
            if i - start > 0 && !is_dot {
                out.push((start, i));
                proof {
                    acc = acc.push((start as int, i as int));
                }
            }
            start = i + 1;
        }
        i = i + 1;
    }
    let is_dot = range_equals(cs, start, n, &dot);
    if n - start > 0 && !is_dot {
        out.push((start, n));
        proof {
            acc = acc.push((start as int, n as int));
        }
    }
    out
}

/// The path made of the first `k` components of `cs` (see [`ancestor`]).
pub fn ancestor_of(cs: &[char], comps: &Vec<(usize, usize)>, k: usize) -> (res: String)
    requires
        comps@.len() == components(cs@).len(),
        forall|j: int|
            0 <= j < comps@.len() ==> (#[trigger] comps@[j]).0 as int == components(cs@)[j].0
                && comps@[j].1 as int == components(cs@)[j].1,
        forall|j: int| 0 <= j < comps@.len() ==> (#[trigger] comps@[j]).0 <= comps@[j].1 <= cs@.len(),
        k <= comps@.len(),
    ensures
        res@ == ancestor(cs@, k as int),
{
    if k >= 1 {
        let end = comps[k - 1].1;
        string_of_range(cs, 0, end)
    } else {
        let n = cs.len();
        let rooted = n > 0 && cs[0] == '/';
        let cur = !rooted && n > 0 && cs[0] == '.' && (n == 1 || cs[1] == '/');
        if rooted || cur {
            string_of_range(cs, 0, 1)
        } else {
            let e: Vec<char> = Vec::new();
            let r = string_of(e.as_slice());
            assert(r@ =~= seq![]);
            r
        }
    }
}

/// The last component of the path `p`, unless it has none or it is `..`
/// (`Path::file_name`).
pub fn path_file_name(p: &str) -> (res: Option<String>)
    ensures
        res matches Some(r) ==> file_name(p@) == Some(r@),
        res is None ==> file_name(p@) is None,
{
    let cs = chars_of(p);
    let comps = components_of(&cs);
    let n = comps.len();
    if n == 0 {
        return None;
    }
    let (a, b) = comps[n - 1];
    let dotdot = ['.', '.'];
    if range_equals(&cs, a, b, &dotdot) {
        return None;
    }
    Some(string_of_range(&cs, a, b))
}


/// The order key of one component: `..` (a parent-directory component) sorts
/// as `3`, a normal component as `4` followed by its characters (each plus
/// one) and a `0` terminator.
pub open spec fn component_key(c: Seq<char>) -> Seq<u32> {
    if c == seq!['.', '.'] {
        seq![3u32]
    } else {
        seq![4u32] + c.map_values(|ch: char| (ch as u32 + 1) as u32) + seq![0u32]
    }
}

/// The keys of the first `k` components of `s`, concatenated.
pub open spec fn components_key(s: Seq<char>, k: int) -> Seq<u32>
    decreases k,
{
    if k <= 0 {
        seq![]
    } else {
        components_key(s, k - 1) + component_key(component(s, k - 1))
    }
}

/// The order key of a path. Paths are ordered (and compared) as `Path`
/// orders them: by their components, lexicographically, where the root
/// directory (`1`) comes before a leading current directory (`2`), which
/// comes before `..` (`3`), which comes before normal components (`4`), and
/// normal components compare by their text. Two paths with equal keys have
/// the same components and are equal as `PathBuf`s.
#[verifier::opaque]
pub open spec fn path_key(s: Seq<char>) -> Seq<u32> {
    let lead = if has_root(s) {
        seq![1u32]
    } else if has_cur_dir_prefix(s) {
        seq![2u32]
    } else {
        seq![]
    };
    lead + components_key(s, components(s).len() as int)
}

/// The order key of the path `p` (see [`path_key`]).
pub fn path_order_key(p: &str) -> (res: Vec<u32>)
    ensures
        res@ == path_key(p@),
{
    proof {
        reveal(path_key);
    }
    let cs = chars_of(p);
    let comps = components_of(&cs);
    let n = cs.len();
    let mut out: Vec<u32> = Vec::new();
    let rooted = n > 0 && cs[0] == '/';
    let cur = !rooted && n > 0 && cs[0] == '.' && (n == 1 || cs[1] == '/');
    if rooted {
        out.push(1);
    } else if cur {
        out.push(2);
    }
    let ghost lead = out@;
    let dotdot = ['.', '.'];
    let mut k: usize = 0;
    assert(out@ =~= lead + components_key(cs@, 0));
    while k < comps.len()
        invariant
            cs@ == p@,
            comps@.len() == components(cs@).len(),
            forall|j: int|
                0 <= j < comps@.len() ==> (#[trigger] comps@[j]).0 as int == components(cs@)[j].0
                    && comps@[j].1 as int == components(cs@)[j].1,
            forall|j: int| 0 <= j < comps@.len() ==> (#[trigger] comps@[j]).0 <= comps@[j].1 <= cs@.len(),
            k <= comps@.len(),
            dotdot@ == seq!['.', '.'],
            out@ == lead + components_key(cs@, k as int),
        decreases comps@.len() - k,
    {
        let (a, b) = comps[k];
        let ghost c = cs@.subrange(a as int, b as int);
        assert(component(cs@, k as int) == c);
        let ghost before = out@;
        if range_equals(&cs, a, b, &dotdot) {
            out.push(3);
            assert(out@ =~= before + component_key(c));
        } else {
            out.push(4);
            let mut i = a;
            while i < b
                invariant
                    a <= i <= b <= cs@.len(),
                    c == cs@.subrange(a as int, b as int),
                    out@ == before + seq![4u32] + cs@.subrange(a as int, i as int).map_values(
                        |ch: char| (ch as u32 + 1) as u32,
                    ),
                decreases b - i,
            {
                proof {
                    vstd::utf8::char_is_scalar(cs@[i as int]);
                }
                let v = cs[i] as u32 + 1;
                out.push(v);
                i = i + 1;
                assert(cs@.subrange(a as int, i as int).map_values(|ch: char| (ch as u32 + 1) as u32)
                    =~= cs@.subrange(a as int, i - 1).map_values(|ch: char| (ch as u32 + 1) as u32).push(v));
            }
            out.push(0);
            assert(out@ =~= before + component_key(c));
        }
        assert(out@ =~= lead + components_key(cs@, k + 1));
        k = k + 1;
    }
    out
}

} // verus!
