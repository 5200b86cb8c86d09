//! Character-level text helpers shared by the path, configuration and
//! discovery logic: building strings, decimal numbers, whitespace, line
//! splitting, prefixes and suffixes.

use vstd::prelude::*;
use vstd::string::StrSliceExecFns;

verus! {

/// The plain value of an optional string argument.
pub open spec fn opt_view(o: Option<&str>) -> Option<Seq<char>> {
    match o {
        Some(s) => Some(s@),
        None => None,
    }
}

/// `String::push` appends one character to the end of the string.
pub assume_specification[ String::push ](s: &mut String, ch: char)
    ensures
        final(s)@ == old(s)@.push(ch),
;

/// The characters of `s`, as a vector.
pub fn chars_of(s: &str) -> (res: Vec<char>)
    ensures
        res@ == s@,
{
    let n = s.unicode_len();
    let mut out: Vec<char> = Vec::new();
    let mut i: usize = 0;
    while i < n
        invariant
            n == s@.len(),
            i <= n,
            out@ == s@.subrange(0, i as int),
        decreases n - i,
    {
        let c = s.get_char(i);
        out.push(c);
        i = i + 1;
    }
    out
}

/// A `String` holding exactly the characters `cs[start..end]`.
pub fn string_of_range(cs: &[char], start: usize, end: usize) -> (res: String)
    requires
        start <= end <= cs@.len(),
    ensures
        res@ == cs@.subrange(start as int, end as int),
{
    let mut out = String::new();
    let mut i: usize = start;
    while i < end
        invariant
            start <= i <= end <= cs@.len(),
            out@ == cs@.subrange(start as int, i as int),
        decreases end - i,
    {
        out.push(cs[i]);
        i = i + 1;
    }
    out
}

/// A `String` holding exactly the characters of `cs`.
pub fn string_of(cs: &[char]) -> (res: String)
    ensures
        res@ == cs@,
{
    let r = string_of_range(cs, 0, cs.len());
    assert(cs@.subrange(0, cs@.len() as int) == cs@);
    r
}

/// Appends the characters of `t` to `s`.
pub fn push_str(s: &mut String, t: &str)
    ensures
        final(s)@ == old(s)@ + t@,
{
    let cs = chars_of(t);
    let mut i: usize = 0;
    while i < cs.len()
        invariant
            i <= cs@.len(),
            cs@ == t@,
            s@ == old(s)@ + t@.subrange(0, i as int),
        decreases cs@.len() - i,
    {
        s.push(cs[i]);
        i = i + 1;
    }
    assert(t@.subrange(0, t@.len() as int) == t@);
}

/// A new `String` holding the characters of `t`.
pub fn string_from(t: &str) -> (res: String)
    ensures
        res@ == t@,
{
    let mut s = String::new();
    push_str(&mut s, t);
    s
}

/// The decimal digit character for `d < 10`.
pub open spec fn digit_char(d: nat) -> char {
    ((48 + d) as u32) as char
}

/// The decimal representation of `n` without leading zeros (`"0"` for zero),
/// as `u32::to_string` / `usize::to_string` produce it.
pub open spec fn decimal(n: nat) -> Seq<char>
    decreases n,
{
    if n < 10 {
        seq![digit_char(n)]
    } else {
        decimal(n / 10).push(digit_char(n % 10))
    }
}

/// The decimal representation of `n`, left-padded with `'0'` to at least
/// `width` characters (`format!("{:0width$}", n)`).
pub open spec fn zero_padded(n: nat, width: nat) -> Seq<char> {
    let d = decimal(n);
    if d.len() >= width {
        d
    } else {
        Seq::new((width - d.len()) as nat, |i: int| '0') + d
    }
}

/// Appends the decimal representation of `n` to `out`.
pub fn push_decimal(out: &mut String, n: u64)
    ensures
        final(out)@ == old(out)@ + decimal(n as nat),
    decreases n,
{
    if n >= 10 {
        push_decimal(out, n / 10);
    }
    let d = (n % 10) as u8;
    let c = (48u8 + d) as char;
    out.push(c);
}

/// The number of characters of `decimal(n)`.
pub fn decimal_len(n: u64) -> (res: u64)
    ensures
        res == decimal(n as nat).len(),
        1 <= res <= n as int + 1,
    decreases n,
{
    if n >= 10 {
        let r = decimal_len(n / 10);
        r + 1
    } else {
        1
    }
}

/// `n` in decimal, left-padded with zeros to `width` characters.
pub fn zero_padded_decimal(n: u64, width: u64) -> (res: String)
    ensures
        res@ == zero_padded(n as nat, width as nat),
{
    let len = decimal_len(n);
    let mut out = String::new();
    if len < width {
        let mut i: u64 = 0;
        while i < width - len
            invariant
                len < width,
                i <= width - len,
                out@ == Seq::new(i as nat, |j: int| '0'),
            decreases width - len - i,
        {
            out.push('0');
            i = i + 1;
            assert(out@ =~= Seq::new(i as nat, |j: int| '0'));
        }
    }
    let ghost pad = out@;
    push_decimal(&mut out, n);
    proof {
        if len < width {
            assert(pad =~= Seq::new((width - decimal(n as nat).len()) as nat, |i: int| '0'));
        } else {
            assert(pad =~= Seq::<char>::empty());
            assert(out@ =~= decimal(n as nat));
        }
    }
    out
}

/// The decimal representation of a signed number (`i32::to_string`).
pub open spec fn signed_decimal(n: int) -> Seq<char> {
    if n < 0 {
        seq!['-'] + decimal((-n) as nat)
    } else {
        decimal(n as nat)
    }
}

/// `n` in decimal, with a leading `-` when negative.
pub fn i32_decimal(n: i32) -> (res: String)
    ensures
        res@ == signed_decimal(n as int),
{
    let mut out = String::new();
    if n < 0 {
        out.push('-');
        let m: u64 = (0i64 - n as i64) as u64;
        push_decimal(&mut out, m);
    } else {
        push_decimal(&mut out, n as u64);
        assert(out@ =~= decimal(n as nat));
    }
    out
}

/// `c` has the Unicode `White_Space` property, which is what
/// `char::is_whitespace` tests and what `str::trim` and
/// `str::split_whitespace` strip and split on.
pub open spec fn is_white_space_spec(c: char) -> bool {
    let u = c as u32;
    ||| 0x9 <= u <= 0xD
    ||| u == 0x20
    ||| u == 0x85
    ||| u == 0xA0
    ||| u == 0x1680
    ||| 0x2000 <= u <= 0x200A
    ||| u == 0x2028
    ||| u == 0x2029
    ||| u == 0x202F
    ||| u == 0x205F
    ||| u == 0x3000
}

/// Whether `c` is Unicode white space.
pub fn is_white_space(c: char) -> (res: bool)
    ensures
        res == is_white_space_spec(c),
{
    let u = c as u32;
    (0x9 <= u && u <= 0xD) || u == 0x20 || u == 0x85 || u == 0xA0 || u == 0x1680 || (0x2000 <= u
        && u <= 0x200A) || u == 0x2028 || u == 0x2029 || u == 0x202F || u == 0x205F || u == 0x3000
}

/// `s` with leading white space removed.
pub open spec fn trim_front(s: Seq<char>) -> Seq<char>
    decreases s.len(),
{
    if s.len() > 0 && is_white_space_spec(s[0]) {
        trim_front(s.drop_first())
    } else {
        s
    }
}

/// `s` with trailing white space removed.
pub open spec fn trim_back(s: Seq<char>) -> Seq<char>
    decreases s.len(),
{
    if s.len() > 0 && is_white_space_spec(s.last()) {
        trim_back(s.drop_last())
    } else {
        s
    }
}

/// `str::trim`: `s` with leading and trailing white space removed.
pub open spec fn trimmed(s: Seq<char>) -> Seq<char> {
    trim_back(trim_front(s))
}

proof fn lemma_trim_front_skip(s: Seq<char>, i: int)
    requires
        0 <= i <= s.len(),
        forall|j: int| 0 <= j < i ==> is_white_space_spec(#[trigger] s[j]),
    ensures
        trim_front(s) == trim_front(s.skip(i)),
    decreases i,
{
    if i > 0 {
        assert(s.skip(1) =~= s.drop_first());
        lemma_trim_front_skip(s.drop_first(), i - 1);
        assert(s.drop_first().skip(i - 1) =~= s.skip(i));
    } else {
        assert(s.skip(0) =~= s);
    }
}

proof fn lemma_trim_back_take(s: Seq<char>, i: int)
    requires
        0 <= i <= s.len(),
        forall|j: int| i <= j < s.len() ==> is_white_space_spec(#[trigger] s[j]),
    ensures
        trim_back(s) == trim_back(s.take(i)),
    decreases s.len() - i,
{
    if i < s.len() {
        assert(s.take(s.len() - 1) =~= s.drop_last());
        lemma_trim_back_take(s.drop_last(), i);
        assert(s.drop_last().take(i) =~= s.take(i));
    } else {
        assert(s.take(i) =~= s);
    }
}

/// The characters `cs[start..end]` with white space trimmed from both ends.
pub fn trim_range(cs: &[char], start: usize, end: usize) -> (res: String)
    requires
        start <= end <= cs@.len(),
    ensures
        res@ == trimmed(cs@.subrange(start as int, end as int)),
{
    let ghost s = cs@.subrange(start as int, end as int);
    let mut a = start;
    while a < end && is_white_space(cs[a])
        invariant
            start <= a <= end <= cs@.len(),
            s == cs@.subrange(start as int, end as int),
            forall|j: int| start <= j < a ==> is_white_space_spec(#[trigger] cs@[j]),
        decreases end - a,
    {
        a = a + 1;
    }
    proof {
        assert forall|j: int| 0 <= j < a - start implies is_white_space_spec(#[trigger] s[j]) by {
            assert(s[j] == cs@[start + j]);
        }
        lemma_trim_front_skip(s, a - start);
        assert(s.skip(a - start) =~= cs@.subrange(a as int, end as int));
        if a < end {
            assert(!is_white_space_spec(cs@[a as int]));
            assert(trim_front(cs@.subrange(a as int, end as int)) == cs@.subrange(a as int, end as int));
        } else {
            assert(cs@.subrange(a as int, end as int) =~= Seq::<char>::empty());
        }
    }
    let ghost t = cs@.subrange(a as int, end as int);
    let mut b = end;
    while b > a && is_white_space(cs[b - 1])
        invariant
            start <= a <= b <= end <= cs@.len(),
            t == cs@.subrange(a as int, end as int),
            forall|j: int| b <= j < end ==> is_white_space_spec(#[trigger] cs@[j]),
        decreases b - a,
    {
        b = b - 1;
    }
    proof {
        assert forall|j: int| b - a <= j < t.len() implies is_white_space_spec(#[trigger] t[j]) by {
            assert(t[j] == cs@[a + j]);
        }
        lemma_trim_back_take(t, b - a);
        assert(t.take(b - a) =~= cs@.subrange(a as int, b as int));
        if b > a {
            assert(!is_white_space_spec(cs@[b - 1]));
            assert(cs@.subrange(a as int, b as int).last() == cs@[b - 1]);
        }
    }
    string_of_range(cs, a, b)
}

/// `p` is a prefix of `s`.
pub open spec fn has_prefix(s: Seq<char>, p: Seq<char>) -> bool {
    p.len() <= s.len() && s.subrange(0, p.len() as int) == p
}

/// `p` is a suffix of `s`.
pub open spec fn has_suffix(s: Seq<char>, p: Seq<char>) -> bool {
    p.len() <= s.len() && s.subrange(s.len() - p.len(), s.len() as int) == p
}

/// `p` occurs in `s` starting at index `k`.
pub open spec fn occurs_at(s: Seq<char>, p: Seq<char>, k: int) -> bool {
    0 <= k && k + p.len() <= s.len() && s.subrange(k, k + p.len()) == p
}

/// Whether `cs[at..]` begins with `p`.
pub fn matches_at(cs: &[char], at: usize, p: &[char]) -> (res: bool)
    requires
        at <= cs@.len(),
    ensures
        res == occurs_at(cs@, p@, at as int),
{
    let n = cs.len();
    if p.len() > n - at {
        return false;
    }
    assert(at + p@.len() <= cs@.len());
    let mut i: usize = 0;
    while i < p.len()
        invariant
            n == cs@.len(),
            at <= cs@.len(),
            p@.len() <= cs@.len() - at,
            at + p@.len() <= cs@.len(),
            i <= p@.len(),
            forall|j: int| 0 <= j < i ==> cs@[at + j] == p@[j],
        decreases p@.len() - i,
    {
        assert(at + i < cs@.len());
        if cs[at + i] != p[i] {
            assert(cs@.subrange(at as int, at + p@.len())[i as int] != p@[i as int]);
            return false;
        }
        i = i + 1;
    }
    assert(cs@.subrange(at as int, at + p@.len()) =~= p@);
    true
}

/// Whether `s` starts with `p`.
pub fn starts_with(s: &[char], p: &[char]) -> (res: bool)
    ensures
        res == has_prefix(s@, p@),
{
    matches_at(s, 0, p)
}

/// Whether `s` ends with `p`.
pub fn ends_with(s: &[char], p: &[char]) -> (res: bool)
    ensures
        res == has_suffix(s@, p@),
{
    if p.len() > s.len() {
        return false;
    }
    matches_at(s, s.len() - p.len(), p)
}

/// The lines of `s[i..]`, given that the current line started at `start`
/// and the lines before it are `acc`.
pub open spec fn lines_from(s: Seq<char>, i: int, start: int, acc: Seq<(int, int)>) -> Seq<
    (int, int),
>
    decreases s.len() - i,
{
    if i >= s.len() {
        if start < s.len() {
            acc.push((start, s.len() as int))
        } else {
            acc
        }
    } else if s[i] == '\n' {
        let end = if i > start && s[i - 1] == '\r' {
            i - 1
        } else {
            i
        };
        lines_from(s, i + 1, i + 1, acc.push((start, end)))
    } else {
        lines_from(s, i + 1, start, acc)
    }
}

/// The `[start, end)` ranges of the lines of `s` as `str::lines` yields
/// them: split at `'\n'`, with a `'\r'` directly before the `'\n'` removed,
/// and no empty last line after a final `'\n'`.
pub open spec fn line_ranges(s: Seq<char>) -> Seq<(int, int)> {
    lines_from(s, 0, 0, seq![])
}

/// The lines of `s` (`str::lines`).
pub open spec fn lines(s: Seq<char>) -> Seq<Seq<char>> {
    line_ranges(s).map_values(|r: (int, int)| s.subrange(r.0, r.1))
}

/// All ranges in `r` lie within `0..n` and are well ordered.
pub open spec fn ranges_within(r: Seq<(int, int)>, n: int) -> bool {
    forall|k: int| 0 <= k < r.len() ==> 0 <= (#[trigger] r[k]).0 <= r[k].1 <= n
}

proof fn lemma_lines_from_within(s: Seq<char>, i: int, start: int, acc: Seq<(int, int)>)
    requires
        0 <= start <= i <= s.len(),
        ranges_within(acc, s.len() as int),
    ensures
        ranges_within(lines_from(s, i, start, acc), s.len() as int),
    decreases s.len() - i,
{
    if i >= s.len() {
    } else if s[i] == '\n' {
        let end = if i > start && s[i - 1] == '\r' {
            i - 1
        } else {
            i
        };
        lemma_lines_from_within(s, i + 1, i + 1, acc.push((start, end)));
    } else {
        lemma_lines_from_within(s, i + 1, start, acc);
    }
}

/// The `[start, end)` character ranges of the lines of `cs`.
pub fn line_ranges_of(cs: &[char]) -> (res: Vec<(usize, usize)>)
    ensures
        res@.len() == line_ranges(cs@).len(),
        forall|k: int|
            0 <= k < res@.len() ==> (#[trigger] res@[k]).0 as int == line_ranges(cs@)[k].0
                && res@[k].1 as int == line_ranges(cs@)[k].1,
        forall|k: int| 0 <= k < res@.len() ==> (#[trigger] res@[k]).0 <= res@[k].1 <= cs@.len(),
{
    let ghost s = cs@;
    let mut out: Vec<(usize, usize)> = Vec::new();
    let ghost mut acc: Seq<(int, int)> = seq![];
    let mut start: usize = 0;
    let mut i: usize = 0;
    while i < cs.len()
        invariant
            s == cs@,
            start <= i <= cs@.len(),
            lines_from(s, i as int, start as int, acc) == line_ranges(s),
            out@.len() == acc.len(),
            forall|k: int|
                0 <= k < out@.len() ==> (#[trigger] out@[k]).0 as int == acc[k].0 && out@[k].1
                    as int == acc[k].1,
            forall|k: int| 0 <= k < out@.len() ==> (#[trigger] out@[k]).0 <= out@[k].1 <= cs@.len(),
        decreases cs@.len() - i,
    {
        if cs[i] == '\n' {
            let end = if i > start && cs[i - 1] == '\r' {
                i - 1
            } else {
                i
            };
            out.push((start, end));
            proof {
                acc = acc.push((start as int, end as int));
            }
            start = i + 1;
        }
        i = i + 1;
    }
    if start < cs.len() {
        out.push((start, cs.len()));
        proof {
            acc = acc.push((start as int, cs@.len() as int));
        }
    }
    out
}

/// Whether the character sequence `cs` consists of decimal digits only.
pub open spec fn all_digits(cs: Seq<char>) -> bool {
    forall|i: int| 0 <= i < cs.len() ==> '0' <= #[trigger] cs[i] <= '9'
}

/// The value of a sequence of decimal digits.
pub open spec fn digits_value(cs: Seq<char>) -> nat
    decreases cs.len(),
{
    if cs.len() == 0 {
        0
    } else {
        digits_value(cs.drop_last()) * 10 + ((cs.last() as u32) - 48) as nat
    }
}

/// What `str::parse::<u32>` accepts: an optional `+`, then one or more
/// decimal digits whose value fits in a `u32`.
pub open spec fn parsed_u32(s: Seq<char>) -> Option<u32> {
    let body = if s.len() > 0 && s[0] == '+' {
        s.drop_first()
    } else {
        s
    };
    if body.len() == 0 || !all_digits(body) || digits_value(body) > u32::MAX {
        None
    } else {
        Some(digits_value(body) as u32)
    }
}

proof fn lemma_digits_value_monotone(cs: Seq<char>, i: int)
    requires
        0 <= i <= cs.len(),
        all_digits(cs),
    ensures
        digits_value(cs.take(i)) <= digits_value(cs),
    decreases cs.len() - i,
{
    if i < cs.len() {
        assert(cs.drop_last().take(i) =~= cs.take(i));
        assert(all_digits(cs.drop_last()));
        lemma_digits_value_monotone(cs.drop_last(), i);
    } else {
        assert(cs.take(i) =~= cs);
    }
}

/// Parses `s` as a `u32` the way `str::parse::<u32>` does.
pub fn parse_u32(s: &str) -> (res: Option<u32>)
    ensures
        res == parsed_u32(s@),
{
    let cs = chars_of(s);
    let first: usize = if cs.len() > 0 && cs[0] == '+' {
        1
    } else {
        0
    };
    let ghost body = if s@.len() > 0 && s@[0] == '+' {
        s@.drop_first()
    } else {
        s@
    };
    assert(body =~= cs@.skip(first as int));
    if first == cs.len() {
        return None;
    }
    let mut v: u64 = 0;
    let mut i: usize = first;
    while i < cs.len()
        invariant
            cs@ == s@,
            first <= i <= cs@.len(),
            body == (if s@.len() > 0 && s@[0] == '+' {
                s@.drop_first()
            } else {
                s@
            }),
            body == cs@.skip(first as int),
            all_digits(body.take(i - first)),
            v == digits_value(body.take(i - first)),
            v <= u32::MAX,
        decreases cs@.len() - i,
    {
        let c = cs[i];
        if c < '0' || c > '9' {
            proof {
                assert(body[i - first] == c);
                assert(!('0' <= body[i - first] <= '9'));
                assert(!all_digits(body));
                assert(parsed_u32(s@) is None);
            }
            return None;
        }
        let d = (c as u32 - 48) as u64;
        proof {
            assert(body.take(i - first + 1).drop_last() =~= body.take(i - first));
            assert(body.take(i - first + 1).last() == c);
        }
        v = v * 10 + d;
        assert(all_digits(body.take(i - first + 1)));
        assert(v == digits_value(body.take(i - first + 1)));
        if v > 0xFFFF_FFFF {
            proof {
                if all_digits(body) {
                    lemma_digits_value_monotone(body, i - first + 1);
                    assert(digits_value(body) > u32::MAX);
                }
                assert(parsed_u32(s@) is None);
            }
            return None;
        }
        i = i + 1;
    }
    assert(body.take(i - first) =~= body);
    Some(v as u32)
}

/// The Unicode lowercase mapping of `s` as `str::to_lowercase` computes it.
pub uninterp spec fn lowercase_of(s: Seq<char>) -> Seq<char>;

/// Calls `str::to_lowercase`: the string with every character replaced by
/// its Unicode lowercase mapping (a function of the input alone).
#[verifier::external_body]
pub(crate) fn to_lowercase(s: &str) -> (res: String)
    ensures
        res@ == lowercase_of(s@),
{
    s.to_lowercase()
}


/// The pieces of `ws` joined with `sep` between consecutive pieces
/// (`[&str]::join`).
pub open spec fn join_with(ws: Seq<Seq<char>>, sep: Seq<char>) -> Seq<char>
    decreases ws.len(),
{
    if ws.len() == 0 {
        seq![]
    } else if ws.len() == 1 {
        ws[0]
    } else {
        join_with(ws.drop_last(), sep) + sep + ws.last()
    }
}

/// Appends `sep` and then `w` to a join of `ws`, giving the join of `ws.push(w)`.
pub proof fn lemma_join_with_push(ws: Seq<Seq<char>>, w: Seq<char>, sep: Seq<char>)
    requires
        ws.len() > 0,
    ensures
        join_with(ws.push(w), sep) == join_with(ws, sep) + sep + w,
{
    assert(ws.push(w).drop_last() =~= ws);
}

/// Joins the strings of `parts` with `sep` between them.
pub fn join_strings(parts: &Vec<String>, sep: &str) -> (res: String)
    ensures
        res@ == join_with(parts@.map_values(|p: String| p@), sep@),
{
    let ghost ws = parts@.map_values(|p: String| p@);
    let mut out = String::new();
    let mut i: usize = 0;
    while i < parts.len()
        invariant
            i <= parts@.len(),
            ws == parts@.map_values(|p: String| p@),
            out@ == join_with(ws.take(i as int), sep@),
        decreases parts@.len() - i,
    {
        proof {
            if i > 0 {
                lemma_join_with_push(ws.take(i as int), ws[i as int], sep@);
            }
            assert(ws.take(i + 1) =~= ws.take(i as int).push(ws[i as int]));
        }
        if i > 0 {
            push_str(&mut out, sep);
        }
        push_str(&mut out, parts[i].as_str());
        proof {
            if i == 0 {
                assert(out@ =~= ws[0]);
            }
        }
        i = i + 1;
    }
    assert(ws.take(parts@.len() as int) =~= ws);
    out
}

/// The maximal runs of non-white-space characters of `s[i..]`, given that the
/// current run (if any) started at `start` and the runs before are `acc`.
pub open spec fn words_from(s: Seq<char>, i: int, start: Option<int>, acc: Seq<Seq<char>>) -> Seq<
    Seq<char>,
>
    decreases s.len() - i,
{
    if i >= s.len() {
        match start {
            Some(a) => acc.push(s.subrange(a, s.len() as int)),
            None => acc,
        }
    } else if is_white_space_spec(s[i]) {
        match start {
            Some(a) => words_from(s, i + 1, None, acc.push(s.subrange(a, i))),
            None => words_from(s, i + 1, None, acc),
        }
    } else {
        match start {
            Some(a) => words_from(s, i + 1, start, acc),
            None => words_from(s, i + 1, Some(i), acc),
        }
    }
}

/// The words of `s` as `str::split_whitespace` yields them: the maximal runs
/// of characters that are not white space.
pub open spec fn words(s: Seq<char>) -> Seq<Seq<char>> {
    words_from(s, 0, None, seq![])
}

/// The words of `s` joined with `sep`
/// (`s.split_whitespace().collect::<Vec<_>>().join(sep)`).
pub fn join_words(s: &str, sep: &str) -> (res: String)
    ensures
        res@ == join_with(words(s@), sep@),
{
    let cs = chars_of(s);
    let ghost sv = s@;
    let mut parts: Vec<String> = Vec::new();
    let ghost mut acc: Seq<Seq<char>> = seq![];
    let mut start: Option<usize> = None;
    let mut i: usize = 0;
    while i < cs.len()
        invariant
            cs@ == sv,
            sv == s@,
            i <= cs@.len(),
            start matches Some(a) ==> a < i,
            words_from(
                sv,
                i as int,
                match start {
                    Some(a) => Some(a as int),
                    None => None,
                },
                acc,
            ) == words(sv),
            parts@.map_values(|p: String| p@) == acc,
        decreases cs@.len() - i,
    {
        if is_white_space(cs[i]) {
            if let Some(a) = start {
                let w = string_of_range(&cs, a, i);
                parts.push(w);
                proof {
                    acc = acc.push(sv.subrange(a as int, i as int));
                    assert(parts@.map_values(|p: String| p@) =~= acc);
                }
                start = None;
            }
        } else {
            if start.is_none() {
                start = Some(i);
            }
        }
        i = i + 1;
    }
    if let Some(a) = start {
        let w = string_of_range(&cs, a, cs.len());
        parts.push(w);
        proof {
            acc = acc.push(sv.subrange(a as int, sv.len() as int));
            assert(parts@.map_values(|p: String| p@) =~= acc);
        }
    }
    join_strings(&parts, sep)
}

/// The index of the first `c` in `s`.
pub open spec fn first_index_of(s: Seq<char>, c: char) -> Option<int>
    decreases s.len(),
{
    if s.len() == 0 {
        None
    } else if s[0] == c {
        Some(0)
    } else {
        match first_index_of(s.drop_first(), c) {
            Some(k) => Some(k + 1),
            None => None,
        }
    }
}

/// `first_index_of(s, c)` is the position of an occurrence of `c` with none
/// before it, or `None` exactly when `c` does not occur in `s`.
pub proof fn lemma_first_index_of(s: Seq<char>, c: char)
    ensures
        first_index_of(s, c) matches Some(k) ==> 0 <= k < s.len() && s[k] == c && forall|m: int|
            0 <= m < k ==> s[m] != c,
        first_index_of(s, c) is None ==> forall|m: int| 0 <= m < s.len() ==> s[m] != c,
    decreases s.len(),
{
    if s.len() > 0 && s[0] != c {
        lemma_first_index_of(s.drop_first(), c);
        assert forall|m: int| 0 < m < s.len() implies s[m] == s.drop_first()[m - 1] by {}
    }
}

/// The index of the first `c` in `cs[from..]`, counted from the start of `cs`.
pub fn find_char(cs: &[char], from: usize, c: char) -> (res: Option<usize>)
    requires
        from <= cs@.len(),
    ensures
        res matches Some(k) ==> first_index_of(cs@.skip(from as int), c) == Some(k - from) && from
            <= k < cs@.len(),
        res is None ==> first_index_of(cs@.skip(from as int), c) is None,
{
    let mut i = from;
    while i < cs.len()
        invariant
            from <= i <= cs@.len(),
            first_index_of(cs@.skip(from as int), c) == (match first_index_of(
                cs@.skip(i as int),
                c,
            ) {
                Some(k) => Some(k + (i - from)),
                None => None,
            }),
        decreases cs@.len() - i,
    {
        if cs[i] == c {
            return Some(i);
        }
        assert(cs@.skip(i as int).drop_first() =~= cs@.skip(i + 1));
        i = i + 1;
    }
    None
}

/// The start of the last occurrence of `p` in `s` (`str::rfind`).
pub open spec fn last_occurrence(s: Seq<char>, p: Seq<char>) -> Option<int> {
    if exists|k: int| occurs_at(s, p, k) {
        Some(choose|k: int| occurs_at(s, p, k) && forall|j: int| #[trigger] occurs_at(s, p, j) ==> j <= k)
    } else {
        None
    }
}

proof fn lemma_max_occurrence_from(s: Seq<char>, p: Seq<char>, k: int)
    requires
        occurs_at(s, p, k),
    ensures
        exists|m: int| occurs_at(s, p, m) && forall|j: int| #[trigger] occurs_at(s, p, j) ==> j <= m,
    decreases s.len() - k,
{
    if exists|j: int| k < j && #[trigger] occurs_at(s, p, j) {
        let j = choose|j: int| k < j && #[trigger] occurs_at(s, p, j);
        lemma_max_occurrence_from(s, p, j);
    } else {
        assert forall|j: int| #[trigger] occurs_at(s, p, j) implies j <= k by {}
    }
}

/// The last occurrence of `p` in `s` is an occurrence with none after it;
/// there is none exactly when `p` does not occur in `s`.
pub proof fn lemma_last_occurrence(s: Seq<char>, p: Seq<char>)
    ensures
        last_occurrence(s, p) matches Some(m) ==> occurs_at(s, p, m) && forall|j: int|
            #[trigger] occurs_at(s, p, j) ==> j <= m,
        last_occurrence(s, p) is None ==> forall|j: int| !occurs_at(s, p, j),
{
    if exists|k: int| occurs_at(s, p, k) {
        let k = choose|k: int| occurs_at(s, p, k);
        lemma_max_occurrence_from(s, p, k);
    }
}

/// The start of the last occurrence of `p` in `cs[from..to]`.
pub fn rfind_in(cs: &[char], from: usize, to: usize, p: &[char]) -> (res: Option<usize>)
    requires
        from <= to <= cs@.len(),
    ensures
        res matches Some(k) ==> last_occurrence(cs@.subrange(from as int, to as int), p@) == Some(
            k - from,
        ) && from <= k <= to,
        res is None ==> last_occurrence(cs@.subrange(from as int, to as int), p@) is None,
{
    let ghost s = cs@.subrange(from as int, to as int);
    if p.len() > to - from {
        assert forall|k: int| !occurs_at(s, p@, k) by {}
        return None;
    }
    let mut k: usize = to - p.len();
    loop
        invariant
            from <= to <= cs@.len(),
            p@.len() <= to - from,
            from <= k <= to - p@.len(),
            s == cs@.subrange(from as int, to as int),
            forall|j: int| k - from < j && #[trigger] occurs_at(s, p@, j) ==> false,
        decreases k - from,
    {
        let m = matches_at(cs, k, p);
        if m {
            proof {
                assert(s.subrange(k - from, k - from + p@.len()) =~= cs@.subrange(k as int, k + p@.len()));
                assert(occurs_at(s, p@, k - from));
                assert forall|i: int| #[trigger] occurs_at(s, p@, i) implies i <= k - from by {}
            }
            return Some(k);
        }
        proof {
            assert forall|i: int| k - from <= i && #[trigger] occurs_at(s, p@, i) implies false by {
                if i == k - from {
                    assert(s.subrange(k - from, k - from + p@.len()) =~= cs@.subrange(k as int, k + p@.len()));
                }
            }
        }
        if k == from {
            return None;
        }
        k = k - 1;
    }
}

} // verus!
