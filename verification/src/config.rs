//! Application configuration and per-user state.
//!
//! Two pieces of data are persisted as JSON, both under XDG Base Directory
//! locations: `config.json` (preferences, under `$XDG_CONFIG_HOME/protonctx/`,
//! default `~/.config/protonctx/`) and `state.json` (the last directory
//! picked in the "Browse…" dialog, under `$XDG_STATE_HOME/protonctx/`,
//! default `~/.local/state/protonctx/`).
//!
//! Directory paths are stored without loss: a path that is valid UTF-8 is
//! stored verbatim; any other byte sequence is stored as `hex:` followed by
//! its bytes in lowercase hexadecimal.

use crate::paths::{has_root, joined, path_join};
use crate::text::{opt_view, push_str, string_from};
use vstd::prelude::*;
use vstd::string::StrSliceExecFns;
use vstd::utf8::{decode_utf8, encode_utf8, is_ascii_chars, valid_utf8};

verus! {

/// The UTF-8 error type of `core::str::from_utf8`.
#[verifier::external_type_specification]
#[verifier::external_body]
pub struct ExUtf8Error(core::str::Utf8Error);

/// `core::str::from_utf8` succeeds exactly on valid UTF-8, and the string it
/// returns has exactly the given bytes.
pub assume_specification<'a>[ core::str::from_utf8 ](v: &'a [u8]) -> (res: Result<
    &'a str,
    core::str::Utf8Error,
>)
    ensures
        res is Ok <==> valid_utf8(v@),
        res matches Ok(s) ==> encode_utf8(s@) == v@,
;

/// The name of the application's subdirectory under each XDG root.
pub const APP_DIR: &'static str = "protonctx";

/// Persistent user preferences.
#[derive(Debug, Clone, Copy)]
pub struct AppConfig {
    /// Whether the "Browse…" file picker remembers (and reopens at) the last
    /// directory the user picked in. Defaults to `true`.
    pub remember_last_dir: bool,
}

impl Default for AppConfig {
    fn default() -> (res: Self)
        ensures
            res.remember_last_dir,
    {
        AppConfig { remember_last_dir: true }
    }
}

/// Transient per-user state.
#[derive(Debug)]
pub struct AppState {
    /// The last directory picked in the "Browse…" dialog, encoded as
    /// [`encoded_dir`] describes, or `None` if none has been recorded yet.
    pub last_dir: Option<String>,
}

impl Default for AppState {
    fn default() -> (res: Self)
        ensures
            res.last_dir is None,
    {
        AppState { last_dir: None }
    }
}

/// An XDG base directory, always an absolute path: the value of its
/// environment variable when that is an absolute path (relative or empty
/// values are ignored, as the XDG spec requires), otherwise `fallback` under
/// the home directory when `$HOME` is an absolute path; `None` otherwise.
pub open spec fn xdg_dir_spec(env_value: Option<Seq<char>>, home_var: Option<Seq<char>>, fallback: Seq<
    char,
>) -> Option<Seq<char>> {
    match env_value {
        Some(d) if has_root(d) => Some(d),
        _ => match home_var {
            Some(h) if has_root(h) => Some(joined(h, fallback)),
            _ => None,
        },
    }
}

/// Resolve an XDG base directory from the value of its environment variable
/// and of `$HOME` (see [`xdg_dir_spec`]).
fn xdg_dir(env_value: Option<&str>, home_var: Option<&str>, fallback: &str) -> (res: Option<String>)
    ensures
        match res {
            Some(d) => xdg_dir_spec(opt_view(env_value), opt_view(home_var), fallback@) == Some(d@),
            None => xdg_dir_spec(opt_view(env_value), opt_view(home_var), fallback@) is None,
        },
{
    if let Some(d) = env_value {
        let cs = crate::text::chars_of(d);
        if cs.len() > 0 && cs[0] == '/' {
            return Some(string_from(d));
        }
    }
    match home_var {
        Some(h) => {
            let hs = crate::text::chars_of(h);
            if hs.len() > 0 && hs[0] == '/' {
                Some(path_join(h, fallback))
            } else {
                None
            }
        },
        None => None,
    }
}

/// The directory that holds the config file (default `~/.config`), from the
/// values of `$XDG_CONFIG_HOME` and `$HOME`.
pub fn config_dir(xdg_config_home: Option<&str>, home_var: Option<&str>) -> (res: Option<String>)
    ensures
        match res {
            Some(d) => xdg_dir_spec(opt_view(xdg_config_home), opt_view(home_var), ".config"@) == Some(
                d@,
            ),
            None => xdg_dir_spec(opt_view(xdg_config_home), opt_view(home_var), ".config"@) is None,
        },
{
    xdg_dir(xdg_config_home, home_var, ".config")
}

/// The directory that holds the state file (default `~/.local/state`), from
/// the values of `$XDG_STATE_HOME` and `$HOME`.
pub fn state_dir(xdg_state_home: Option<&str>, home_var: Option<&str>) -> (res: Option<String>)
    ensures
        match res {
            Some(d) => xdg_dir_spec(opt_view(xdg_state_home), opt_view(home_var), ".local/state"@)
                == Some(d@),
            None => xdg_dir_spec(opt_view(xdg_state_home), opt_view(home_var), ".local/state"@) is None,
        },
{
    xdg_dir(xdg_state_home, home_var, ".local/state")
}

/// `<dir>/protonctx/<file>`.
pub open spec fn app_file_in(dir: Seq<char>, file: Seq<char>) -> Seq<char> {
    joined(joined(dir, "protonctx"@), file)
}

/// The path of the JSON config file, `<config dir>/protonctx/config.json`,
/// or `None` if the config directory cannot be resolved.
pub fn config_path(xdg_config_home: Option<&str>, home_var: Option<&str>) -> (res: Option<String>)
    ensures
        match xdg_dir_spec(opt_view(xdg_config_home), opt_view(home_var), ".config"@) {
            Some(d) => res matches Some(p) && p@ == app_file_in(d, "config.json"@) && p@ == joined(
                joined(d, "protonctx"@),
                "config.json"@,
            ),
            None => res is None,
        },
{
    match config_dir(xdg_config_home, home_var) {
        Some(d) => {
            let a = path_join(d.as_str(), APP_DIR);
            Some(path_join(a.as_str(), "config.json"))
        },
        None => None,
    }
}

/// The path of the JSON state file, `<state dir>/protonctx/state.json`, or
/// `None` if the state directory cannot be resolved.
pub fn state_path(xdg_state_home: Option<&str>, home_var: Option<&str>) -> (res: Option<String>)
    ensures
        match xdg_dir_spec(opt_view(xdg_state_home), opt_view(home_var), ".local/state"@) {
            Some(d) => res matches Some(p) && p@ == app_file_in(d, "state.json"@) && p@ == joined(
                joined(d, "protonctx"@),
                "state.json"@,
            ),
            None => res is None,
        },
{
    match state_dir(xdg_state_home, home_var) {
        Some(d) => {
            let a = path_join(d.as_str(), APP_DIR);
            Some(path_join(a.as_str(), "state.json"))
        },
        None => None,
    }
}

/// The lowercase hexadecimal digit for `v < 16`.
pub open spec fn hex_digit(v: nat) -> char {
    if v < 10 {
        ((48 + v) as u32) as char
    } else {
        ((87 + v) as u32) as char
    }
}

/// `bytes` in lowercase hexadecimal, two digits per byte, high nibble first.
pub open spec fn hex_of(bytes: Seq<u8>) -> Seq<char>
    decreases bytes.len(),
{
    if bytes.len() == 0 {
        seq![]
    } else {
        hex_of(bytes.drop_last()) + seq![
            hex_digit((bytes.last() / 16) as nat),
            hex_digit((bytes.last() % 16) as nat),
        ]
    }
}

/// The value of an ASCII hexadecimal digit (either case).
pub open spec fn hex_value(b: u8) -> Option<u8> {
    if 48 <= b <= 57 {
        Some((b - 48) as u8)
    } else if 97 <= b <= 102 {
        Some((b - 87) as u8)
    } else if 65 <= b <= 70 {
        Some((b - 55) as u8)
    } else {
        None
    }
}

/// The bytes that pairs of hexadecimal digits spell, or `None` when a digit
/// is malformed or a pair is incomplete.
pub open spec fn hex_pairs(b: Seq<u8>) -> Option<Seq<u8>>
    decreases b.len(),
{
    if b.len() == 0 {
        Some(seq![])
    } else if b.len() == 1 {
        None
    } else {
        match (hex_pairs(b.take(b.len() - 2)), hex_value(b[b.len() - 2]), hex_value(b.last())) {
            (Some(r), Some(h), Some(l)) => Some(r.push((h * 16 + l) as u8)),
            _ => None,
        }
    }
}

/// Hex-decoding of the bytes of a string: `None` for an odd length or a
/// character that is not a hexadecimal digit.
pub open spec fn hex_decoded(b: Seq<u8>) -> Option<Seq<u8>> {
    if b.len() % 2 != 0 {
        None
    } else {
        hex_pairs(b)
    }
}

/// The hexadecimal digit for `v < 16`.
fn hex_digit_char(v: u8) -> (res: char)
    requires
        v < 16,
    ensures
        res == hex_digit(v as nat),
{
    if v < 10 {
        (48u8 + v) as char
    } else {
        (87u8 + v) as char
    }
}

/// Hex-encode `bytes` to lowercase ASCII.
pub fn hex_encode(bytes: &[u8]) -> (res: String)
    ensures
        res@ == hex_of(bytes@),
        res@.len() == 2 * bytes@.len(),
        forall|i: int|
            0 <= i < bytes@.len() ==> lower_hex_value(res@[2 * i]) == #[trigger] bytes@[i] / 16
                && lower_hex_value(res@[2 * i + 1]) == bytes@[i] % 16,
{
    proof {
        lemma_hex_of_lowercase(bytes@);
    }
    let mut out = String::new();
    let mut i: usize = 0;
    while i < bytes.len()
        invariant
            i <= bytes@.len(),
            out@ == hex_of(bytes@.take(i as int)),
        decreases bytes@.len() - i,
    {
        let b = bytes[i];
        out.push(hex_digit_char(b / 16));
        out.push(hex_digit_char(b % 16));
        assert(bytes@.take(i + 1).drop_last() =~= bytes@.take(i as int));
        assert(out@ =~= hex_of(bytes@.take(i + 1)));
        i = i + 1;
    }
    assert(bytes@.take(bytes@.len() as int) =~= bytes@);
    out
}

/// The value of an ASCII hexadecimal digit, or `None`.
pub fn hex_val(b: u8) -> (res: Option<u8>)
    ensures
        res == hex_value(b),
{
    if 48 <= b && b <= 57 {
        Some(b - 48)
    } else if 97 <= b && b <= 102 {
        Some(b - 87)
    } else if 65 <= b && b <= 70 {
        Some(b - 55)
    } else {
        None
    }
}

/// Hex-decode `bytes[from..]`.
fn hex_decode_bytes(bytes: &[u8], from: usize) -> (res: Option<Vec<u8>>)
    requires
        from <= bytes@.len(),
    ensures
        match res {
            Some(v) => hex_decoded(bytes@.skip(from as int)) == Some(v@),
            None => hex_decoded(bytes@.skip(from as int)) is None,
        },
{
    let ghost s = bytes@.skip(from as int);
    let len = bytes.len();
    let n = len - from;
    if n % 2 != 0 {
        return None;
    }
    let mut out: Vec<u8> = Vec::new();
    let mut i: usize = 0;
    while i < n / 2
        invariant
            from <= bytes@.len(),
            len == bytes@.len(),
            n == bytes@.len() - from,
            n % 2 == 0,
            s == bytes@.skip(from as int),
            i <= n / 2,
            hex_pairs(s.take(2 * i)) == Some(out@),
        decreases n / 2 - i,
    {
        assert(2 * i + 2 <= n);
        let base = from + 2 * i;
        let hi = match hex_val(bytes[base]) {
            Some(h) => h,
            None => {
                proof {
                    lemma_hex_pairs_prefix_fail(s, 2 * i + 2);
                    assert(s.take(2 * i + 2)[2 * i] == s[2 * i]);
                }
                return None;
            },
        };
        let lo = match hex_val(bytes[base + 1]) {
            Some(l) => l,
            None => {
                proof {
                    lemma_hex_pairs_prefix_fail(s, 2 * i + 2);
                    assert(s.take(2 * i + 2)[2 * i + 1] == s[2 * i + 1]);
                }
                return None;
            },
        };
        out.push(hi * 16 + lo);
        proof {
            let t = s.take(2 * i + 2);
            assert(t.take(t.len() - 2) =~= s.take(2 * i));
            assert(t[t.len() - 2] == s[2 * i]);
            assert(t.last() == s[2 * i + 1]);
        }
        i = i + 1;
    }
    assert(s.take(n as int) =~= s);
    Some(out)
}

/// If a prefix of even length fails to decode, so does every longer even
/// length text (the whole text in particular).
proof fn lemma_hex_pairs_prefix_fail(s: Seq<u8>, k: int)
    requires
        0 <= k <= s.len(),
        k % 2 == 0,
        s.len() % 2 == 0,
        hex_pairs(s.take(k)) is None || (k >= 2 && (hex_value(s[k - 2]) is None || hex_value(s[k - 1]) is None)),
    ensures
        hex_pairs(s) is None,
    decreases s.len() - k,
{
    if k >= 2 && (hex_value(s[k - 2]) is None || hex_value(s[k - 1]) is None) {
        let t = s.take(k);
        assert(t[t.len() - 2] == s[k - 2]);
        assert(t.last() == s[k - 1]);
        assert(hex_pairs(t) is None);
    }
    if k < s.len() {
        let t = s.take(k + 2);
        assert(t.take(t.len() - 2) =~= s.take(k));
        assert(hex_pairs(t) is None);
        lemma_hex_pairs_prefix_fail_next(s, k + 2);
    } else {
        assert(s.take(k) =~= s);
    }
}

proof fn lemma_hex_pairs_prefix_fail_next(s: Seq<u8>, k: int)
    requires
        0 <= k <= s.len(),
        k % 2 == 0,
        s.len() % 2 == 0,
        hex_pairs(s.take(k)) is None,
    ensures
        hex_pairs(s) is None,
    decreases s.len() - k,
{
    if k < s.len() {
        let t = s.take(k + 2);
        assert(t.take(t.len() - 2) =~= s.take(k));
        lemma_hex_pairs_prefix_fail_next(s, k + 2);
    } else {
        assert(s.take(k) =~= s);
    }
}

/// Hex-decode an even-length ASCII hex string, or `None` on malformed input.
pub fn hex_decode(s: &str) -> (res: Option<Vec<u8>>)
    ensures
        match res {
            Some(v) => hex_decoded(encode_utf8(s@)) == Some(v@),
            None => hex_decoded(encode_utf8(s@)) is None,
        },
{
    let b = s.as_bytes();
    assert(b@.skip(0) =~= b@);
    hex_decode_bytes(b, 0)
}

/// The bytes of `hex:`.
pub open spec fn hex_tag() -> Seq<u8> {
    seq![104u8, 101u8, 120u8, 58u8]
}

/// Whether raw bytes start with `hex:`.
pub open spec fn has_hex_tag(bytes: Seq<u8>) -> bool {
    bytes.len() >= 4 && bytes.take(4) == hex_tag()
}

/// How a directory path (its raw bytes) is stored in `state.json`: verbatim
/// when it is valid UTF-8 and does not itself start with `hex:`, otherwise
/// `hex:` followed by its bytes in hexadecimal (so that every stored value
/// reads back as the path it was made from).
pub open spec fn encoded_dir(bytes: Seq<u8>) -> Seq<char> {
    if valid_utf8(bytes) && !has_hex_tag(bytes) {
        decode_utf8(bytes)
    } else {
        "hex:"@ + hex_of(bytes)
    }
}

/// The directory path (raw bytes) a stored value stands for: the decoded
/// bytes when it is `hex:` followed by valid hexadecimal, otherwise the
/// bytes of the stored text itself.
pub open spec fn decoded_dir(stored: Seq<u8>) -> Seq<u8> {
    if stored.len() >= 4 && stored.take(4) == hex_tag() && hex_decoded(stored.skip(4)) is Some {
        hex_decoded(stored.skip(4)).unwrap()
    } else {
        stored
    }
}

/// Encode a directory path (its raw bytes) for storage in `state.json`
/// without loss (see [`encoded_dir`]).
pub fn encode_dir(dir: &[u8]) -> (res: String)
    ensures
        res@ == encoded_dir(dir@),
{
    let tagged = dir.len() >= 4 && dir[0] == 104 && dir[1] == 101 && dir[2] == 120 && dir[3] == 58;
    proof {
        if dir@.len() >= 4 {
            if tagged {
                assert(dir@.take(4) =~= hex_tag());
            } else if dir@.take(4) == hex_tag() {
                assert(dir@.take(4)[0] == dir@[0]);
                assert(dir@.take(4)[1] == dir@[1]);
                assert(dir@.take(4)[2] == dir@[2]);
                assert(dir@.take(4)[3] == dir@[3]);
            }
        }
        assert(tagged == has_hex_tag(dir@));
    }
    if !tagged {
        match core::str::from_utf8(dir) {
            Ok(s) => {
                proof {
                    vstd::utf8::encode_utf8_decode_utf8(s@);
                }
                return string_from(s);
            },
            Err(_) => {},
        }
    }
    let mut out = String::new();
    push_str(&mut out, "hex:");
    let h = hex_encode(dir);
    push_str(&mut out, h.as_str());
    out
}

/// Reverse of [`encode_dir`]: a `hex:`-prefixed value is hex-decoded back to
/// the encoded bytes; anything else is taken as a plain UTF-8 path.
pub fn decode_dir(s: &str) -> (res: Vec<u8>)
    ensures
        res@ == decoded_dir(encode_utf8(s@)),
{
    let b = s.as_bytes();
    if b.len() >= 4 && b[0] == 104 && b[1] == 101 && b[2] == 120 && b[3] == 58 {
        assert(b@.take(4) =~= hex_tag());
        match hex_decode_bytes(b, 4) {
            Some(v) => return v,
            None => {},
        }
    } else {
        proof {
            if b@.len() >= 4 && b@.take(4) == hex_tag() {
                assert(b@.take(4)[0] == b@[0]);
                assert(b@.take(4)[1] == b@[1]);
                assert(b@.take(4)[2] == b@[2]);
                assert(b@.take(4)[3] == b@[3]);
            }
        }
    }
    s.as_bytes_vec()
}

/// The remembered last directory in a loaded state: `None` when unset or
/// empty, otherwise the decoded path.
pub fn last_dir_of(state: &AppState) -> (res: Option<Vec<u8>>)
    ensures
        match state.last_dir {
            Some(s) => if s@.len() > 0 {
                res matches Some(d) && d@ == decoded_dir(encode_utf8(s@))
            } else {
                res is None
            },
            None => res is None,
        },
{
    match &state.last_dir {
        Some(s) => if s.as_str().is_empty() {
            None
        } else {
            Some(decode_dir(s.as_str()))
        },
        None => None,
    }
}

/// The state that records `dir` as the last directory.
pub fn state_for_dir(dir: &[u8]) -> (res: AppState)
    ensures
        res.last_dir matches Some(s) && s@ == encoded_dir(dir@),
{
    AppState { last_dir: Some(encode_dir(dir)) }
}

/// The bytes of an ASCII character sequence.
pub open spec fn ascii_bytes(cs: Seq<char>) -> Seq<u8> {
    cs.map_values(|c: char| c as u8)
}

proof fn lemma_hex_digit_value(v: nat)
    requires
        v < 16,
    ensures
        hex_value(hex_digit(v) as u8) == Some(v as u8),
        (hex_digit(v) as u32) < 128,
{
}

/// The value of a lowercase hexadecimal digit (`0`-`9`, `a`-`f`); `16` for
/// any other character.
pub open spec fn lower_hex_value(c: char) -> int {
    if '0' <= c && c <= '9' {
        c as int - '0' as int
    } else if 'a' <= c && c <= 'f' {
        c as int - 'a' as int + 10
    } else {
        16
    }
}

/// The hex encoding of bytes is two lowercase hexadecimal digits per byte,
/// the high half first.
pub proof fn lemma_hex_of_lowercase(bytes: Seq<u8>)
    ensures
        hex_of(bytes).len() == 2 * bytes.len(),
        forall|i: int|
            0 <= i < bytes.len() ==> lower_hex_value(hex_of(bytes)[2 * i]) == #[trigger] bytes[i] / 16
                && lower_hex_value(hex_of(bytes)[2 * i + 1]) == bytes[i] % 16,
    decreases bytes.len(),
{
    if bytes.len() > 0 {
        let pre = bytes.drop_last();
        lemma_hex_of_lowercase(pre);
        let h = hex_of(bytes);
        let n = bytes.len() - 1;
        assert forall|i: int| 0 <= i < bytes.len() implies lower_hex_value(h[2 * i])
            == #[trigger] bytes[i] / 16 && lower_hex_value(h[2 * i + 1]) == bytes[i] % 16 by {
            if i < n {
                assert(pre[i] == bytes[i]);
                assert(h[2 * i] == hex_of(pre)[2 * i]);
                assert(h[2 * i + 1] == hex_of(pre)[2 * i + 1]);
            } else {
                let b = bytes.last();
                assert(h[2 * i] == hex_digit((b / 16) as nat));
                assert(h[2 * i + 1] == hex_digit((b % 16) as nat));
            }
        }
    }
}

proof fn lemma_hex_of_ascii(bytes: Seq<u8>)
    ensures
        is_ascii_chars(hex_of(bytes)),
        hex_of(bytes).len() == 2 * bytes.len(),
    decreases bytes.len(),
{
    if bytes.len() > 0 {
        lemma_hex_of_ascii(bytes.drop_last());
        lemma_hex_digit_value((bytes.last() / 16) as nat);
        lemma_hex_digit_value((bytes.last() % 16) as nat);
    }
}

/// Hex-decoding the hex encoding of any bytes gives them back.
pub proof fn lemma_hex_roundtrip(bytes: Seq<u8>)
    ensures
        hex_decoded(ascii_bytes(hex_of(bytes))) == Some(bytes),
    decreases bytes.len(),
{
    lemma_hex_of_ascii(bytes);
    lemma_hex_pairs_roundtrip(bytes);
}

proof fn lemma_hex_pairs_roundtrip(bytes: Seq<u8>)
    ensures
        hex_pairs(ascii_bytes(hex_of(bytes))) == Some(bytes),
    decreases bytes.len(),
{
    lemma_hex_of_ascii(bytes);
    if bytes.len() > 0 {
        let t = ascii_bytes(hex_of(bytes));
        let b = bytes.last();
        lemma_hex_pairs_roundtrip(bytes.drop_last());
        lemma_hex_of_ascii(bytes.drop_last());
        assert(t.take(t.len() - 2) =~= ascii_bytes(hex_of(bytes.drop_last())));
        lemma_hex_digit_value((b / 16) as nat);
        lemma_hex_digit_value((b % 16) as nat);
        assert(t[t.len() - 2] == hex_digit((b / 16) as nat) as u8);
        assert(t.last() == hex_digit((b % 16) as nat) as u8);
        assert(((b / 16) * 16 + b % 16) as u8 == b);
        assert(bytes.drop_last().push(b) =~= bytes);
    } else {
        assert(ascii_bytes(hex_of(bytes)) =~= Seq::<u8>::empty());
    }
}

/// Storing a directory and reading it back gives the same bytes, for every
/// path: a path that is valid UTF-8 and does not start with `hex:` is stored
/// verbatim, any other one round-trips through its hex form.
pub proof fn lemma_dir_roundtrip(dir: Seq<u8>)
    ensures
        decoded_dir(encode_utf8(encoded_dir(dir))) == dir,
{
    if valid_utf8(dir) && !has_hex_tag(dir) {
        vstd::utf8::decode_utf8_encode_utf8(dir);
    } else {
        let h = hex_of(dir);
        let tag: Seq<char> = "hex:"@;
        reveal_strlit("hex:");
        lemma_hex_of_ascii(dir);
        let e = tag + h;
        assert(is_ascii_chars(tag));
        vstd::utf8::is_ascii_chars_concat(e, tag, h);
        assert(is_ascii_chars(e));
        vstd::utf8::is_ascii_chars_encode_utf8(e);
        let bytes = encode_utf8(e);
        assert(bytes =~= ascii_bytes(e));
        assert(bytes.take(4) =~= hex_tag());
        assert(bytes.skip(4) =~= ascii_bytes(h));
        lemma_hex_roundtrip(dir);
    }
}

/// A remembered directory is read back as the same path: the value stored
/// for a non-empty directory is not empty (so reading the state does not
/// take it for "unset", see [`last_dir_of`]), and decoding it gives the
/// directory's bytes back.
pub proof fn lemma_remembered_dir_read_back(dir: Seq<u8>)
    requires
        dir.len() > 0,
    ensures
        encoded_dir(dir).len() > 0,
        decoded_dir(encode_utf8(encoded_dir(dir))) == dir,
{
    lemma_dir_roundtrip(dir);
    if valid_utf8(dir) && !has_hex_tag(dir) {
        vstd::utf8::decode_utf8_encode_utf8(dir);
        if decode_utf8(dir).len() == 0 {
            assert(decode_utf8(dir) =~= Seq::<char>::empty());
            assert(encode_utf8(Seq::<char>::empty()) =~= Seq::<u8>::empty());
        }
    } else {
        reveal_strlit("hex:");
    }
}

} // verus!
