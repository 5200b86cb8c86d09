use protonctx::config::{
    config_path, decode_dir, encode_dir, hex_decode, hex_encode, hex_val, last_dir_of,
    state_for_dir, state_path, AppConfig, AppState,
};

#[test]
fn config_defaults_to_remember_last_dir_enabled() {
    let cfg = AppConfig::default();
    assert!(cfg.remember_last_dir);
}

#[test]
fn state_defaults_to_no_last_dir() {
    let state = AppState::default();
    assert!(state.last_dir.is_none());
}

#[test]
fn utf8_dir_is_stored_verbatim() {
    let dir = b"/home/user/.local/share/Steam";
    let encoded = encode_dir(dir);
    assert_eq!(encoded, "/home/user/.local/share/Steam");
    assert_eq!(decode_dir(&encoded), dir.to_vec());
}

#[test]
fn non_utf8_dir_roundtrips_losslessly() {
    // A path containing invalid UTF-8 bytes (0xFF) must round-trip exactly.
    let raw = b"/home/user/\xFFdir";
    let encoded = encode_dir(raw);
    assert!(encoded.starts_with("hex:"));
    let decoded = decode_dir(&encoded);
    assert_eq!(decoded, raw.to_vec());
}

#[test]
fn hex_decode_rejects_odd_length() {
    assert!(hex_decode("abc").is_none());
    assert_eq!(hex_decode("0a0b").unwrap(), vec![0x0a, 0x0b]);
}

#[test]
fn hex_encode_is_lowercase_high_nibble_first() {
    assert_eq!(hex_encode(&[0x00, 0xff, 0x1a, 0xb2]), "00ff1ab2");
    assert_eq!(hex_encode(&[]), "");
}

#[test]
fn hex_decode_accepts_both_cases_and_rejects_non_hex() {
    assert_eq!(hex_decode("ABcd").unwrap(), vec![0xab, 0xcd]);
    assert_eq!(hex_decode("").unwrap(), Vec::<u8>::new());
    assert!(hex_decode("0g").is_none());
    assert!(hex_decode("zz").is_none());
    assert!(hex_decode("é0").is_none());
}

#[test]
fn hex_val_digits() {
    assert_eq!(hex_val(b'0'), Some(0));
    assert_eq!(hex_val(b'9'), Some(9));
    assert_eq!(hex_val(b'a'), Some(10));
    assert_eq!(hex_val(b'F'), Some(15));
    assert_eq!(hex_val(b'g'), None);
    assert_eq!(hex_val(b' '), None);
}

#[test]
fn hex_roundtrip_on_all_bytes() {
    let bytes: Vec<u8> = (0..=255u8).collect();
    let e = hex_encode(&bytes);
    assert_eq!(e.len(), 512);
    assert_eq!(hex_decode(&e).unwrap(), bytes);
}

#[test]
fn non_utf8_dir_is_hex_encoded_exactly() {
    let raw = b"a\xff";
    assert_eq!(encode_dir(raw), "hex:61ff");
}

#[test]
fn hex_looking_utf8_path_round_trips() {
    // A UTF-8 path that itself starts with `hex:` is stored in hex, so it
    // cannot be mistaken for an encoding of another path.
    let dir = b"hex:41";
    let encoded = encode_dir(dir);
    assert_eq!(encoded, "hex:6865783a3431");
    assert_eq!(decode_dir(&encoded), dir.to_vec());
    for d in [&b"hex:"[..], b"hex:zz", b"hex:/x", b"/hex:41", b"he"] {
        assert_eq!(decode_dir(&encode_dir(d)), d.to_vec());
    }
    assert_eq!(encode_dir(b"/hex:41"), "/hex:41");
    // A value written as `hex:41` still reads as the byte it encodes.
    assert_eq!(decode_dir("hex:41"), b"A".to_vec());
}

#[test]
fn malformed_hex_value_is_a_plain_path() {
    assert_eq!(decode_dir("hex:zz"), b"hex:zz".to_vec());
    assert_eq!(decode_dir("hex:abc"), b"hex:abc".to_vec());
    assert_eq!(decode_dir("/tmp"), b"/tmp".to_vec());
}

#[test]
fn last_dir_of_state() {
    let empty = AppState { last_dir: Some(String::new()) };
    assert_eq!(last_dir_of(&empty), None);
    let none = AppState { last_dir: None };
    assert_eq!(last_dir_of(&none), None);
    let st = state_for_dir(b"/games/\xfe");
    assert_eq!(st.last_dir.as_deref(), Some("hex:2f67616d65732ffe"));
    assert_eq!(last_dir_of(&st), Some(b"/games/\xfe".to_vec()));
}

#[test]
fn config_and_state_paths_follow_xdg() {
    assert_eq!(
        config_path(None, Some("/home/u")).as_deref(),
        Some("/home/u/.config/protonctx/config.json")
    );
    assert_eq!(
        config_path(Some("/xdg/conf"), Some("/home/u")).as_deref(),
        Some("/xdg/conf/protonctx/config.json")
    );
    // A relative XDG value is ignored in favour of the default.
    assert_eq!(
        config_path(Some("relative"), Some("/home/u")).as_deref(),
        Some("/home/u/.config/protonctx/config.json")
    );
    assert_eq!(
        state_path(None, Some("/home/u/")).as_deref(),
        Some("/home/u/.local/state/protonctx/state.json")
    );
    assert_eq!(
        state_path(Some("/xdg/state"), None).as_deref(),
        Some("/xdg/state/protonctx/state.json")
    );
    assert_eq!(state_path(None, None), None);
    assert_eq!(config_path(Some(""), Some("")), None);
    // A relative home directory gives no path rather than a relative one.
    assert_eq!(config_path(None, Some("home/u")), None);
    assert_eq!(state_path(Some("rel"), Some("rel/home")), None);
    assert_eq!(
        state_path(Some("/xdg/state"), Some("rel")).as_deref(),
        Some("/xdg/state/protonctx/state.json")
    );
}
