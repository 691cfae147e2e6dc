use readonly::cstring::decode_cstring;

#[test]
fn decode_cstring_stops_at_first_nul() {
    let mut buf = [0u8; 128];
    buf[..8].copy_from_slice(b"de_dust2");
    buf[9] = b'x';
    assert_eq!(decode_cstring(&buf), "de_dust2");
}

#[test]
fn decode_cstring_empty_when_nul_first() {
    assert_eq!(decode_cstring(&[0, b'a', b'b']), "");
}

#[test]
fn decode_cstring_nul_at_end() {
    assert_eq!(decode_cstring(b"de_mirage\0"), "de_mirage");
}

#[test]
fn decode_cstring_replaces_ill_formed_utf8() {
    assert_eq!(decode_cstring(&[b'a', 0xff, b'b', 0]), "a\u{fffd}b");
}

#[test]
fn decode_cstring_keeps_multibyte_text() {
    let mut buf = "карта".as_bytes().to_vec();
    buf.push(0);
    buf.push(b'z');
    assert_eq!(decode_cstring(&buf), "карта");
}

#[test]
fn decode_cstring_length_bounds() {
    let buf = [0xe2u8, 0x82, b'x', 0xff, 0xc0, 0x80, 0, 7];
    let s = decode_cstring(&buf);
    let k = 6;
    assert!(k <= s.len() && s.len() <= 3 * k);
    assert!(!s.contains('\0'));
    let ok = b"plain\0";
    assert_eq!(decode_cstring(ok).as_bytes(), &ok[..5]);
}
