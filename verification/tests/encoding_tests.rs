//! Fixed-width field encoding and decoding.

use userdb::text::{
    MAX_NAME_LEN, MAX_SESSION_TOKEN_LEN, bytes_eq, bytes_to_string, copy_string, decode_field,
    encode_field, str_cmp, string_to_bytes,
};

#[test]
fn encode_short_field_round_trips() {
    let buf = encode_field(b"alice", 10);
    assert_eq!(buf.len(), 10);
    assert_eq!(&buf[..], &[97, 108, 105, 99, 101, 0, 0, 0, 0, 0]);
    let dec = decode_field(&buf);
    assert_eq!(&dec[..], b"alice");
}

#[test]
fn round_trip_below_maximum() {
    for name in ["a", "user_name", "x1y2z3"] {
        let buf = encode_field(name.as_bytes(), MAX_NAME_LEN);
        assert_eq!(decode_field(&buf), name.as_bytes().to_vec());
    }
}

#[test]
fn encode_truncates_and_terminates() {
    let long = [65u8; 16];
    let buf = encode_field(&long, 8);
    assert_eq!(buf.len(), 8);
    assert_eq!(buf[7], 0);
    let dec = decode_field(&buf);
    assert_eq!(dec.len(), 7);
    assert_eq!(&dec[..], &long[..7]);
}

#[test]
fn encode_exact_width_still_terminates() {
    let buf = encode_field(b"seven77", 8);
    assert_eq!(buf[7], 0);
    assert_eq!(decode_field(&buf), b"seven77".to_vec());
    let buf = encode_field(b"eight888", 8);
    assert_eq!(buf[7], 0);
    assert_eq!(decode_field(&buf), b"eight88".to_vec());
}

#[test]
fn decode_without_terminator_reads_whole_buffer() {
    let buf = vec![120u8; 5];
    let dec = decode_field(&buf);
    assert_eq!(dec, vec![120u8; 5]);
}

#[test]
fn decode_empty_buffer() {
    let dec = decode_field(&[]);
    assert_eq!(dec.len(), 0);
}

#[test]
fn copy_string_overwrites_in_place() {
    let mut field = vec![1u8; 6];
    copy_string(&mut field, b"hi");
    assert_eq!(field, vec![104, 105, 0, 0, 0, 0]);
}

#[test]
fn str_cmp_matches_decoded_field() {
    let field = encode_field(b"bob", 8);
    assert!(str_cmp(&field, "bob"));
    assert!(!str_cmp(&field, "bo"));
    assert!(!str_cmp(&field, "bobb"));
    assert!(!str_cmp(&field, ""));
}

#[test]
fn bytes_eq_compares_contents() {
    assert!(bytes_eq(b"abc", b"abc"));
    assert!(!bytes_eq(b"abc", b"abd"));
    assert!(!bytes_eq(b"abc", b"ab"));
    assert!(bytes_eq(b"", b""));
}

#[test]
fn bytes_to_string_stops_at_null() {
    let mut b = b"carol".to_vec();
    b.push(0);
    b.push(88);
    assert_eq!(bytes_to_string(&b), "carol");
}

#[test]
fn bytes_to_string_decodes_utf8() {
    let b = vec![0xC3, 0xA9, 0, 0];
    assert_eq!(bytes_to_string(&b), "\u{e9}");
}

#[test]
fn bytes_to_string_is_lossy_never_fails() {
    let b = vec![0xFF, 0xFE, 65];
    let s = bytes_to_string(&b);
    assert!(s.ends_with('A'));
}

#[test]
fn string_to_bytes_fills_token_field() {
    let b = string_to_bytes(String::from("tok"));
    assert_eq!(b.len(), MAX_SESSION_TOKEN_LEN);
    assert_eq!(&b[..4], &[116, 111, 107, 0]);
    assert_eq!(b[MAX_SESSION_TOKEN_LEN - 1], 0);
}

#[test]
fn string_to_bytes_truncates_long_token() {
    let long = "t".repeat(40);
    let b = string_to_bytes(long);
    assert_eq!(b.len(), MAX_SESSION_TOKEN_LEN);
    assert_eq!(b[MAX_SESSION_TOKEN_LEN - 1], 0);
    assert_eq!(decode_field(&b).len(), MAX_SESSION_TOKEN_LEN - 1);
}
