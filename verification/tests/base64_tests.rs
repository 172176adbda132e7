use outer::base64::{base64_decode, base64_encode};

#[test]
fn test_base64_encode_decode_roundtrip() {
    let original = b"Hello, CRDT World!";
    let encoded = base64_encode(original);
    let decoded = base64_decode(&encoded).unwrap();
    assert_eq!(decoded, original);
}

#[test]
fn test_base64_encode_empty() {
    let encoded = base64_encode(&[]);
    assert_eq!(encoded, "");
}

#[test]
fn test_base64_decode_empty() {
    let decoded = base64_decode("").unwrap();
    assert!(decoded.is_empty());
}

#[test]
fn test_base64_decode_invalid() {
    let result = base64_decode("!!invalid!!");
    assert!(result.is_err());
}

#[test]
fn test_base64_encode_various_lengths() {
    // Test padding cases
    assert_eq!(base64_encode(b"a"), "YQ==");
    assert_eq!(base64_encode(b"ab"), "YWI=");
    assert_eq!(base64_encode(b"abc"), "YWJj");
    assert_eq!(base64_encode(b"abcd"), "YWJjZA==");
}

#[test]
fn decoding_passes_over_white_space_and_line_breaks() {
    assert_eq!(base64_decode("  YQ==\n").unwrap(), b"a");
    assert_eq!(base64_decode("\u{a0}YWJj\u{3000}").unwrap(), b"abc");
    assert_eq!(base64_decode("YW\r\nJj\nZA==").unwrap(), b"abcd");
    assert_eq!(base64_decode(" \n ").unwrap(), b"");
}

#[test]
fn decoding_says_what_is_wrong() {
    assert_eq!(base64_decode("YWJ").unwrap_err(), "Invalid base64 length");
    assert_eq!(base64_decode("YW Jj").unwrap_err(), "Invalid base64 length");
    assert_eq!(base64_decode("YWJ\u{e9}").unwrap_err(), "Invalid base64 length");
    assert_eq!(base64_decode("YW!j").unwrap_err(), "Invalid base64 character: !");
    assert_eq!(base64_decode("YW J").unwrap_err(), "Invalid base64 character:  ");
    assert_eq!(base64_decode("Y?W!").unwrap_err(), "Invalid base64 character: ?");
    assert_eq!(base64_decode("YW\u{e9}").unwrap_err(), "Invalid base64 character: \u{c3}");
    // Padding is read as zero wherever it stands.
    assert_eq!(base64_decode("YQ==YQ==").unwrap(), b"aa");
    assert_eq!(base64_decode("=A==").unwrap(), [0]);
}

#[test]
fn every_byte_value_comes_back() {
    let all: Vec<u8> = (0..=255u8).collect();
    for len in 0..all.len() {
        let data = &all[all.len() - len..];
        let text = base64_encode(data);
        assert_eq!(text.len(), (len + 2) / 3 * 4);
        assert_eq!(base64_decode(&text).unwrap(), data);
    }
    assert_eq!(base64_encode(&[0xfb, 0xff, 0xbf]), "+/+/");
    assert_eq!(base64_decode("+/+/").unwrap(), [0xfb, 0xff, 0xbf]);
}
