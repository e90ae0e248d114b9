use url_shortener::base62::{decode, encode};

#[test]
fn test_encode_zero() {
    assert_eq!(encode(0), "0");
}

#[test]
fn test_encode_single_digit() {
    assert_eq!(encode(1), "1");
    assert_eq!(encode(9), "9");
    assert_eq!(encode(10), "a");
    assert_eq!(encode(35), "z");
    assert_eq!(encode(36), "A");
    assert_eq!(encode(61), "Z");
}

#[test]
fn test_encode_multi_digit() {
    assert_eq!(encode(62), "10");
    assert_eq!(encode(12345), "3d7");
}

#[test]
fn test_decode_roundtrip() {
    for id in [1, 62, 100, 12345, 999999, 1000000000] {
        let encoded = encode(id);
        let decoded = decode(&encoded);
        assert_eq!(decoded, Some(id));
    }
}

#[test]
fn round_trip_at_the_extremes() {
    for id in [0, 61, 3843, 3844, i64::MAX - 1, i64::MAX] {
        assert_eq!(decode(&encode(id)), Some(id));
    }
    assert_eq!(encode(i64::MAX), "aZl8N0y58M7");
}

#[test]
fn encodings_have_no_leading_zero() {
    for id in [1, 62, 3844, 238328, 1000000000] {
        assert!(!encode(id).starts_with('0'));
    }
}

#[test]
fn decode_known_values() {
    assert_eq!(decode("3d7"), Some(12345));
    assert_eq!(decode("10"), Some(62));
    assert_eq!(decode("Z"), Some(61));
    assert_eq!(decode(""), Some(0));
}

#[test]
fn decode_rejects_characters_outside_the_alphabet() {
    assert_eq!(decode("ab-c"), None);
    assert_eq!(decode("abc!"), None);
    assert_eq!(decode(" 1"), None);
    assert_eq!(decode("é"), None);
}

#[test]
fn decode_rejects_values_beyond_i64() {
    assert_eq!(decode("aZl8N0y58M8"), None);
    assert_eq!(decode("ZZZZZZZZZZZZZZZZZZZZ"), None);
}
