use cd_core::base64::{b64, base64_decode};
use cd_core::url::urlencode;

#[test]
fn standard_encoding_examples() {
    assert_eq!(b64(b"hello"), "aGVsbG8=");
    assert_eq!(b64(b"hell"), "aGVsbA==");
    assert_eq!(b64(b"hel"), "aGVs");
    assert_eq!(b64(&[0xfb, 0xff]), "+/8=");
}

#[test]
fn decode_undoes_encode() {
    let data: Vec<u8> = (0u8..=255).collect();
    for n in 0..data.len() {
        let text = b64(&data[..n]);
        assert_eq!(base64_decode(&text), Some(data[..n].to_vec()));
    }
}

#[test]
fn decode_skips_foreign_bytes_and_stops_at_padding() {
    assert_eq!(base64_decode("aGVs\nbG8=ignored"), Some(b"hello".to_vec()));
    assert_eq!(base64_decode(""), Some(vec![]));
    assert_eq!(base64_decode("====="), Some(vec![]));
}

#[test]
fn urlencode_examples() {
    assert_eq!(urlencode("abc-_.~XYZ09"), "abc-_.~XYZ09");
    assert_eq!(urlencode("a b&c"), "a%20b%26c");
    assert_eq!(urlencode("周杰伦"), "%E5%91%A8%E6%9D%B0%E4%BC%A6");
}
