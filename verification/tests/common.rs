use network_logger::handlers::common::{
    decompress_body_if_needed, get_client_ip, unpacked_or_plain,
};
use std::io::Write;

fn gzip(data: &[u8]) -> Vec<u8> {
    let mut encoder = flate2::write::GzEncoder::new(Vec::new(), flate2::Compression::default());
    encoder.write_all(data).unwrap();
    encoder.finish().unwrap()
}

#[test]
fn client_ip_prefers_the_peer() {
    assert_eq!(get_client_ip(Some("10.0.0.1"), Some("1.1.1.1, 2.2.2.2"), Some("3.3.3.3")), "10.0.0.1");
}

#[test]
fn client_ip_takes_the_first_forwarded_entry() {
    assert_eq!(get_client_ip(None, Some("1.1.1.1, 2.2.2.2"), Some("3.3.3.3")), "1.1.1.1");
    assert_eq!(get_client_ip(None, Some("  9.9.9.9  "), None), "9.9.9.9");
    assert_eq!(get_client_ip(None, Some(" a ,b"), None), "a");
}

#[test]
fn client_ip_of_an_empty_forwarded_list_is_empty() {
    assert_eq!(get_client_ip(None, Some(""), Some("3.3.3.3")), "");
    assert_eq!(get_client_ip(None, Some(",1.1.1.1"), Some("3.3.3.3")), "");
}

#[test]
fn client_ip_falls_back_to_real_ip_as_it_stands() {
    assert_eq!(get_client_ip(None, None, Some(" 3.3.3.3 ")), " 3.3.3.3 ");
}

#[test]
fn client_ip_is_unknown_without_any_source() {
    assert_eq!(get_client_ip(None, None, None), "unknown");
}

#[test]
fn plain_body_is_read_as_utf8() {
    assert_eq!(decompress_body_if_needed("", "{\"a\":\"é\"}".as_bytes()), "{\"a\":\"é\"}");
    assert_eq!(decompress_body_if_needed("identity", b"abc"), "abc");
}

#[test]
fn plain_body_with_bad_utf8_gets_replacement_characters() {
    assert_eq!(decompress_body_if_needed("", &[b'a', 0xff, b'b']), "a\u{fffd}b");
}

#[test]
fn gzip_body_is_unpacked() {
    let packed = gzip("{\"sessionId\":\"s1\"}".as_bytes());
    assert_ne!(packed, "{\"sessionId\":\"s1\"}".as_bytes());
    assert_eq!(decompress_body_if_needed("gzip", &packed), "{\"sessionId\":\"s1\"}");
}

#[test]
fn gzip_body_is_left_packed_without_the_header() {
    let packed = gzip(b"hello");
    let text = decompress_body_if_needed("", &packed);
    assert_eq!(text, String::from_utf8_lossy(&packed));
    assert_ne!(text, "hello");
}

#[test]
fn content_encoding_is_matched_exactly() {
    let packed = gzip(b"hello");
    assert_ne!(decompress_body_if_needed("GZIP", &packed), "hello");
    assert_ne!(decompress_body_if_needed("gzip ", &packed), "hello");
}

#[test]
fn broken_gzip_body_is_read_as_it_stands() {
    assert_eq!(decompress_body_if_needed("gzip", b"{\"plain\":true}"), "{\"plain\":true}");
    let mut cut = gzip(b"hello hello hello hello");
    cut.truncate(cut.len() - 6);
    assert_eq!(decompress_body_if_needed("gzip", &cut), String::from_utf8_lossy(&cut));
}

#[test]
fn gzip_of_bad_utf8_is_read_as_it_stands() {
    let packed = gzip(&[0xff, 0xfe]);
    assert_eq!(decompress_body_if_needed("gzip", &packed), String::from_utf8_lossy(&packed));
}

#[test]
fn unpacked_text_wins_over_the_body() {
    assert_eq!(unpacked_or_plain(Some("text".to_string()), b"body"), "text");
    assert_eq!(unpacked_or_plain(None, b"body"), "body");
    assert_eq!(unpacked_or_plain(None, &[0xc3]), "\u{fffd}");
}
