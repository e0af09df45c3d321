use formauth::codec;
use formauth::config;
use formauth::keys::PublicSigningKey;
use formauth::models::{FormId, ServerKeyId, SubmissionId};

#[test]
fn decimal_write_and_read_round_trip() {
    let mut out: Vec<u8> = Vec::new();
    codec::write_u64(&mut out, 0);
    out.push(b',');
    codec::write_u64(&mut out, 1700000000);
    out.push(b',');
    codec::write_u64(&mut out, u64::MAX);
    assert_eq!(out, b"0,1700000000,18446744073709551615".to_vec());
    let (n, p) = codec::read_u64(&out, 0).unwrap();
    assert_eq!((n, p), (0, 1));
    let (n, p) = codec::read_u64(&out, 2).unwrap();
    assert_eq!((n, p), (1700000000, 12));
    let (n, p) = codec::read_u64(&out, 13).unwrap();
    assert_eq!(n, u64::MAX);
    assert_eq!(p, out.len());
}

#[test]
fn decimal_read_rejects_overflow_and_empty() {
    assert!(codec::read_u64(b"18446744073709551616", 0).is_none());
    assert!(codec::read_u64(b"x", 0).is_none());
    assert!(codec::read_u64(b"", 0).is_none());
}

#[test]
fn json_string_escape_round_trip() {
    let mut out: Vec<u8> = Vec::new();
    codec::write_json_str(&mut out, b"plain");
    out.push(b'"');
    let (v, p) = codec::read_json_str(&out, 0).unwrap();
    assert_eq!(v, b"plain".to_vec());
    assert_eq!(p, out.len());

    let mut out: Vec<u8> = Vec::new();
    codec::write_json_str(&mut out, b"a\"b\\c\x01d");
    assert_eq!(out, b"a\\\"b\\\\c\\u0001d".to_vec());
    out.push(b'"');
    let (v, p) = codec::read_json_str(&out, 0).unwrap();
    assert_eq!(v, b"a\"b\\c\x01d".to_vec());
    assert_eq!(p, out.len());
}

#[test]
fn json_string_read_rejects_raw_controls_and_unterminated() {
    assert!(codec::read_json_str(b"ab", 0).is_none());
    assert!(codec::read_json_str(b"a\x01b\"", 0).is_none());
    assert!(codec::read_json_str(b"a\\x\"", 0).is_none());
}

#[test]
fn config_parses_and_rejects() {
    let cfg = config::init("prod", String::from("https://example.test"), "3600", "60",
        "1048576").unwrap();
    assert_eq!(cfg.env(), config::WorkerEnv::Prod);
    assert_eq!(cfg.current_origin(), "https://example.test");
    assert_eq!(cfg.allowed_origins(), vec![String::from("https://example.test")]);
    assert_eq!(cfg.access_token_exp(), 3600);
    assert_eq!(cfg.challenge_token_exp(), 60);
    assert_eq!(cfg.max_request_body_len(), 1048576);
    assert_eq!(cfg.server_key_ttl(), 7200);
    assert_eq!(cfg.challenge_ttl(), 120);
    assert!(config::init("staging", String::new(), "1", "1", "1").is_none());
    assert!(config::init("dev", String::new(), "ten", "1", "1").is_none());
    assert!(config::init("dev", String::new(), "1", "", "1").is_none());
}

#[test]
fn generated_identifiers_have_their_shapes() {
    let f = FormId::new();
    let text = f.text().unwrap();
    assert_eq!(text.len(), 8);
    assert!(text.bytes().all(|b| b.is_ascii_alphanumeric()));
    assert_eq!(SubmissionId::LEN, 8);
    let s = ServerKeyId::new();
    assert_eq!(s.as_bytes().len(), 36);
    assert!(s.as_bytes().iter().all(|b| b.is_ascii_hexdigit() || *b == b'-'));
}

#[test]
fn signing_key_text_rejects_bad_input() {
    // Not base64 at all.
    assert!(PublicSigningKey::from_b64_text("!!!").is_none());
    // Valid base64, wrong length.
    assert!(PublicSigningKey::from_b64_text("YWJj").is_none());
}


#[test]
fn bytes_eq_and_literals() {
    assert!(codec::bytes_eq(b"abc", b"abc"));
    assert!(!codec::bytes_eq(b"abc", b"abd"));
    assert!(!codec::bytes_eq(b"abc", b"ab"));
    assert_eq!(codec::expect_lit(b"Bearer x", 0, b"Bearer "), Some(7));
    assert_eq!(codec::expect_lit(b"Basic x", 0, b"Bearer "), None);
}
