use checkni::digest::{digest_of_bytes, finish_digest, Digest, StreamHasher};

fn hex_string(d: &Digest) -> String {
    match d {
        Digest::Empty => panic!("expected a hex digest"),
        Digest::Hex(h) => String::from_utf8(h.clone()).unwrap(),
    }
}

#[test]
fn empty_input_yields_sentinel() {
    let d = digest_of_bytes(&Vec::new());
    assert!(matches!(d, Digest::Empty));
}

#[test]
fn empty_stream_yields_sentinel() {
    let h = StreamHasher::new();
    let d = finish_digest(h);
    assert!(matches!(d, Digest::Empty));
}

#[test]
fn known_digest_of_abc() {
    let d = digest_of_bytes(&b"abc".to_vec());
    assert_eq!(hex_string(&d), "900150983cd24fb0d6963f7d28e17f72");
}

#[test]
fn hashing_twice_is_deterministic() {
    let once = digest_of_bytes(&b"some rom content".to_vec());
    let twice = digest_of_bytes(&b"some rom content".to_vec());
    assert_eq!(hex_string(&once), hex_string(&twice));
}

#[test]
fn streaming_equals_one_shot() {
    let mut h = StreamHasher::new();
    h.update(b"ab");
    h.update(b"c");
    let streamed = finish_digest(h);
    let whole = digest_of_bytes(&b"abc".to_vec());
    assert_eq!(hex_string(&streamed), hex_string(&whole));
}

#[test]
fn digest_is_lowercase_hex_of_fixed_width() {
    let d = digest_of_bytes(&b"ZZZ".to_vec());
    let s = hex_string(&d);
    assert_eq!(s.len(), 32);
    assert!(s.chars().all(|c| c.is_ascii_hexdigit() && !c.is_ascii_uppercase()));
}
