use checkni::digest::{digest_of_bytes, Digest};
use checkni::index::ReferenceIndex;
use checkni::scan::{order_paths, resolve, scan_all, summary, MatchResult};

fn hex_string(d: &Digest) -> String {
    match d {
        Digest::Empty => panic!("expected a hex digest"),
        Digest::Hex(h) => String::from_utf8(h.clone()).unwrap(),
    }
}

#[test]
fn traversal_order_is_case_insensitive_lexicographic() {
    let paths: Vec<Vec<u8>> = vec![b"B.rom".to_vec(), b"a.rom".to_vec(), b"C.rom".to_vec()];
    let ordered = order_paths(paths);
    assert_eq!(ordered, vec![b"a.rom".to_vec(), b"B.rom".to_vec(), b"C.rom".to_vec()]);
}

#[test]
fn ordering_no_paths_yields_no_paths() {
    assert_eq!(order_paths(Vec::new()), Vec::<Vec<u8>>::new());
}

#[test]
fn empty_digest_is_not_applicable_even_if_indexed() {
    // Even an index entry declaring the empty-content digest is never consulted.
    let mut idx = ReferenceIndex::new();
    idx.insert(b"d41d8cd98f00b204e9800998ecf8427e".to_vec(), b"Phantom".to_vec());
    let m = resolve(&Digest::Empty, &idx);
    assert!(matches!(m, MatchResult::NotApplicable));
}

#[test]
fn matched_digest_resolves_to_canonical_name() {
    let mut idx = ReferenceIndex::new();
    idx.insert(b"aa11".to_vec(), b"GameX".to_vec());
    let m = resolve(&Digest::Hex(b"aa11".to_vec()), &idx);
    match m {
        MatchResult::Found(n) => assert_eq!(n, b"GameX".to_vec()),
        _ => panic!("expected a match"),
    }
}

#[test]
fn unmatched_digest_resolves_to_no_match() {
    let idx = ReferenceIndex::new();
    let m = resolve(&Digest::Hex(b"aa11".to_vec()), &idx);
    assert!(matches!(m, MatchResult::NoMatch));
}

#[test]
fn directory_scan_scenario() {
    // Three files: f1 empty, f2 with content "ABC" known to the index, f3 unknown.
    let d2 = digest_of_bytes(&b"ABC".to_vec());
    let d2_hex = hex_string(&d2);
    let doc = format!(
        "<datafile><game name=\"GameX\"><rom name=\"f2\" md5=\"{}\"/></game></datafile>",
        d2_hex
    );
    let mut idx = ReferenceIndex::new();
    idx.load_document(&doc).unwrap();

    let inputs: Vec<(Vec<u8>, Digest)> = vec![
        (b"f1".to_vec(), digest_of_bytes(&Vec::new())),
        (b"f2".to_vec(), digest_of_bytes(&b"ABC".to_vec())),
        (b"f3".to_vec(), digest_of_bytes(&b"ZZZ".to_vec())),
    ];
    let results = scan_all(inputs, &idx);

    assert_eq!(results.len(), 3);
    assert_eq!(results[0].path, b"f1".to_vec());
    assert!(matches!(results[0].digest, Digest::Empty));
    assert!(matches!(results[0].match_name, MatchResult::NotApplicable));

    assert_eq!(results[1].path, b"f2".to_vec());
    assert_eq!(hex_string(&results[1].digest), d2_hex);
    match &results[1].match_name {
        MatchResult::Found(n) => assert_eq!(n, &b"GameX".to_vec()),
        _ => panic!("expected a match"),
    }

    assert_eq!(results[2].path, b"f3".to_vec());
    assert!(matches!(results[2].match_name, MatchResult::NoMatch));

    let (total, found) = summary(&results);
    assert_eq!(total, 3);
    assert_eq!(found, 1);
}
