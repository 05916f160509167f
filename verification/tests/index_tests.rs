use checkni::index::{has_dat_extension, ReferenceIndex};
use checkni::xml::parse_document;

const DOC_ONE: &str = "<datafile>\
<game name=\"GameX\">\
<rom name=\"x.rom\" md5=\"AABB0011\"/>\
</game>\
<game name=\"GameY\">\
<rom name=\"y.rom\" md5=\"ccdd2233\"/>\
<rom name=\"y2.rom\" md5=\"eeff4455\"/>\
</game>\
</datafile>";

#[test]
fn parse_rejects_malformed_document() {
    assert!(parse_document("<datafile><game").is_err());
}

#[test]
fn malformed_document_leaves_index_unchanged() {
    let mut idx = ReferenceIndex::new();
    idx.load_document(DOC_ONE).unwrap();
    assert!(idx.load_document("<oops").is_err());
    let found = idx.lookup(&b"ccdd2233".to_vec());
    assert_eq!(found, Some(b"GameY".to_vec()));
}

#[test]
fn grouping_name_applies_to_following_roms() {
    let mut idx = ReferenceIndex::new();
    idx.load_document(DOC_ONE).unwrap();
    assert_eq!(idx.lookup(&b"ccdd2233".to_vec()), Some(b"GameY".to_vec()));
    assert_eq!(idx.lookup(&b"eeff4455".to_vec()), Some(b"GameY".to_vec()));
    assert_eq!(idx.lookup(&b"unknown0".to_vec()), None);
}

#[test]
fn digests_are_normalized_to_lowercase() {
    let mut idx = ReferenceIndex::new();
    idx.load_document(DOC_ONE).unwrap();
    // The document declares AABB0011 in upper case; the index key is lower case.
    assert_eq!(idx.lookup(&b"aabb0011".to_vec()), Some(b"GameX".to_vec()));
    assert_eq!(idx.lookup(&b"AABB0011".to_vec()), None);
}

#[test]
fn rom_before_any_game_gets_empty_name() {
    let doc = "<datafile><rom name=\"r\" md5=\"0123\"/></datafile>";
    let mut idx = ReferenceIndex::new();
    idx.load_document(doc).unwrap();
    assert_eq!(idx.lookup(&b"0123".to_vec()), Some(Vec::new()));
}

#[test]
fn later_document_wins_for_duplicate_digest() {
    let early = "<datafile><game name=\"EarlyName\"><rom md5=\"0a0b\"/></game></datafile>";
    let late = "<datafile><game name=\"LateName\"><rom md5=\"0a0b\"/></game></datafile>";
    let mut idx = ReferenceIndex::new();
    idx.load_document(early).unwrap();
    idx.load_document(late).unwrap();
    assert_eq!(idx.lookup(&b"0a0b".to_vec()), Some(b"LateName".to_vec()));
}

#[test]
fn last_entry_wins_inside_one_document() {
    let doc = "<datafile>\
<game name=\"First\"><rom md5=\"77\"/></game>\
<game name=\"Second\"><rom md5=\"77\"/></game>\
</datafile>";
    let mut idx = ReferenceIndex::new();
    idx.load_document(doc).unwrap();
    assert_eq!(idx.lookup(&b"77".to_vec()), Some(b"Second".to_vec()));
}

#[test]
fn dat_extension_filter() {
    assert!(has_dat_extension(&b"db/console.dat".to_vec()));
    assert!(!has_dat_extension(&b"db/console.txt".to_vec()));
    assert!(!has_dat_extension(&b"dat".to_vec()));
    assert!(!has_dat_extension(&b"console.DAT".to_vec()));
}
