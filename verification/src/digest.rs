use vstd::prelude::*;
use crate::bytes::{hex_of, hex_lower, bytes_eq, lemma_hex_of_len};

verus! {

/// The MD5 digest (16 raw bytes) of a byte sequence. The value is determined
/// by the input bytes alone; the `md-5` crate computes it.
pub uninterp spec fn md5_of(data: Seq<u8>) -> Seq<u8>;

/// The bytes fed so far into a `StreamHasher`.
pub uninterp spec fn hasher_fed(h: StreamHasher) -> Seq<u8>;

/// An incremental MD5 accumulator. It holds the `md-5` crate's hasher state,
/// which Verus does not look into; the contracts of `new`, `update` and
/// `finalize` describe it through `hasher_fed`.
#[verifier::external_body]
pub struct StreamHasher {
    inner: md5::Md5,
}

impl StreamHasher {
    /// Relies on `md5::Md5::new` (`digest::Digest::new`): a fresh hasher has
    /// seen no input.
    #[verifier::external_body]
    pub fn new() -> (h: StreamHasher)
        ensures
            hasher_fed(h) == Seq::<u8>::empty(),
    {
        StreamHasher { inner: <md5::Md5 as md5::Digest>::new() }
    }

    /// Relies on `digest::Digest::update`: feeding a chunk appends it to the
    /// hashed input.
    #[verifier::external_body]
    pub fn update(&mut self, chunk: &[u8])
        ensures
            hasher_fed(*final(self)) == hasher_fed(*old(self)) + chunk@,
    {
        md5::Digest::update(&mut self.inner, chunk);
    }

    /// Relies on `digest::Digest::finalize`: the result is the 16-byte MD5
    /// digest of everything fed so far, a function of those bytes alone.
    /// MD5 of the empty input is the well-known value
    /// d41d8cd98f00b204e9800998ecf8427e (the RFC 1321 test vector).
    #[verifier::external_body]
    pub fn finalize(self) -> (r: Vec<u8>)
        ensures
            r@ == md5_of(hasher_fed(self)),
            r@.len() == 16,
            hasher_fed(self).len() == 0 ==> r@ == empty_md5_bytes(),
    {
        md5::Digest::finalize(self.inner).to_vec()
    }
}

/// The 16 raw bytes of the MD5 digest of the empty input.
pub open spec fn empty_md5_bytes() -> Seq<u8> {
    seq![
        0xd4u8, 0x1d, 0x8c, 0xd9, 0x8f, 0x00, 0xb2, 0x04,
        0xe9, 0x80, 0x09, 0x98, 0xec, 0xf8, 0x42, 0x7e,
    ]
}

/// The hex form of the empty-input digest: the sentinel that marks a file as empty.
pub open spec fn empty_md5_hex() -> Seq<u8> {
    hex_of(empty_md5_bytes())
}

/// A content digest: either the sentinel for empty content, or the lower-case
/// hexadecimal digest bytes of non-empty content.
pub enum Digest {
    Empty,
    Hex(Vec<u8>),
}

pub enum DigestView {
    Empty,
    Hex(Seq<u8>),
}

impl View for Digest {
    type V = DigestView;

    open spec fn view(&self) -> DigestView {
        match self {
            Digest::Empty => DigestView::Empty,
            Digest::Hex(h) => DigestView::Hex(h@),
        }
    }
}

/// What the digest of given content is: the empty sentinel exactly when the
/// hex digest equals the empty-input digest, else the hex digest itself.
pub open spec fn digest_of(data: Seq<u8>) -> DigestView {
    if hex_of(md5_of(data)) == empty_md5_hex() {
        DigestView::Empty
    } else {
        DigestView::Hex(hex_of(md5_of(data)))
    }
}

/// The exec form of the empty-digest sentinel, as hex bytes.
pub(crate) fn empty_md5_hex_vec() -> (r: Vec<u8>)
    ensures
        r@ == empty_md5_hex(),
{
    let raw: Vec<u8> = vec![
        0xd4u8, 0x1d, 0x8c, 0xd9, 0x8f, 0x00, 0xb2, 0x04,
        0xe9, 0x80, 0x09, 0x98, 0xec, 0xf8, 0x42, 0x7e,
    ];
    proof {
        assert(raw@ =~= empty_md5_bytes());
    }
    hex_lower(&raw)
}

/// Finishes a streaming hash: encodes the digest as lower-case hex and maps
/// the digest of empty content to the `Empty` sentinel.
///
/// A zero-length input always yields the sentinel, never a raw hex string,
/// and a hex digest always has the algorithm's fixed width of 32 digits.
pub fn finish_digest(h: StreamHasher) -> (r: Digest)
    ensures
        r@ == digest_of(hasher_fed(h)),
        hasher_fed(h).len() == 0 ==> r@ == DigestView::Empty,
        r@ matches DigestView::Hex(x) ==> x.len() == 32,
{
    let raw = h.finalize();
    proof {
        lemma_hex_of_len(raw@);
    }
    let hex = hex_lower(&raw);
    let sentinel = empty_md5_hex_vec();
    if bytes_eq(&hex, &sentinel) {
        Digest::Empty
    } else {
        Digest::Hex(hex)
    }
}

/// Digest of a byte string held fully in memory.
pub fn digest_of_bytes(data: &Vec<u8>) -> (r: Digest)
    ensures
        r@ == digest_of(data@),
        data@.len() == 0 ==> r@ == DigestView::Empty,
        r@ matches DigestView::Hex(x) ==> x.len() == 32,
{
    let mut h = StreamHasher::new();
    h.update(data.as_slice());
    proof {
        assert(hasher_fed(h) =~= data@);
    }
    finish_digest(h)
}

/// Determinism law: the digest is a function of the content alone, so hashing
/// the same bytes twice yields the same digest.
pub proof fn lemma_digest_deterministic(a: Seq<u8>, b: Seq<u8>)
    requires
        a == b,
    ensures
        digest_of(a) == digest_of(b),
{
}

} // verus!
