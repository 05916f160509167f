use vstd::prelude::*;
use vstd::seq_lib::{to_multiset_insert, to_multiset_remove, to_multiset_contains};
use crate::bytes::{ci_le, ci_leq, lemma_ci_le_total, lemma_ci_le_trans};
use crate::digest::{Digest, DigestView};
use crate::index::ReferenceIndex;

verus! {

/// The resolution of one scanned file against the reference index.
pub enum MatchResult {
    /// The file was empty, so no lookup applies to it.
    NotApplicable,
    /// No reference entry declares the file's digest.
    NoMatch,
    /// The canonical name of the reference entry that declares the digest.
    Found(Vec<u8>),
}

pub enum MatchView {
    NotApplicable,
    NoMatch,
    Found(Seq<u8>),
}

impl View for MatchResult {
    type V = MatchView;

    open spec fn view(&self) -> MatchView {
        match self {
            MatchResult::NotApplicable => MatchView::NotApplicable,
            MatchResult::NoMatch => MatchView::NoMatch,
            MatchResult::Found(n) => MatchView::Found(n@),
        }
    }
}

/// One target file under examination: its path, its content digest, and its
/// resolution against the index.
pub struct ScannedFile {
    pub path: Vec<u8>,
    pub digest: Digest,
    pub match_name: MatchResult,
}

pub struct ScannedFileView {
    pub path: Seq<u8>,
    pub digest: DigestView,
    pub match_name: MatchView,
}

impl View for ScannedFile {
    type V = ScannedFileView;

    open spec fn view(&self) -> ScannedFileView {
        ScannedFileView { path: self.path@, digest: self.digest@, match_name: self.match_name@ }
    }
}

/// How a digest resolves: an empty file is never looked up and is not
/// applicable; a digest the index holds resolves to its canonical name; any
/// other digest has no match.
pub open spec fn resolve_spec(d: DigestView, m: Map<Seq<u8>, Seq<u8>>) -> MatchView {
    match d {
        DigestView::Empty => MatchView::NotApplicable,
        DigestView::Hex(h) => if m.contains_key(h) {
            MatchView::Found(m[h])
        } else {
            MatchView::NoMatch
        },
    }
}

/// Resolves one digest against the index.
pub fn resolve(digest: &Digest, index: &ReferenceIndex) -> (r: MatchResult)
    ensures
        r@ == resolve_spec(digest@, index@),
{
    match digest {
        Digest::Empty => MatchResult::NotApplicable,
        Digest::Hex(h) => match index.lookup(h) {
            Some(n) => MatchResult::Found(n),
            None => MatchResult::NoMatch,
        },
    }
}

/// Builds the record of one scanned file from its path and digest.
pub fn scan_file(path: Vec<u8>, digest: Digest, index: &ReferenceIndex) -> (r: ScannedFile)
    ensures
        r@.path == path@,
        r@.digest == digest@,
        r@.match_name == resolve_spec(digest@, index@),
{
    let m = resolve(&digest, index);
    ScannedFile { path, digest, match_name: m }
}

/// Resolves every (path, digest) pair in order, preserving the input order in
/// the output sequence.
pub fn scan_all(inputs: Vec<(Vec<u8>, Digest)>, index: &ReferenceIndex) -> (r: Vec<ScannedFile>)
    ensures
        r@.len() == inputs@.len(),
        forall|i: int|
            0 <= i < r@.len() ==> r@[i]@.path == inputs@[i].0@ && r@[i]@.digest == inputs@[i].1@
                && r@[i]@.match_name == resolve_spec(inputs@[i].1@, index@),
{
    let ghost orig = inputs@;
    let mut rest = inputs;
    let mut out: Vec<ScannedFile> = Vec::new();
    proof {
        assert(rest@ =~= orig.skip(0));
    }
    while rest.len() > 0
        invariant
            out@.len() + rest@.len() == orig.len(),
            rest@ =~= orig.skip(out@.len() as int),
            forall|i: int|
                0 <= i < out@.len() ==> out@[i]@.path == orig[i].0@ && out@[i]@.digest
                    == orig[i].1@ && out@[i]@.match_name == resolve_spec(orig[i].1@, index@),
        decreases rest@.len(),
    {
        let ghost k = out@.len() as int;
        proof {
            assert(rest@[0] == orig[k]);
        }
        let (p, d) = rest.remove(0);
        let s = scan_file(p, d, index);
        out.push(s);
        proof {
            assert(rest@ =~= orig.skip(out@.len() as int));
        }
    }
    out
}

/// Count of files whose digest found a canonical name.
pub open spec fn found_count(s: Seq<ScannedFile>) -> int
    decreases s.len(),
{
    if s.len() == 0 {
        0
    } else {
        found_count(s.drop_last()) + if s.last()@.match_name is Found {
            1int
        } else {
            0int
        }
    }
}

/// The scan summary: the total file count and the found-match count.
pub fn summary(files: &Vec<ScannedFile>) -> (r: (usize, usize))
    ensures
        r.0 == files@.len(),
        r.1 == found_count(files@),
{
    let mut found: usize = 0;
    let mut i: usize = 0;
    proof {
        assert(files@.take(0) =~= Seq::<ScannedFile>::empty());
    }
    while i < files.len()
        invariant
            i <= files@.len(),
            found <= i,
            found == found_count(files@.take(i as int)),
        decreases files@.len() - i,
    {
        proof {
            assert(files@.take(i + 1).drop_last() =~= files@.take(i as int));
            assert(files@.take(i + 1).last() == files@[i as int]);
        }
        match &files[i].match_name {
            MatchResult::Found(_) => {
                found += 1;
            },
            _ => {},
        }
        i += 1;
    }
    proof {
        assert(files@.take(files@.len() as int) =~= files@);
    }
    (files.len(), found)
}

/// The traversal order of paths: lexicographic over the ASCII-lowered
/// bytes. Only ASCII letters fold; any other byte compares by its value.
pub open spec fn sorted_ci(s: Seq<Vec<u8>>) -> bool {
    forall|a: int, b: int| 0 <= a < b < s.len() ==> #[trigger] ci_le(s[a]@, s[b]@)
}

/// Where `p` belongs in the sorted run `s`: after the leading elements that
/// order at or before `p`, so that an element equal to `p` under the order
/// stays ahead of it (stability).
pub open spec fn spec_insert_pos(s: Seq<Vec<u8>>, p: Vec<u8>) -> int
    decreases s.len(),
{
    if s.len() == 0 {
        0
    } else if ci_le(s[0]@, p@) {
        1 + spec_insert_pos(s.drop_first(), p)
    } else {
        0
    }
}

/// One step of insertion sort: `p` placed at its position in `s`.
pub open spec fn spec_insert_one(s: Seq<Vec<u8>>, p: Vec<u8>) -> Seq<Vec<u8>> {
    s.insert(spec_insert_pos(s, p), p)
}

/// The stable, ASCII-case-insensitive lexicographic ordering of `s`: each
/// element inserted in turn, behind its equals.
pub open spec fn spec_order(s: Seq<Vec<u8>>) -> Seq<Vec<u8>>
    decreases s.len(),
{
    if s.len() == 0 {
        Seq::empty()
    } else {
        spec_insert_one(spec_order(s.drop_last()), s.last())
    }
}

proof fn lemma_insert_pos_split(s: Seq<Vec<u8>>, p: Vec<u8>, j: int)
    requires
        0 <= j <= s.len(),
        forall|k: int| 0 <= k < j ==> ci_le(s[k]@, p@),
    ensures
        spec_insert_pos(s, p) == j + spec_insert_pos(s.skip(j), p),
    decreases j,
{
    if j == 0 {
        assert(s.skip(0) =~= s);
    } else {
        assert(forall|k: int|
            0 <= k < j - 1 ==> s.drop_first()[k] == s[k + 1] && ci_le(s[k + 1]@, p@));
        lemma_insert_pos_split(s.drop_first(), p, j - 1);
        assert(s.drop_first().skip(j - 1) =~= s.skip(j));
    }
}

/// The position at which `p` is inserted to keep `out` sorted: after every
/// element that orders at or before `p`.
fn insert_pos(out: &Vec<Vec<u8>>, p: &Vec<u8>) -> (j: usize)
    ensures
        j <= out@.len(),
        forall|k: int| 0 <= k < j ==> ci_le(out@[k]@, p@),
        j < out@.len() ==> !ci_le(out@[j as int]@, p@),
        j == spec_insert_pos(out@, *p),
{
    let mut j: usize = 0;
    while j < out.len()
        invariant
            j <= out@.len(),
            forall|k: int| 0 <= k < j ==> ci_le(out@[k]@, p@),
        decreases out@.len() - j,
    {
        if !ci_leq(&out[j], p) {
            proof {
                lemma_insert_pos_split(out@, *p, j as int);
                assert(out@.skip(j as int)[0] == out@[j as int]);
            }
            return j;
        }
        j += 1;
    }
    proof {
        lemma_insert_pos_split(out@, *p, j as int);
        assert(out@.skip(j as int).len() == 0);
    }
    j
}

/// Orders paths in the stable, ASCII-case-insensitive lexicographic
/// traversal order: the result is sorted under `ci_le` and holds exactly the
/// given paths.
pub fn order_paths(paths: Vec<Vec<u8>>) -> (r: Vec<Vec<u8>>)
    ensures
        sorted_ci(r@),
        r@.to_multiset() == paths@.to_multiset(),
        r@ == spec_order(paths@),
{
    let ghost orig = paths@;
    let ghost orig_ms = paths@.to_multiset();
    let mut rest = paths;
    let mut out: Vec<Vec<u8>> = Vec::new();
    proof {
        vstd::seq_lib::to_multiset_len(out@);
        vstd::multiset::lemma_multiset_empty_len(out@.to_multiset());
        assert(out@.to_multiset().add(rest@.to_multiset()) =~= orig_ms);
        assert(rest@ =~= orig.skip(0));
        assert(out@ =~= spec_order(orig.take(0)));
    }
    while rest.len() > 0
        invariant
            sorted_ci(out@),
            out@.to_multiset().add(rest@.to_multiset()) == orig_ms,
            out@.len() + rest@.len() == orig.len(),
            rest@ =~= orig.skip(out@.len() as int),
            out@ == spec_order(orig.take(out@.len() as int)),
        decreases rest@.len(),
    {
        let ghost k = out@.len() as int;
        let ghost rest_before = rest@;
        proof {
            to_multiset_remove(rest_before, 0);
            to_multiset_contains(rest_before, rest_before[0]);
            assert(rest_before[0] == orig[k]);
        }
        let p = rest.remove(0);
        let j = insert_pos(&out, &p);
        proof {
            if j < out@.len() {
                lemma_ci_le_total(out@[j as int]@, p@);
                assert forall|k: int| j <= k < out@.len() implies ci_le(p@, out@[k]@) by {
                    if k > j {
                        lemma_ci_le_trans(p@, out@[j as int]@, out@[k]@);
                    }
                }
            }
        }
        let ghost out_before = out@;
        proof {
            to_multiset_insert(out_before, j as int, p);
        }
        out.insert(j, p);
        proof {
            assert(out@ == out_before.insert(j as int, p));
            assert forall|a: int, b: int|
                0 <= a < b < out@.len() implies #[trigger] ci_le(out@[a]@, out@[b]@) by {
                if b < j {
                    assert(out@[a] == out_before[a] && out@[b] == out_before[b]);
                } else if a > j {
                    assert(out@[a] == out_before[a - 1] && out@[b] == out_before[b - 1]);
                } else if a == j {
                    assert(out@[a] == p && out@[b] == out_before[b - 1]);
                } else if b == j {
                    assert(out@[a] == out_before[a] && out@[b] == p);
                } else {
                    assert(a < j && b > j);
                    assert(out@[a] == out_before[a] && out@[b] == out_before[b - 1]);
                }
            }
            assert(out@.to_multiset().add(rest@.to_multiset()) =~= orig_ms) by {
                assert(out@.to_multiset() == out_before.to_multiset().insert(p));
                assert(rest@.to_multiset() == rest_before.to_multiset().remove(rest_before[0]));
                assert(rest_before.to_multiset().count(p) > 0);
            }
            assert(orig.take(k + 1).drop_last() =~= orig.take(k));
            assert(orig.take(k + 1).last() == orig[k]);
            assert(out@ == spec_order(orig.take(k + 1)));
            assert(rest@ =~= orig.skip(out@.len() as int));
        }
    }
    proof {
        vstd::seq_lib::to_multiset_len(rest@);
        vstd::multiset::lemma_multiset_empty_len(rest@.to_multiset());
        assert(out@.to_multiset() =~= orig_ms);
        assert(orig.take(orig.len() as int) =~= orig);
    }
    out
}

} // verus!
