use vstd::prelude::*;
use crate::bytes::{lower_seq, to_lower, bytes_eq, copy_bytes};
use crate::xml::{XmlNode, XmlNodeView, nodes_view, xml_nodes_of, xml_wf, parse_document, ParseError};

verus! {

/// The tag of a grouping element: "game".
pub open spec fn game_tag() -> Seq<u8> {
    seq![103u8, 97u8, 109u8, 101u8]
}

/// The tag of a digest-bearing leaf element: "rom".
pub open spec fn rom_tag() -> Seq<u8> {
    seq![114u8, 111u8, 109u8]
}

/// The attribute that carries a grouping's canonical name: "name".
pub open spec fn name_key() -> Seq<u8> {
    seq![110u8, 97u8, 109u8, 101u8]
}

/// The attribute that carries a leaf's content digest: "md5".
pub open spec fn md5_key() -> Seq<u8> {
    seq![109u8, 100u8, 53u8]
}

pub(crate) fn game_tag_vec() -> (r: Vec<u8>)
    ensures
        r@ == game_tag(),
{
    let v: Vec<u8> = vec![103u8, 97u8, 109u8, 101u8];
    proof {
        assert(v@ =~= game_tag());
    }
    v
}

pub(crate) fn rom_tag_vec() -> (r: Vec<u8>)
    ensures
        r@ == rom_tag(),
{
    let v: Vec<u8> = vec![114u8, 111u8, 109u8];
    proof {
        assert(v@ =~= rom_tag());
    }
    v
}

pub(crate) fn name_key_vec() -> (r: Vec<u8>)
    ensures
        r@ == name_key(),
{
    let v: Vec<u8> = vec![110u8, 97u8, 109u8, 101u8];
    proof {
        assert(v@ =~= name_key());
    }
    v
}

pub(crate) fn md5_key_vec() -> (r: Vec<u8>)
    ensures
        r@ == md5_key(),
{
    let v: Vec<u8> = vec![109u8, 100u8, 53u8];
    proof {
        assert(v@ =~= md5_key());
    }
    v
}

/// The reference-document file extension: ".dat".
pub open spec fn dat_suffix() -> Seq<u8> {
    seq![46u8, 100u8, 97u8, 116u8]
}

/// Whether a path carries the reference-document extension.
pub open spec fn has_dat_suffix(s: Seq<u8>) -> bool {
    s.len() >= 4 && s.subrange(s.len() - 4, s.len() as int) == dat_suffix()
}

/// Tests whether a path names a reference document, by its extension.
pub fn has_dat_extension(path: &Vec<u8>) -> (r: bool)
    ensures
        r == has_dat_suffix(path@),
{
    if path.len() < 4 {
        return false;
    }
    let n = path.len();
    let ghost sub = path@.subrange(n - 4, n as int);
    proof {
        assert(sub[0] == path@[n - 4]);
        assert(sub[1] == path@[n - 3]);
        assert(sub[2] == path@[n - 2]);
        assert(sub[3] == path@[n - 1]);
    }
    if path[n - 4] == 46 && path[n - 3] == 100 && path[n - 2] == 97 && path[n - 1] == 116 {
        proof {
            assert(sub =~= dat_suffix());
        }
        true
    } else {
        proof {
            assert(sub != dat_suffix());
        }
        false
    }
}

/// The value of the first attribute named `key`, if any.
pub open spec fn find_attr(attrs: Seq<(Seq<u8>, Seq<u8>)>, key: Seq<u8>) -> Option<Seq<u8>>
    decreases attrs.len(),
{
    if attrs.len() == 0 {
        None
    } else if attrs[0].0 == key {
        Some(attrs[0].1)
    } else {
        find_attr(attrs.drop_first(), key)
    }
}

pub open spec fn pairs_view(s: Seq<(Vec<u8>, Vec<u8>)>) -> Seq<(Seq<u8>, Seq<u8>)> {
    s.map_values(|p: (Vec<u8>, Vec<u8>)| (p.0@, p.1@))
}

/// Looks up the first attribute named `key` among `attrs`.
pub(crate) fn find_attr_vec(attrs: &Vec<(Vec<u8>, Vec<u8>)>, key: &Vec<u8>) -> (r: Option<Vec<u8>>)
    ensures
        match r {
            Some(v) => find_attr(pairs_view(attrs@), key@) == Some(v@),
            None => find_attr(pairs_view(attrs@), key@) is None,
        },
{
    let ghost pv = pairs_view(attrs@);
    let mut i: usize = 0;
    proof {
        assert(pv.skip(0) =~= pv);
    }
    while i < attrs.len()
        invariant
            i <= attrs@.len(),
            pv == pairs_view(attrs@),
            pv.len() == attrs@.len(),
            find_attr(pv, key@) == find_attr(pv.skip(i as int), key@),
        decreases attrs@.len() - i,
    {
        proof {
            assert(pv.skip(i as int)[0] == pv[i as int]);
            assert(pv.skip(i as int).drop_first() =~= pv.skip(i + 1));
        }
        if bytes_eq(&attrs[i].0, key) {
            return Some(copy_bytes(&attrs[i].1));
        }
        i += 1;
    }
    proof {
        assert(pv.skip(pv.len() as int).len() == 0);
    }
    None
}

/// The (digest, canonical name) pairs declared by the nodes, in document
/// order, starting under the grouping name `current`: a "game" element with a
/// "name" attribute begins a new grouping, and every "rom" element with an
/// "md5" attribute yields one pair under the grouping in force, its digest
/// lowered to the canonical hexadecimal case.
pub open spec fn entries_from(nodes: Seq<XmlNodeView>, current: Seq<u8>) -> Seq<(Seq<u8>, Seq<u8>)>
    decreases nodes.len(),
{
    if nodes.len() == 0 {
        Seq::empty()
    } else {
        let n = nodes[0];
        let rest = nodes.drop_first();
        if n.tag == game_tag() && find_attr(n.attrs, name_key()) is Some {
            entries_from(rest, find_attr(n.attrs, name_key()).unwrap())
        } else if n.tag == rom_tag() && find_attr(n.attrs, md5_key()) is Some {
            seq![(lower_seq(find_attr(n.attrs, md5_key()).unwrap()), current)] + entries_from(
                rest,
                current,
            )
        } else {
            entries_from(rest, current)
        }
    }
}

/// The pairs declared by a whole document; before the first grouping header
/// the name in force is empty.
pub open spec fn entries_of(nodes: Seq<XmlNodeView>) -> Seq<(Seq<u8>, Seq<u8>)> {
    entries_from(nodes, Seq::empty())
}

/// Extracts the (digest, canonical name) pairs of a parsed document, in
/// document order, attributing each digest to the grouping name in force.
pub fn extract_entries(nodes: &Vec<XmlNode>) -> (r: Vec<(Vec<u8>, Vec<u8>)>)
    ensures
        pairs_view(r@) == entries_of(nodes_view(nodes@)),
{
    let ghost nv = nodes_view(nodes@);
    let game = game_tag_vec();
    let rom = rom_tag_vec();
    let name_k = name_key_vec();
    let md5_k = md5_key_vec();
    let mut out: Vec<(Vec<u8>, Vec<u8>)> = Vec::new();
    let mut current: Vec<u8> = Vec::new();
    let mut i: usize = 0;
    proof {
        assert(nv.skip(0) =~= nv);
        assert(current@ =~= Seq::<u8>::empty());
        assert(pairs_view(out@) =~= Seq::<(Seq<u8>, Seq<u8>)>::empty());
    }
    while i < nodes.len()
        invariant
            i <= nodes@.len(),
            nv == nodes_view(nodes@),
            nv.len() == nodes@.len(),
            game@ == game_tag(),
            rom@ == rom_tag(),
            name_k@ == name_key(),
            md5_k@ == md5_key(),
            entries_of(nv) =~= pairs_view(out@) + entries_from(
                nv.skip(i as int),
                current@,
            ),
        decreases nodes@.len() - i,
    {
        proof {
            assert(nv.skip(i as int)[0] == nv[i as int]);
            assert(nv[i as int] == nodes@[i as int]@);
            assert(nv.skip(i as int).drop_first() =~= nv.skip(i + 1));
        }
        let node = &nodes[i];
        if bytes_eq(&node.tag, &game) {
            match find_attr_vec(&node.attrs, &name_k) {
                Some(g) => {
                    current = g;
                },
                None => {},
            }
        } else if bytes_eq(&node.tag, &rom) {
            match find_attr_vec(&node.attrs, &md5_k) {
                Some(d) => {
                    let lowered = to_lower(&d);
                    let owner = copy_bytes(&current);
                    out.push((lowered, owner));
                    proof {
                        assert(pairs_view(out@) =~= pairs_view(out@.drop_last()) + seq![
                            (out@.last().0@, out@.last().1@),
                        ]);
                    }
                },
                None => {},
            }
        }
        i += 1;
    }
    proof {
        assert(entries_from(nv.skip(nv.len() as int), current@) =~= Seq::<(
            Seq<u8>,
            Seq<u8>,
        )>::empty());
        assert(pairs_view(out@) =~= entries_of(nv));
    }
    out
}

/// The mapping that a run of (digest, name) pairs builds when each pair is
/// written in order: a later pair for the same digest overwrites an earlier
/// one.
pub open spec fn apply_entries(
    m: Map<Seq<u8>, Seq<u8>>,
    s: Seq<(Seq<u8>, Seq<u8>)>,
) -> Map<Seq<u8>, Seq<u8>>
    decreases s.len(),
{
    if s.len() == 0 {
        m
    } else {
        apply_entries(m, s.drop_last()).insert(s.last().0, s.last().1)
    }
}

/// Whether some pair of the run declares the digest `d`.
pub open spec fn has_key(s: Seq<(Seq<u8>, Seq<u8>)>, d: Seq<u8>) -> bool {
    exists|i: int| 0 <= i < s.len() && s[i].0 == d
}

/// The name of the last pair of the run that declares `d`.
pub open spec fn last_value_for(s: Seq<(Seq<u8>, Seq<u8>)>, d: Seq<u8>) -> Seq<u8>
    recommends
        has_key(s, d),
    decreases s.len(),
{
    if s.len() == 0 {
        Seq::empty()
    } else if s.last().0 == d {
        s.last().1
    } else {
        last_value_for(s.drop_last(), d)
    }
}

pub proof fn lemma_apply_entries_hit(
    m: Map<Seq<u8>, Seq<u8>>,
    s: Seq<(Seq<u8>, Seq<u8>)>,
    d: Seq<u8>,
)
    requires
        has_key(s, d),
    ensures
        apply_entries(m, s).contains_key(d),
        apply_entries(m, s)[d] == last_value_for(s, d),
    decreases s.len(),
{
    if s.last().0 == d {
    } else {
        let i = choose|i: int| 0 <= i < s.len() && s[i].0 == d;
        assert(s.drop_last()[i] == s[i]);
        lemma_apply_entries_hit(m, s.drop_last(), d);
    }
}

pub proof fn lemma_apply_entries_miss(
    m: Map<Seq<u8>, Seq<u8>>,
    s: Seq<(Seq<u8>, Seq<u8>)>,
    d: Seq<u8>,
)
    requires
        !has_key(s, d),
    ensures
        apply_entries(m, s).contains_key(d) == m.contains_key(d),
        m.contains_key(d) ==> apply_entries(m, s)[d] == m[d],
    decreases s.len(),
{
    if s.len() > 0 {
        assert(forall|i: int| 0 <= i < s.len() - 1 ==> s.drop_last()[i] == s[i]);
        assert(!has_key(s.drop_last(), d));
        lemma_apply_entries_miss(m, s.drop_last(), d);
    }
}

/// Last-write-wins law: after merging the entries of an earlier and then a
/// later document into a mapping, a digest the later document declares
/// resolves to that document's (last) name for it; a digest only the earlier
/// document declares keeps the earlier document's name.
pub proof fn lemma_later_document_wins(
    m: Map<Seq<u8>, Seq<u8>>,
    first: Seq<(Seq<u8>, Seq<u8>)>,
    second: Seq<(Seq<u8>, Seq<u8>)>,
    d: Seq<u8>,
)
    ensures
        has_key(second, d) ==> apply_entries(apply_entries(m, first), second)[d]
            == last_value_for(second, d),
        !has_key(second, d) && has_key(first, d) ==> apply_entries(
            apply_entries(m, first),
            second,
        )[d] == last_value_for(first, d),
{
    if has_key(second, d) {
        lemma_apply_entries_hit(apply_entries(m, first), second, d);
    } else if has_key(first, d) {
        lemma_apply_entries_hit(m, first, d);
        lemma_apply_entries_miss(apply_entries(m, first), second, d);
    }
}

/// The digest-to-name index built from all reference documents.
pub struct ReferenceIndex {
    entries: Vec<(Vec<u8>, Vec<u8>)>,
}

/// The mapping a run of pairs denotes, written left to right.
pub open spec fn map_of(s: Seq<(Seq<u8>, Seq<u8>)>) -> Map<Seq<u8>, Seq<u8>> {
    apply_entries(Map::empty(), s)
}

impl View for ReferenceIndex {
    type V = Map<Seq<u8>, Seq<u8>>;

    closed spec fn view(&self) -> Map<Seq<u8>, Seq<u8>> {
        map_of(pairs_view(self.entries@))
    }
}

impl ReferenceIndex {
    /// An index with no entries.
    pub fn new() -> (r: ReferenceIndex)
        ensures
            r@ == Map::<Seq<u8>, Seq<u8>>::empty(),
    {
        let r = ReferenceIndex { entries: Vec::new() };
        proof {
            assert(pairs_view(r.entries@) =~= Seq::<(Seq<u8>, Seq<u8>)>::empty());
        }
        r
    }

    /// Records one (digest, canonical name) pair; a pair already recorded for
    /// the same digest is overwritten.
    pub fn insert(&mut self, digest: Vec<u8>, name: Vec<u8>)
        ensures
            final(self)@ == old(self)@.insert(digest@, name@),
    {
        let ghost before = pairs_view(self.entries@);
        self.entries.push((digest, name));
        proof {
            let after = pairs_view(self.entries@);
            assert(after.drop_last() =~= before);
            assert(after.last() == (digest@, name@));
            assert(self@ =~= old(self)@.insert(digest@, name@));
        }
    }

    /// Resolves a digest: the canonical name recorded for it, if any.
    pub fn lookup(&self, digest: &Vec<u8>) -> (r: Option<Vec<u8>>)
        ensures
            match r {
                Some(n) => self@.contains_key(digest@) && n@ == self@[digest@],
                None => !self@.contains_key(digest@),
            },
    {
        let ghost pv = pairs_view(self.entries@);
        let mut i: usize = self.entries.len();
        loop
            invariant
                i <= self.entries@.len(),
                pv == pairs_view(self.entries@),
                pv.len() == self.entries@.len(),
                forall|j: int| i <= j < pv.len() ==> pv[j].0 != digest@,
            decreases i,
        {
            if i == 0 {
                proof {
                    lemma_map_of_prefix(pv, digest@, 0);
                    assert(pv.take(0).len() == 0);
                }
                return None;
            }
            i -= 1;
            if bytes_eq(&self.entries[i].0, digest) {
                proof {
                    lemma_map_of_prefix(pv, digest@, i + 1);
                    assert(pv.take(i + 1).drop_last() =~= pv.take(i as int));
                    assert(pv.take(i + 1).last() == pv[i as int]);
                }
                return Some(copy_bytes(&self.entries[i].1));
            }
        }
    }

    /// Merges one parsed document into the index, writing its pairs in
    /// document order, so that its entries override earlier ones.
    pub fn add_document(&mut self, nodes: &Vec<XmlNode>)
        ensures
            final(self)@ == apply_entries(old(self)@, entries_of(nodes_view(nodes@))),
    {
        let es = extract_entries(nodes);
        let ghost ev = pairs_view(es@);
        let mut j: usize = 0;
        proof {
            assert(ev.take(0) =~= Seq::<(Seq<u8>, Seq<u8>)>::empty());
        }
        while j < es.len()
            invariant
                j <= es@.len(),
                ev == pairs_view(es@),
                ev.len() == es@.len(),
                self@ == apply_entries(old(self)@, ev.take(j as int)),
            decreases es@.len() - j,
        {
            let d = copy_bytes(&es[j].0);
            let n = copy_bytes(&es[j].1);
            self.insert(d, n);
            proof {
                assert(ev.take(j + 1).drop_last() =~= ev.take(j as int));
                assert(ev.take(j + 1).last() == ev[j as int]);
            }
            j += 1;
        }
        proof {
            assert(ev.take(ev.len() as int) =~= ev);
        }
    }

    /// Parses one reference document and merges its entries into the index.
    /// The load succeeds exactly on well-formed text; a document the parser
    /// refuses is a `ParseError` and leaves the index unchanged.
    pub fn load_document(&mut self, text: &str) -> (r: Result<(), ParseError>)
        ensures
            r is Ok <==> xml_wf(text@),
            r is Ok ==> final(self)@ == apply_entries(
                old(self)@,
                entries_of(xml_nodes_of(text@)),
            ),
            r is Err ==> final(self)@ == old(self)@,
    {
        match parse_document(text) {
            Ok(nodes) => {
                self.add_document(&nodes);
                Ok(())
            },
            Err(e) => Err(e),
        }
    }
}

/// If no pair at or after position `i` declares `d`, the mapping resolves `d`
/// as the first `i` pairs alone do.
pub proof fn lemma_map_of_prefix(s: Seq<(Seq<u8>, Seq<u8>)>, d: Seq<u8>, i: int)
    requires
        0 <= i <= s.len(),
        forall|j: int| i <= j < s.len() ==> s[j].0 != d,
    ensures
        map_of(s).contains_key(d) == map_of(s.take(i)).contains_key(d),
        map_of(s.take(i)).contains_key(d) ==> map_of(s)[d] == map_of(s.take(i))[d],
    decreases s.len() - i,
{
    if i == s.len() {
        assert(s.take(i) =~= s);
    } else {
        assert(forall|j: int| i <= j < s.len() - 1 ==> s.drop_last()[j] == s[j]);
        lemma_map_of_prefix(s.drop_last(), d, i);
        assert(s.drop_last().take(i) =~= s.take(i));
    }
}

} // verus!
