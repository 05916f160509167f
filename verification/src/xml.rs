use vstd::prelude::*;

verus! {

/// One node of a parsed reference document, reduced to plain values: the tag
/// name (empty for non-element nodes) and the attributes as (name, value)
/// pairs, all as byte strings, in document order.
pub struct XmlNode {
    pub tag: Vec<u8>,
    pub attrs: Vec<(Vec<u8>, Vec<u8>)>,
}

pub struct XmlNodeView {
    pub tag: Seq<u8>,
    pub attrs: Seq<(Seq<u8>, Seq<u8>)>,
}

impl View for XmlNode {
    type V = XmlNodeView;

    open spec fn view(&self) -> XmlNodeView {
        XmlNodeView {
            tag: self.tag@,
            attrs: self.attrs@.map_values(|p: (Vec<u8>, Vec<u8>)| (p.0@, p.1@)),
        }
    }
}

pub open spec fn nodes_view(nodes: Seq<XmlNode>) -> Seq<XmlNodeView> {
    nodes.map_values(|n: XmlNode| n@)
}

/// A reference document that is not well-formed markup.
#[derive(Debug, PartialEq, Eq, Structural)]
pub struct ParseError;

/// The nodes of the markup document `text` in document order, one record per
/// node, as `roxmltree` reads it. The value is determined by the text alone.
pub uninterp spec fn xml_nodes_of(text: Seq<char>) -> Seq<XmlNodeView>;

/// Whether `roxmltree::Document::parse` accepts `text` as a well-formed
/// markup document. The verdict is determined by the text alone.
pub uninterp spec fn xml_wf(text: Seq<char>) -> bool;

/// Relies on `roxmltree::Document::parse` and on the `descendants`,
/// `tag_name`, `attributes`, `name` and `value` accessors: parsing succeeds
/// exactly on well-formed text (`xml_wf`); on success every node of the
/// document is handed out in document order, reduced to its tag name and
/// attribute pairs; a document the parser refuses is a `ParseError`.
#[verifier::external_body]
pub fn parse_document(text: &str) -> (r: Result<Vec<XmlNode>, ParseError>)
    ensures
        r is Ok <==> xml_wf(text@),
        r matches Ok(nodes) ==> nodes_view(nodes@) == xml_nodes_of(text@),
{
    match roxmltree::Document::parse(text) {
        Ok(doc) => Ok(
            doc.descendants().map(
                |n| XmlNode {
                    tag: n.tag_name().name().as_bytes().to_vec(),
                    attrs: n.attributes().map(
                        |a| (a.name().as_bytes().to_vec(), a.value().as_bytes().to_vec()),
                    ).collect(),
                },
            ).collect(),
        ),
        Err(_) => Err(ParseError),
    }
}

} // verus!
