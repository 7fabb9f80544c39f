//! The element tree of an HTML document, flattened to the plain values
//! that the index model reads.

use kuchiki::traits::TendrilSink;
use vstd::prelude::*;
use vstd::string::*;

verus! {

/// One attribute of an element.
#[derive(Clone, Debug, PartialEq, Eq)]
pub struct Attribute {
    pub namespace: String,
    pub name: String,
    pub value: String,
}

/// The mathematical value of an [`Attribute`].
pub struct AttributeView {
    pub namespace: Seq<char>,
    pub name: Seq<char>,
    pub value: Seq<char>,
}

impl View for Attribute {
    type V = AttributeView;

    open spec fn view(&self) -> AttributeView {
        AttributeView { namespace: self.namespace@, name: self.name@, value: self.value@ }
    }
}

/// What the index model reads of one node of a document: the local name
/// if the node is an element, the text of its first child if that child
/// is a text node, and the attributes if it is an element, ordered by
/// namespace and name.
#[derive(Clone, Debug, PartialEq, Eq)]
pub struct HtmlNode {
    pub tag: Option<String>,
    pub text: Option<String>,
    pub attributes: Vec<Attribute>,
}

/// The mathematical value of an [`HtmlNode`].
pub struct NodeView {
    pub tag: Option<Seq<char>>,
    pub text: Option<Seq<char>>,
    pub attributes: Seq<AttributeView>,
}

/// The characters of an optional string.
pub open spec fn text_view(s: Option<String>) -> Option<Seq<char>> {
    match s {
        Some(t) => Some(t@),
        None => None,
    }
}

impl View for HtmlNode {
    type V = NodeView;

    open spec fn view(&self) -> NodeView {
        NodeView {
            tag: text_view(self.tag),
            text: text_view(self.text),
            attributes: Seq::new(self.attributes@.len(), |k: int| self.attributes@[k]@),
        }
    }
}

/// The values of a run of nodes.
pub open spec fn node_views(nodes: Seq<HtmlNode>) -> Seq<NodeView> {
    Seq::new(nodes.len(), |k: int| nodes[k]@)
}

/// The nodes below the root of the tree that the HTML parser builds for
/// `html`, in document order.
pub uninterp spec fn document_nodes(html: Seq<char>) -> Seq<NodeView>;

/// The longest text, in characters, that is handed to the HTML parser.
/// The parser copies the text into a buffer whose length in bytes is a
/// 32-bit number, and a character takes at most four bytes.
pub const MAX_DOCUMENT_CHARS: usize = 0x3fff_ffff;

/// The nodes that are read from `html`: those of its document, and none
/// for a text that is too long for the parser.
pub open spec fn readable_nodes(html: Seq<char>) -> Seq<NodeView> {
    if html.len() <= MAX_DOCUMENT_CHARS {
        document_nodes(html)
    } else {
        Seq::empty()
    }
}

/// Parses `html` with `kuchiki::parse_html` and walks
/// `NodeRef::descendants`, copying out of each node its element name, the
/// text of a first child that is a text node, and its attribute map. The
/// parser is lenient and reports no failure, but it panics on a text of
/// more than `u32::MAX` bytes: the bound on the characters keeps the text
/// below that. The contract only names the result: it is a function of
/// the text alone.
#[verifier::external_body]
pub(crate) fn parse_document(html: &str) -> (nodes: Vec<HtmlNode>)
    requires
        html@.len() <= MAX_DOCUMENT_CHARS,
    ensures
        node_views(nodes@) == document_nodes(html@),
{
    let nodes = kuchiki::parse_html().one(html).descendants();
    nodes.map(|n| HtmlNode {
        tag: n.as_element().map(|e| e.name.local.to_string()),
        text: n.first_child().and_then(|c| Some(c.as_text()?.borrow().clone())),
        attributes: n.as_element().map_or(Vec::new(), |e| e.attributes.borrow().map.iter().map(|(k, a)| Attribute {
            namespace: k.ns.to_string(),
            name: k.local.to_string(),
            value: a.value.clone(),
        }).collect()),
    }).collect()
}

/// The nodes of a text, as plain values: those of its document where the
/// parser can hold the text, and none where the text is too long for it.
pub fn read_nodes(html: &str) -> (nodes: Vec<HtmlNode>)
    ensures
        node_views(nodes@) == readable_nodes(html@),
{
    if html.unicode_len() <= MAX_DOCUMENT_CHARS {
        parse_document(html)
    } else {
        let nodes: Vec<HtmlNode> = Vec::new();
        assert(node_views(nodes@) =~= Seq::<NodeView>::empty());
        nodes
    }
}

/// The value of the first attribute from position `i` on that has no
/// namespace and the given name.
pub open spec fn attribute_from(attrs: Seq<AttributeView>, name: Seq<char>, i: int) -> Option<
    Seq<char>,
>
    decreases attrs.len() - i,
{
    if i < 0 || i >= attrs.len() {
        None
    } else if attrs[i].namespace.len() == 0 && attrs[i].name == name {
        Some(attrs[i].value)
    } else {
        attribute_from(attrs, name, i + 1)
    }
}

/// The value of the attribute `name` in no namespace.
pub open spec fn attribute(node: NodeView, name: Seq<char>) -> Option<Seq<char>> {
    attribute_from(node.attributes, name, 0)
}

/// The node is an anchor element.
pub open spec fn is_anchor(node: NodeView) -> bool {
    node.tag == Some("a"@)
}

impl HtmlNode {
    /// Looks up an attribute without namespace by its name.
    pub fn attribute(&self, name: &str) -> (r: Option<String>)
        ensures
            text_view(r) == attribute(self@, name@),
    {
        let mut i: usize = 0;
        while i < self.attributes.len()
            invariant
                i <= self.attributes@.len(),
                self@.attributes.len() == self.attributes@.len(),
                attribute(self@, name@) == attribute_from(self@.attributes, name@, i as int),
            decreases self.attributes@.len() - i,
        {
            assert(self@.attributes[i as int] == self.attributes@[i as int]@);
            let a = &self.attributes[i];
            if a.namespace.as_str().unicode_len() == 0 && same_text(a.name.as_str(), name) {
                return Some(a.value.clone());
            }
            i += 1;
        }
        None
    }

    /// Whether the node is an anchor element.
    pub fn is_anchor(&self) -> (r: bool)
        ensures
            r == is_anchor(self@),
    {
        match &self.tag {
            Some(t) => same_text(t.as_str(), "a"),
            None => false,
        }
    }
}

/// Whether two texts hold the same characters.
pub fn same_text(a: &str, b: &str) -> (r: bool)
    ensures
        r == (a@ == b@),
{
    let n = a.unicode_len();
    if n != b.unicode_len() {
        return false;
    }
    let mut i: usize = 0;
    while i < n
        invariant
            n == a@.len(),
            n == b@.len(),
            i <= n,
            forall|k: int| 0 <= k < i ==> a@[k] == b@[k],
        decreases n - i,
    {
        if a.get_char(i) != b.get_char(i) {
            return false;
        }
        i += 1;
    }
    assert(a@ =~= b@);
    true
}

} // verus!
