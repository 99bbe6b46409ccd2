//! Rich text as a plain tree: elements with attributes, and text whose
//! characters carry marks.

use vstd::prelude::*;

verus! {

// ---------------------------------------------------------------------------
// The model
// ---------------------------------------------------------------------------

/// A JSON-like value, as a document stores it.
pub enum AnyTree {
    Null,
    Bool(bool),
    /// A whole number that is stored as a floating-point number.
    Number(int),
    /// A 64-bit integer that is stored as such.
    BigInt(int),
    Str(Seq<char>),
    List(Seq<AnyTree>),
    Dict(Map<Seq<char>, AnyTree>),
}

/// A character with the marks that it carries.
pub struct Glyph {
    pub ch: char,
    pub marks: Map<Seq<char>, AnyTree>,
}

/// A node of rich text.
pub enum XmlTree {
    Element { tag: Seq<char>, attrs: Map<Seq<char>, Seq<char>>, children: Seq<XmlTree> },
    Text(Seq<Glyph>),
    Fragment(Seq<XmlTree>),
    /// An element in which some attributes hold a map, a list, a shared type or a document.
    /// The texts of these may come out differently each time they are read.
    Loose {
        name: Seq<char>,
        plain: Map<Seq<char>, Seq<char>>,
        loose: Set<Seq<char>>,
        below: Seq<XmlTree>,
    },
    /// A text node without characters that holds other values, or empty strings. The text
    /// that shows them may come out differently each time it is read.
    Embeds,
}

/// Whether a node is an element.
pub open spec fn is_element(n: XmlTree) -> bool {
    n is Element || n is Loose
}

/// The tag of an element.
pub open spec fn tag_of(n: XmlTree) -> Seq<char> {
    match n {
        XmlTree::Element { tag, attrs, children } => tag,
        XmlTree::Loose { name, plain, loose, below } => name,
        _ => seq![],
    }
}

/// The children of an element.
pub open spec fn children_of(n: XmlTree) -> Seq<XmlTree> {
    match n {
        XmlTree::Element { tag, attrs, children } => children,
        XmlTree::Loose { name, plain, loose, below } => below,
        _ => seq![],
    }
}

/// Whether the attributes of an element may be read as `m`.
pub open spec fn reads_as(n: XmlTree, m: Map<Seq<char>, Seq<char>>) -> bool {
    match n {
        XmlTree::Element { tag, attrs, children } => m == attrs,
        XmlTree::Loose { name, plain, loose, below } => {
            &&& m.dom() == plain.dom().union(loose)
            &&& forall|k: Seq<char>| #[trigger]
                plain.contains_key(k) && !loose.contains(k) ==> m[k] == plain[k]
        },
        _ => false,
    }
}

/// A character with its marks.
pub open spec fn glyph(ch: char, marks: Map<Seq<char>, AnyTree>) -> Glyph {
    Glyph { ch, marks }
}

/// The characters of `text`, all with the same marks.
pub open spec fn glyphs(text: Seq<char>, marks: Map<Seq<char>, AnyTree>) -> Seq<Glyph> {
    text.map_values(|c: char| glyph(c, marks))
}

/// The characters of `text` without marks.
pub open spec fn plain_glyphs(text: Seq<char>) -> Seq<Glyph> {
    glyphs(text, Map::empty())
}

/// The pairs as a map. Of two pairs with one key the later counts.
pub open spec fn pairs_map(v: Seq<(String, String)>) -> Map<Seq<char>, Seq<char>>
    decreases v.len(),
{
    if v.len() == 0 {
        Map::empty()
    } else {
        pairs_map(v.drop_last()).insert(v.last().0@, v.last().1@)
    }
}

// ---------------------------------------------------------------------------
// The values
// ---------------------------------------------------------------------------

/// An inline mark.
#[derive(Debug, PartialEq, Eq)]
pub enum MarkType {
    Bold,
    Italic,
    Strike,
    Code,
    /// Hyperlink mark carrying its `href`.
    Link(String),
}

/// A stretch of text with at most one mark over it.
#[derive(Debug, PartialEq, Eq)]
pub struct TextRun {
    pub text: String,
    pub mark: Option<MarkType>,
}

/// A node of rich text.
#[derive(Debug, PartialEq, Eq)]
pub enum XmlNode {
    Element { tag: String, attrs: Vec<(String, String)>, children: Vec<XmlNode> },
    Text(Vec<TextRun>),
}

/// The marks that a mark type puts on a character. A mark with attributes is
/// stored under its name as a map of those attributes, another one as `true`.
pub open spec fn mark_attrs(mark: Option<MarkType>) -> Map<Seq<char>, AnyTree> {
    match mark {
        None => Map::empty(),
        Some(MarkType::Bold) => Map::empty().insert("bold"@, AnyTree::Bool(true)),
        Some(MarkType::Italic) => Map::empty().insert("italic"@, AnyTree::Bool(true)),
        Some(MarkType::Strike) => Map::empty().insert("strike"@, AnyTree::Bool(true)),
        Some(MarkType::Code) => Map::empty().insert("code"@, AnyTree::Bool(true)),
        Some(MarkType::Link(href)) => link_attrs(href@),
    }
}

/// The marks of a link to `href`.
pub open spec fn link_attrs(href: Seq<char>) -> Map<Seq<char>, AnyTree> {
    Map::empty().insert("link"@, AnyTree::Dict(Map::empty().insert("href"@, AnyTree::Str(href))))
}

/// The characters of a list of runs.
pub open spec fn runs_glyphs(v: Seq<TextRun>) -> Seq<Glyph>
    decreases v.len(),
{
    if v.len() == 0 {
        seq![]
    } else {
        runs_glyphs(v.drop_last()) + glyphs(v.last().text@, mark_attrs(v.last().mark))
    }
}

/// The tree that a node stands for.
pub open spec fn node_tree(n: XmlNode) -> XmlTree
    decreases n,
{
    match n {
        XmlNode::Element { tag, attrs, children } => XmlTree::Element {
            tag: tag@,
            attrs: pairs_map(attrs@),
            children: Seq::new(
                children@.len(),
                |i: int|
                    if 0 <= i < children@.len() {
                        node_tree(children@[i])
                    } else {
                        XmlTree::Text(seq![])
                    },
            ),
        },
        XmlNode::Text(runs) => XmlTree::Text(runs_glyphs(runs@)),
    }
}

/// The trees that a list of nodes stands for.
pub open spec fn nodes_tree(v: Seq<XmlNode>) -> Seq<XmlTree> {
    v.map_values(|n: XmlNode| node_tree(n))
}

impl View for XmlNode {
    type V = XmlTree;

    open spec fn view(&self) -> XmlTree {
        node_tree(*self)
    }
}

/// An element without attributes.
pub open spec fn bare(tag: Seq<char>, children: Seq<XmlTree>) -> XmlTree {
    XmlTree::Element { tag, attrs: Map::empty(), children }
}

/// An element with one attribute.
pub open spec fn with_attr(
    tag: Seq<char>,
    key: Seq<char>,
    value: Seq<char>,
    children: Seq<XmlTree>,
) -> XmlTree {
    XmlTree::Element { tag, attrs: Map::empty().insert(key, value), children }
}

pub proof fn lemma_nodes_push(v: Seq<XmlNode>, n: XmlNode)
    ensures
        nodes_tree(v.push(n)) == nodes_tree(v).push(node_tree(n)),
{
    assert(nodes_tree(v.push(n)) =~= nodes_tree(v).push(node_tree(n)));
}

pub proof fn lemma_element_children(tag: String, attrs: Vec<(String, String)>, c: Vec<XmlNode>)
    ensures
        node_tree(XmlNode::Element { tag, attrs, children: c }) == (XmlTree::Element {
            tag: tag@,
            attrs: pairs_map(attrs@),
            children: nodes_tree(c@),
        }),
{
    let t = node_tree(XmlNode::Element { tag, attrs, children: c });
    assert(t->Element_children =~= nodes_tree(c@));
}

/// An element without attributes.
pub fn bare_element(tag: &str, children: Vec<XmlNode>) -> (r: XmlNode)
    ensures
        r@ == bare(tag@, nodes_tree(children@)),
{
    let attrs: Vec<(String, String)> = Vec::new();
    let tag = tag.to_owned();
    proof {
        lemma_element_children(tag, attrs, children);
    }
    XmlNode::Element { tag, attrs, children }
}

/// An element with one attribute.
pub fn element_with_attr(tag: &str, key: &str, value: String, children: Vec<XmlNode>) -> (r:
    XmlNode)
    ensures
        r@ == with_attr(tag@, key@, value@, nodes_tree(children@)),
{
    let mut attrs: Vec<(String, String)> = Vec::new();
    attrs.push((key.to_owned(), value));
    let tag = tag.to_owned();
    proof {
        reveal_with_fuel(pairs_map, 2);
        assert(attrs@.drop_last() =~= seq![]);
        lemma_element_children(tag, attrs, children);
    }
    XmlNode::Element { tag, attrs, children }
}

/// A text node with one run without marks.
pub fn plain_text(text: String) -> (r: XmlNode)
    ensures
        r@ == XmlTree::Text(plain_glyphs(text@)),
{
    let mut runs: Vec<TextRun> = Vec::new();
    runs.push(TextRun { text, mark: None });
    proof {
        reveal_with_fuel(runs_glyphs, 2);
        assert(runs@.drop_last() =~= seq![]);
        assert(runs_glyphs(runs@) =~= plain_glyphs(text@));
    }
    XmlNode::Text(runs)
}

/// A list of one node.
pub fn one_node(n: XmlNode) -> (r: Vec<XmlNode>)
    ensures
        nodes_tree(r@) == seq![n@],
{
    let mut v: Vec<XmlNode> = Vec::new();
    v.push(n);
    assert(nodes_tree(v@) =~= seq![n@]);
    v
}

} // verus!
