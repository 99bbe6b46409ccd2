//! Yjs documents.
//!
//! A document holds named roots: maps, arrays and rich-text fragments. Here its
//! content is spoken of as a tree of plain values, and values to insert are built
//! bottom-up from plain values.

use std::collections::HashMap;
use std::sync::Arc;

use vstd::prelude::*;
use yrs::branch::Branch;
use yrs::types::xml::{XmlDeltaPrelim, XmlIn};
use yrs::types::Delta;
use yrs::updates::decoder::Decode;
use yrs::{
    Any, Array, ArrayPrelim, Doc, GetString, In, MapPrelim, MapRef, Out, ReadTxn, StateVector, Text,
    Transact, Transaction, TransactionMut, Update, WriteTxn, Xml, XmlElementPrelim, XmlElementRef,
    XmlFragment, XmlFragmentPrelim, XmlFragmentRef, XmlOut, XmlTextRef,
};

use crate::rich_text::{self, AnyTree, Glyph, MarkType, TextRun, XmlNode, XmlTree};
use crate::text;
use crate::update_levels;
use crate::update_scan;
use crate::yrs_xml_copy;

verus! {

// ---------------------------------------------------------------------------
// Types of yrs
// ---------------------------------------------------------------------------

#[verifier::external_type_specification]
#[verifier::external_body]
pub struct ExDoc(yrs::Doc);

#[verifier::external_type_specification]
#[verifier::external_body]
pub struct ExAny(yrs::Any);

#[verifier::external_type_specification]
#[verifier::external_body]
pub struct ExIn(yrs::In);

#[verifier::external_type_specification]
#[verifier::external_body]
pub struct ExXmlIn(yrs::types::xml::XmlIn);

#[verifier::external_type_specification]
#[verifier::external_body]
pub struct ExXmlOut(yrs::XmlOut);

#[verifier::external_type_specification]
#[verifier::external_body]
pub struct ExXmlElementRef(yrs::XmlElementRef);

#[verifier::external_type_specification]
#[verifier::external_body]
pub struct ExXmlTextRef(yrs::XmlTextRef);

#[verifier::external_type_specification]
#[verifier::external_body]
pub struct ExXmlFragmentRef(yrs::XmlFragmentRef);

#[verifier::external_type_specification]
#[verifier::external_body]
pub struct ExMapRef(yrs::MapRef);

#[verifier::external_type_specification]
#[verifier::external_body]
pub struct ExTransaction<'doc>(yrs::Transaction<'doc>);

#[verifier::external_type_specification]
#[verifier::external_body]
pub struct ExTransactionMut<'doc>(yrs::TransactionMut<'doc>);

// ---------------------------------------------------------------------------
// Content as trees
// ---------------------------------------------------------------------------

/// What a place in a document holds.
pub enum YTree {
    Value(AnyTree),
    Dict(Map<Seq<char>, YTree>),
    List(Seq<YTree>),
    Fragment(Seq<XmlTree>),
    /// Text that stands by itself.
    Text(Seq<Glyph>),
    /// An element, or the text of one.
    Node(XmlTree),
    /// A link or another document.
    Other,
}

pub open spec fn ystr(s: Seq<char>) -> YTree {
    YTree::Value(AnyTree::Str(s))
}

pub open spec fn ybool(b: bool) -> YTree {
    YTree::Value(AnyTree::Bool(b))
}

pub open spec fn ynull() -> YTree {
    YTree::Value(AnyTree::Null)
}

/// The whole number `n`, stored as a floating-point number.
pub open spec fn ynumber(n: int) -> YTree {
    YTree::Value(AnyTree::Number(as_double(n)))
}

pub open spec fn ybig(n: int) -> YTree {
    YTree::Value(AnyTree::BigInt(n))
}

/// The strings as an array.
pub open spec fn ystrs(v: Seq<Seq<char>>) -> YTree {
    YTree::List(v.map_values(|s: Seq<char>| ystr(s)))
}

/// The value nearest to `n` that a 64-bit floating-point number can hold.
pub uninterp spec fn as_double(n: int) -> int;

/// What a value holds.
pub uninterp spec fn any_tree(a: Any) -> AnyTree;

/// What a value to insert holds.
pub uninterp spec fn in_tree(v: In) -> YTree;

/// What a rich-text node to insert holds.
pub uninterp spec fn xml_in_tree(v: XmlIn) -> XmlTree;

/// What the roots of a document hold. A root that came with an update is of no kind
/// yet: it counts as a fragment.
pub uninterp spec fn doc_roots(d: Doc) -> Map<Seq<char>, YTree>;

/// Whether all that a document holds was put into it, and nothing came with an update.
pub uninterp spec fn self_made(d: Doc) -> bool;

/// What the root `key` of an empty document holds once the update is applied to it,
/// read as a fragment; nothing where the bytes are no update or there is no such
/// root.
pub uninterp spec fn update_fragment(update: Seq<u8>, key: Seq<char>) -> Option<Seq<XmlTree>>;

/// What the roots of a document hold that came with an update, read as maps.
pub uninterp spec fn loaded_entries(d: Doc) -> Map<Seq<char>, Map<Seq<char>, YTree>>;

/// What the roots of an empty document hold once the update is applied to it, read as
/// maps.
pub uninterp spec fn update_entries(update: Seq<u8>) -> Map<Seq<char>, Map<Seq<char>, YTree>>;

/// What the roots of a document hold that came with an update, read as arrays.
pub uninterp spec fn loaded_items(d: Doc) -> Map<Seq<char>, Seq<YTree>>;

/// What the roots of an empty document hold once the update is applied to it, read as
/// arrays.
pub uninterp spec fn update_items(update: Seq<u8>) -> Map<Seq<char>, Seq<YTree>>;

/// Whether the bytes are an update.
pub uninterp spec fn is_update(update: Seq<u8>) -> bool;

/// What the root `key` holds, read as a fragment, as a transaction sees it.
pub uninterp spec fn txn_fragment(txn: Transaction<'_>, key: Seq<char>) -> Option<Seq<XmlTree>>;

/// What a node holds, as a transaction sees it.
pub uninterp spec fn out_tree(txn: Transaction<'_>, n: XmlOut) -> XmlTree;

/// What an element holds.
pub uninterp spec fn element_tree(txn: Transaction<'_>, e: XmlElementRef) -> XmlTree;

/// What a fragment holds.
pub uninterp spec fn fragment_tree(txn: Transaction<'_>, f: XmlFragmentRef) -> Seq<XmlTree>;

/// The characters of a text node with their marks.
pub uninterp spec fn text_glyphs(txn: Transaction<'_>, t: XmlTextRef) -> Seq<Glyph>;

/// Whether a text node holds values that are no strings, or empty strings.
pub uninterp spec fn text_embeds(txn: Transaction<'_>, t: XmlTextRef) -> bool;

/// The children of a fragment, as a writing transaction sees them.
pub uninterp spec fn fragment_nodes(txn: TransactionMut<'_>, f: XmlFragmentRef) -> Seq<XmlTree>;

/// The children of an element, as a writing transaction sees them.
pub uninterp spec fn element_nodes(txn: TransactionMut<'_>, e: XmlElementRef) -> Seq<XmlTree>;

/// What a text node holds: its characters, or only other values.
pub open spec fn text_tree(glyphs: Seq<Glyph>, embeds: bool) -> XmlTree {
    if glyphs.len() == 0 && embeds {
        XmlTree::Embeds
    } else {
        XmlTree::Text(glyphs)
    }
}

/// The nodes that were found, or none.
pub open spec fn nodes_or_none(o: Option<Seq<XmlTree>>) -> Seq<XmlTree> {
    match o {
        Some(v) => v,
        None => seq![],
    }
}

/// No roots at all.
pub open spec fn no_roots() -> Map<Seq<char>, YTree> {
    Map::empty()
}

/// The fragment under `key`.
pub open spec fn fragment_under(roots: Map<Seq<char>, YTree>, key: Seq<char>) -> Option<
    Seq<XmlTree>,
> {
    if roots.contains_key(key) && roots[key] is Fragment {
        Some(roots[key]->Fragment_0)
    } else {
        None
    }
}

/// Whether all roots are fragments.
pub open spec fn roots_are_fragments(roots: Map<Seq<char>, YTree>) -> bool {
    forall|k: Seq<char>| #[trigger] roots.contains_key(k) ==> roots[k] is Fragment
}

/// Whether all roots are maps.
pub open spec fn roots_are_dicts(roots: Map<Seq<char>, YTree>) -> bool {
    forall|k: Seq<char>| #[trigger] roots.contains_key(k) ==> roots[k] is Dict
}

/// The map under `key`, which is empty where there is none.
pub open spec fn dict_under(roots: Map<Seq<char>, YTree>, key: Seq<char>) -> Map<Seq<char>, YTree> {
    if roots.contains_key(key) && roots[key] is Dict {
        roots[key]->Dict_0
    } else {
        Map::empty()
    }
}

/// The array under `key`, which is empty where there is none.
pub open spec fn list_under(roots: Map<Seq<char>, YTree>, key: Seq<char>) -> Seq<YTree> {
    if roots.contains_key(key) && roots[key] is List {
        roots[key]->List_0
    } else {
        seq![]
    }
}

/// Whether a mark comes out of an update as it went in: it is true or false, a string, or
/// a map of strings.
pub open spec fn keeps_mark(a: AnyTree) -> bool {
    match a {
        AnyTree::Bool(b) => true,
        AnyTree::Str(s) => true,
        AnyTree::Dict(m) => forall|k: Seq<char>| #[trigger] m.contains_key(k) ==> m[k] is Str,
        _ => false,
    }
}

/// Whether all marks of the characters come out of an update as they went in.
pub open spec fn keeps_glyphs(g: Seq<Glyph>) -> bool {
    forall|i: int, k: Seq<char>|
        0 <= i < g.len() && #[trigger] g[i].marks.contains_key(k) ==> keeps_mark(g[i].marks[k])
}

/// Whether a node comes out of an update as it went in.
pub open spec fn keeps_node(n: XmlTree) -> bool
    decreases n,
{
    match n {
        XmlTree::Element { tag, attrs, children } => forall|i: int|
            0 <= i < children.len() ==> keeps_node(#[trigger] children[i]),
        XmlTree::Text(g) => keeps_glyphs(g),
        _ => false,
    }
}

/// Whether all nodes come out of an update as they went in.
pub open spec fn keeps_nodes(v: Seq<XmlTree>) -> bool {
    forall|i: int| 0 <= i < v.len() ==> keeps_node(#[trigger] v[i])
}

/// Whether all roots are fragments whose nodes come out of an update as they went in.
pub open spec fn keeps_roots(roots: Map<Seq<char>, YTree>) -> bool {
    forall|k: Seq<char>| #[trigger]
        roots.contains_key(k) ==> roots[k] is Fragment && keeps_nodes(roots[k]->Fragment_0)
}

/// Whether all roots are fragments whose nodes do not nest as deep as types may.
pub open spec fn roots_within(roots: Map<Seq<char>, YTree>) -> bool {
    forall|k: Seq<char>| #[trigger]
        roots.contains_key(k) ==> roots[k] is Fragment && yrs_xml_copy::all_within(
            roots[k]->Fragment_0,
            update_levels::MAX_NESTING as int,
        )
}

/// The entries as a map. Of two entries with one key the later counts.
pub open spec fn entries_tree(v: Seq<(String, In)>) -> Map<Seq<char>, YTree>
    decreases v.len(),
{
    if v.len() == 0 {
        Map::empty()
    } else {
        entries_tree(v.drop_last()).insert(v.last().0@, in_tree(v.last().1))
    }
}

/// What the values of a list hold.
pub open spec fn ins_tree(v: Seq<In>) -> Seq<YTree> {
    v.map_values(|i: In| in_tree(i))
}

/// What the nodes of a list hold.
pub open spec fn xml_ins_tree(v: Seq<XmlIn>) -> Seq<XmlTree> {
    v.map_values(|i: XmlIn| xml_in_tree(i))
}

/// What the nodes of a list hold, as a transaction sees them.
pub open spec fn outs_tree(txn: Transaction<'_>, v: Seq<XmlOut>) -> Seq<XmlTree> {
    v.map_values(|n: XmlOut| out_tree(txn, n))
}

/// The marks as a map.
pub open spec fn marks_tree(v: Seq<(String, Any)>) -> Map<Seq<char>, AnyTree>
    decreases v.len(),
{
    if v.len() == 0 {
        Map::empty()
    } else {
        marks_tree(v.drop_last()).insert(v.last().0@, any_tree(v.last().1))
    }
}

/// A stretch of text with its marks.
pub struct MarkedText {
    pub text: String,
    pub marks: Vec<(String, Any)>,
}

/// The characters of a list of stretches.
pub open spec fn marked_glyphs(v: Seq<MarkedText>) -> Seq<Glyph>
    decreases v.len(),
{
    if v.len() == 0 {
        seq![]
    } else {
        marked_glyphs(v.drop_last()) + rich_text::glyphs(
            v.last().text@,
            marks_tree(v.last().marks@),
        )
    }
}

/// Whether no mark of a stretch is null, which would take the mark away.
pub open spec fn no_null_mark(m: MarkedText) -> bool {
    forall|i: int|
        0 <= i < m.marks@.len() ==> any_tree((#[trigger] m.marks@[i]).1) != AnyTree::Null
}

/// Whether a stretch can be inserted: it has text, and no mark is null.
pub open spec fn can_insert(m: MarkedText) -> bool {
    m.text@.len() > 0 && no_null_mark(m)
}

pub open spec fn all_can_insert(v: Seq<MarkedText>) -> bool {
    forall|i: int| 0 <= i < v.len() ==> can_insert(#[trigger] v[i])
}

// ---------------------------------------------------------------------------
// Values to insert
// ---------------------------------------------------------------------------

/// `Any::from(&str)`: a string value.
#[verifier::external_body]
pub(crate) fn any_str(s: &str) -> (r: Any)
    ensures
        any_tree(r) == AnyTree::Str(s@),
{
    Any::from(s)
}

/// `Any::from(bool)`: a truth value.
#[verifier::external_body]
pub(crate) fn any_bool(b: bool) -> (r: Any)
    ensures
        any_tree(r) == AnyTree::Bool(b),
{
    Any::from(b)
}

/// `Any::Map`: a value with one entry.
#[verifier::external_body]
pub(crate) fn any_dict(key: &str, value: Any) -> (r: Any)
    ensures
        any_tree(r) == AnyTree::Dict(Map::empty().insert(key@, any_tree(value))),
{
    Any::Map(Arc::new(HashMap::from([(key.to_string(), value)])))
}

/// `In::from(&str)`: a string value to insert.
#[verifier::external_body]
pub(crate) fn in_str(s: &str) -> (r: In)
    ensures
        in_tree(r) == ystr(s@),
{
    In::from(s)
}

/// `In::from(bool)`: a truth value to insert.
#[verifier::external_body]
pub(crate) fn in_bool(b: bool) -> (r: In)
    ensures
        in_tree(r) == ybool(b),
{
    In::from(b)
}

/// `In::Any` of `Any::Null`: a null to insert.
#[verifier::external_body]
pub(crate) fn in_null() -> (r: In)
    ensures
        in_tree(r) == ynull(),
{
    In::Any(Any::Null)
}

/// `Any::Number` of an integer: it is stored as the nearest 64-bit
/// floating-point number, which is the integer itself up to 53 bits.
#[verifier::external_body]
pub(crate) fn in_number(n: i64) -> (r: In)
    ensures
        in_tree(r) == YTree::Value(AnyTree::Number(as_double(n as int))),
        -0x20_0000_0000_0000 <= n <= 0x20_0000_0000_0000 ==> in_tree(r) == YTree::Value(
            AnyTree::Number(n as int),
        ),
{
    In::Any(Any::Number(n as _))
}

/// `Any::BigInt`: an integer that is stored as such.
#[verifier::external_body]
pub(crate) fn in_big(n: i64) -> (r: In)
    ensures
        in_tree(r) == ybig(n as int),
{
    In::Any(Any::BigInt(n))
}

/// `MapPrelim` from entries: a map to insert. Of two entries with one key the
/// later counts.
#[verifier::external_body]
pub(crate) fn in_dict(entries: Vec<(String, In)>) -> (r: In)
    ensures
        in_tree(r) == YTree::Dict(entries_tree(entries@)),
{
    In::Map(entries.into_iter().collect::<MapPrelim>())
}

/// `ArrayPrelim` from items: an array to insert.
#[verifier::external_body]
pub(crate) fn in_list(items: Vec<In>) -> (r: In)
    ensures
        in_tree(r) == YTree::List(ins_tree(items@)),
{
    In::Array(ArrayPrelim::from(items))
}

/// `XmlFragmentPrelim::new`: a fragment to insert, with its nodes.
#[verifier::external_body]
pub(crate) fn in_fragment(nodes: Vec<XmlIn>) -> (r: In)
    ensures
        in_tree(r) == YTree::Fragment(xml_ins_tree(nodes@)),
{
    In::XmlFragment(XmlFragmentPrelim::new::<Vec<XmlIn>, XmlIn>(nodes))
}

/// `XmlElementPrelim`: an element to insert. Of two attributes with one key the
/// later counts.
#[verifier::external_body]
pub(crate) fn xml_element(tag: &str, attrs: Vec<(String, String)>, children: Vec<XmlIn>) -> (r:
    XmlIn)
    ensures
        xml_in_tree(r) == (XmlTree::Element {
            tag: tag@,
            attrs: rich_text::pairs_map(attrs@),
            children: xml_ins_tree(children@),
        }),
{
    let attributes = attrs.into_iter().map(|(k, v)| (Arc::from(k), v)).collect();
    XmlIn::Element(XmlElementPrelim { tag: Arc::from(tag), attributes, children })
}

/// `XmlDeltaPrelim`: a text node to insert, whose stretches are inserted one
/// after the other, each with its own marks.
#[verifier::external_body]
pub(crate) fn xml_text(runs: Vec<MarkedText>) -> (r: XmlIn)
    requires
        all_can_insert(runs@),
    ensures
        xml_in_tree(r) == XmlTree::Text(marked_glyphs(runs@)),
{
    let delta = runs.into_iter().map(|m| {
        let marks = m.marks.into_iter().map(|(k, v)| (Arc::from(k), v)).collect();
        Delta::Inserted(In::from(m.text), Some(Box::new(marks)))
    }).collect();
    XmlIn::Text(XmlDeltaPrelim { attributes: HashMap::new(), delta })
}

/// `XmlIn::clone`: a node to insert that holds the same.
#[verifier::external_body]
pub(crate) fn clone_node(n: &XmlIn) -> (r: XmlIn)
    ensures
        xml_in_tree(r) == xml_in_tree(*n),
{
    n.clone()
}

/// Nodes to insert that hold the same.
pub(crate) fn clone_nodes(v: &Vec<XmlIn>) -> (r: Vec<XmlIn>)
    ensures
        xml_ins_tree(r@) == xml_ins_tree(v@),
{
    let mut out: Vec<XmlIn> = Vec::new();
    let mut i: usize = 0;
    while i < v.len()
        invariant
            i <= v@.len(),
            out@.len() == i,
            forall|k: int| 0 <= k < i ==> xml_in_tree(#[trigger] out@[k]) == xml_in_tree(v@[k]),
        decreases v@.len() - i,
    {
        out.push(clone_node(&v[i]));
        i = i + 1;
    }
    assert(xml_ins_tree(out@) =~= xml_ins_tree(v@));
    out
}

// ---------------------------------------------------------------------------
// Documents
// ---------------------------------------------------------------------------

/// `Doc::new`: a document without roots.
#[verifier::external_body]
pub(crate) fn new_doc() -> (r: Doc)
    ensures
        doc_roots(r) == no_roots(),
        self_made(r),
{
    Doc::new()
}

/// `MapRef::insert` into the root map `root`, which is created where it is
/// missing.
#[verifier::external_body]
pub(crate) fn put_entry(doc: &mut Doc, root: &str, key: &str, value: In)
    requires
        doc_roots(*old(doc)).contains_key(root@) ==> doc_roots(*old(doc))[root@] is Dict,
    ensures
        doc_roots(*final(doc)) == doc_roots(*old(doc)).insert(
            root@,
            YTree::Dict(dict_under(doc_roots(*old(doc)), root@).insert(key@, in_tree(value))),
        ),
{
    let mut txn = doc.transact_mut();
    let map = txn.get_or_insert_map(root);
    yrs::Map::insert(&map, &mut txn, key, value);
}

/// `ArrayRef::push_back` onto the root array `root`, which is created where it is
/// missing.
#[verifier::external_body]
pub(crate) fn push_item(doc: &mut Doc, root: &str, value: In)
    requires
        doc_roots(*old(doc)).contains_key(root@) ==> doc_roots(*old(doc))[root@] is List,
    ensures
        doc_roots(*final(doc)) == doc_roots(*old(doc)).insert(
            root@,
            YTree::List(list_under(doc_roots(*old(doc)), root@).push(in_tree(value))),
        ),
{
    let mut txn = doc.transact_mut();
    let array = txn.get_or_insert_array(root);
    array.push_back(&mut txn, value);
}

/// `WriteTxn::get_or_insert_xml_fragment`: the root fragment `root` is there, and
/// holds what it held.
#[verifier::external_body]
pub(crate) fn add_fragment(doc: &mut Doc, root: &str)
    requires
        doc_roots(*old(doc)).contains_key(root@) ==> doc_roots(*old(doc))[root@] is Fragment,
    ensures
        doc_roots(*final(doc)) == doc_roots(*old(doc)).insert(
            root@,
            YTree::Fragment(nodes_or_none(fragment_under(doc_roots(*old(doc)), root@))),
        ),
        self_made(*final(doc)) == self_made(*old(doc)),
{
    doc.transact_mut().get_or_insert_xml_fragment(root);
}

/// `XmlFragment::push_back` onto the root fragment `root`.
#[verifier::external_body]
pub(crate) fn push_node(doc: &mut Doc, root: &str, node: XmlIn)
    requires
        doc_roots(*old(doc)).contains_key(root@),
        doc_roots(*old(doc))[root@] is Fragment,
    ensures
        doc_roots(*final(doc)) == doc_roots(*old(doc)).insert(
            root@,
            YTree::Fragment(doc_roots(*old(doc))[root@]->Fragment_0.push(xml_in_tree(node))),
        ),
        self_made(*final(doc)) == self_made(*old(doc)),
{
    let mut txn = doc.transact_mut();
    let fragment = txn.get_or_insert_xml_fragment(root);
    fragment.push_back(&mut txn, node);
}

/// `ReadTxn::encode_state_as_update_v1` against the empty state vector, of a document of
/// fragments into which all was put here: an update that takes an empty document to what
/// this one holds. A fragment without nodes need not be in it. Every clock takes a byte
/// at least, so the clocks of a short update are low, and its types nest as the nodes do.
#[verifier::external_body]
pub(crate) fn encode_doc(doc: &Doc) -> (r: Vec<u8>)
    requires
        self_made(*doc),
        keeps_roots(doc_roots(*doc)),
    ensures
        is_update(r@),
        r@.len() <= update_scan::MAX_CLOCK && roots_within(doc_roots(*doc))
            ==> update_scan::sound_update(r@),
        forall|key: Seq<char>|
            nodes_or_none(#[trigger] update_fragment(r@, key)) == nodes_or_none(
                fragment_under(doc_roots(*doc), key),
            ),
{
    doc.transact().encode_state_as_update_v1(&StateVector::default())
}

/// `Update::decode_v1` and `TransactionMut::apply_update` on a new document:
/// nothing where the bytes are no update. What the document holds, read as fragments,
/// maps or arrays, is a function of the bytes.
#[verifier::external_body]
pub(crate) fn load_update(update: &[u8]) -> (r: Option<Doc>)
    requires
        update_scan::sound_update(update@),
    ensures
        r is Some <==> is_update(update@),
        r is Some ==> roots_are_fragments(doc_roots(r->0)),
        r is Some ==> loaded_entries(r->0) == update_entries(update@) && loaded_items(r->0)
            == update_items(update@),
        r is Some ==> forall|key: Seq<char>|
            fragment_under(doc_roots(r->0), key) == #[trigger] update_fragment(update@, key),
        r is None ==> forall|key: Seq<char>| #[trigger] update_fragment(update@, key) is None,
{
    let update = Update::decode_v1(update).ok()?;
    let doc = Doc::new();
    let _ = doc.transact_mut().apply_update(update);
    Some(doc)
}

/// `Doc::transact`, of a document of fragments: a transaction that sees what the
/// document holds.
#[verifier::external_body]
pub(crate) fn read_txn<'a>(doc: &'a Doc) -> (r: Transaction<'a>)
    requires
        roots_are_fragments(doc_roots(*doc)),
    ensures
        forall|key: Seq<char>|
            #[trigger] txn_fragment(r, key) == fragment_under(doc_roots(*doc), key),
{
    doc.transact()
}

// ---------------------------------------------------------------------------
// Reading rich text
// ---------------------------------------------------------------------------

/// `ReadTxn::get_xml_fragment`: the root `key`, read as a fragment, if there is one.
#[verifier::external_body]
pub(crate) fn find_fragment(txn: &Transaction<'_>, key: &str) -> (r: Option<XmlFragmentRef>)
    ensures
        match r {
            Some(f) => txn_fragment(*txn, key@) == Some(fragment_tree(*txn, f)),
            None => txn_fragment(*txn, key@) is None,
        },
{
    txn.get_xml_fragment(key)
}

/// A node, told apart by its kind.
pub enum OpenNode {
    Element(XmlElementRef),
    Text(XmlTextRef),
    Fragment(XmlFragmentRef),
}

/// The variants of `XmlOut`, with what they hold.
#[verifier::external_body]
pub(crate) fn open_node(txn: &Transaction<'_>, node: XmlOut) -> (r: OpenNode)
    ensures
        out_tree(*txn, node) == match r {
            OpenNode::Element(e) => element_tree(*txn, e),
            OpenNode::Text(t) => text_tree(text_glyphs(*txn, t), text_embeds(*txn, t)),
            OpenNode::Fragment(f) => XmlTree::Fragment(fragment_tree(*txn, f)),
        },
        r is Element ==> rich_text::is_element(element_tree(*txn, r->Element_0)),
{
    match node {
        XmlOut::Element(e) => OpenNode::Element(e),
        XmlOut::Text(t) => OpenNode::Text(t),
        XmlOut::Fragment(f) => OpenNode::Fragment(f),
    }
}

/// `XmlElementRef::tag`.
#[verifier::external_body]
pub(crate) fn element_tag(txn: &Transaction<'_>, e: &XmlElementRef) -> (r: String)
    requires
        rich_text::is_element(element_tree(*txn, *e)),
    ensures
        r@ == rich_text::tag_of(element_tree(*txn, *e)),
{
    e.tag().to_string()
}

/// `Xml::attributes`, in no given order. An attribute that holds a map, a list, a shared
/// type or a document is written out as text, with the entries of a map in no given order:
/// of its text nothing is said.
#[verifier::external_body]
pub(crate) fn element_attributes(txn: &Transaction<'_>, e: &XmlElementRef) -> (r: Vec<
    (String, String),
>)
    requires
        rich_text::is_element(element_tree(*txn, *e)),
    ensures
        rich_text::reads_as(element_tree(*txn, *e), rich_text::pairs_map(r@)),
{
    e.attributes(txn).map(|(k, v)| (k.to_string(), v)).collect()
}

/// `XmlFragment::children` of an element.
#[verifier::external_body]
pub(crate) fn element_children(txn: &Transaction<'_>, e: &XmlElementRef) -> (r: Vec<XmlOut>)
    requires
        rich_text::is_element(element_tree(*txn, *e)),
    ensures
        outs_tree(*txn, r@) == rich_text::children_of(element_tree(*txn, *e)),
{
    e.children(txn).collect()
}

/// `XmlFragment::children` of a fragment.
#[verifier::external_body]
pub(crate) fn fragment_children(txn: &Transaction<'_>, f: &XmlFragmentRef) -> (r: Vec<XmlOut>)
    ensures
        outs_tree(*txn, r@) == fragment_tree(*txn, *f),
{
    f.children(txn).collect()
}

/// The characters of a list of stretches, where nothing stands for what is
/// embedded.
pub open spec fn chunk_glyphs(v: Seq<Option<MarkedText>>) -> Seq<Glyph>
    decreases v.len(),
{
    if v.len() == 0 {
        seq![]
    } else {
        match v.last() {
            Some(m) => chunk_glyphs(v.drop_last()) + rich_text::glyphs(
                m.text@,
                marks_tree(m.marks@),
            ),
            None => chunk_glyphs(v.drop_last()),
        }
    }
}

/// Whether a stretch has no characters.
pub open spec fn no_characters(o: Option<MarkedText>) -> bool {
    o is None || o->0.text@.len() == 0
}

/// `Text::diff`: the stretches of a text node, with nothing in the place of an
/// embedded value that is no string. No mark is null.
#[verifier::external_body]
pub(crate) fn text_chunks(txn: &Transaction<'_>, t: &XmlTextRef) -> (r: Vec<Option<MarkedText>>)
    ensures
        chunk_glyphs(r@) == text_glyphs(*txn, *t),
        text_embeds(*txn, *t) <==> exists|i: int|
            0 <= i < r@.len() && no_characters(#[trigger] r@[i]),
        forall|i: int|
            0 <= i < r@.len() && (#[trigger] r@[i]) is Some ==> no_null_mark(r@[i]->0),
{
    t.diff(txn, yrs::types::text::YChange::identity).into_iter().map(|d| match d.insert {
        Out::Any(Any::String(s)) => Some(MarkedText {
            text: s.to_string(),
            marks: d.attributes.into_iter().flat_map(|a| *a).map(
                |(k, v)| (k.to_string(), v)).collect(),
        }),
        _ => None,
    }).collect()
}

/// `GetString::get_string` of a text node: nothing where there is nothing in it. Maps in
/// what is embedded are written out in no given order: of the text that shows them nothing
/// is said.
#[verifier::external_body]
pub(crate) fn text_string(txn: &Transaction<'_>, t: &XmlTextRef) -> (r: String)
    ensures
        text_glyphs(*txn, *t).len() == 0 && !text_embeds(*txn, *t) ==> r@.len() == 0,
{
    t.get_string(txn)
}

// ---------------------------------------------------------------------------
// Reading maps
// ---------------------------------------------------------------------------

/// The maps among the values of a map.
pub uninterp spec fn child_maps(txn: Transaction<'_>, m: MapRef) -> Set<MapRef>;

/// The integer that a map holds under a key.
pub uninterp spec fn int_at(txn: Transaction<'_>, m: MapRef, key: Seq<char>) -> Option<int>;

/// The string that a map holds under a key.
pub uninterp spec fn str_at(txn: Transaction<'_>, m: MapRef, key: Seq<char>) -> Option<Seq<char>>;

/// `Map::iter`: the values of a map in no given order, with nothing in the place
/// of a value that is no map.
#[verifier::external_body]
pub(crate) fn map_children(txn: &Transaction<'_>, m: &MapRef) -> (r: Vec<Option<MapRef>>)
    ensures
        forall|i: int|
            0 <= i < r@.len() && (#[trigger] r@[i]) is Some ==> child_maps(*txn, *m).contains(
                r@[i]->0,
            ),
        forall|c: MapRef| #[trigger]
            child_maps(*txn, *m).contains(c) ==> r@.contains(Some(c)),
{
    yrs::Map::iter(m, txn).map(|(_, v)| match v {
        Out::YMap(c) => Some(c),
        _ => None,
    }).collect()
}

/// `Map::get` of an integer, stored as such or as a number, whose fraction is then
/// cut off.
#[verifier::external_body]
pub(crate) fn map_int(txn: &Transaction<'_>, m: &MapRef, key: &str) -> (r: Option<i64>)
    ensures
        text::opt_i64(r) == int_at(*txn, *m, key@),
{
    match yrs::Map::get(m, txn, key) {
        Some(Out::Any(Any::BigInt(n))) => Some(n),
        Some(Out::Any(Any::Number(n))) => Some(n as i64),
        _ => None,
    }
}

/// `Map::get` of a string.
#[verifier::external_body]
pub(crate) fn map_str(txn: &Transaction<'_>, m: &MapRef, key: &str) -> (r: Option<String>)
    ensures
        text::opt_text(r) == str_at(*txn, *m, key@),
{
    match yrs::Map::get(m, txn, key) {
        Some(Out::Any(Any::String(s))) => Some(s.to_string()),
        _ => None,
    }
}

// ---------------------------------------------------------------------------
// Writing rich text
// ---------------------------------------------------------------------------

/// Whether a fragment was deleted from its document. Such a fragment takes no
/// nodes.
pub uninterp spec fn fragment_deleted(txn: TransactionMut<'_>, f: XmlFragmentRef) -> bool;

/// Whether an element was deleted from its document.
pub uninterp spec fn element_deleted(txn: TransactionMut<'_>, e: XmlElementRef) -> bool;

/// Whether a map was deleted from its document.
pub uninterp spec fn map_deleted(txn: TransactionMut<'_>, m: MapRef) -> bool;

/// `Branch::is_deleted` of a fragment.
#[verifier::external_body]
pub(crate) fn is_fragment_deleted(txn: &TransactionMut<'_>, f: &XmlFragmentRef) -> (r: bool)
    ensures
        r == fragment_deleted(*txn, *f),
{
    AsRef::<Branch>::as_ref(f).is_deleted()
}

/// `Branch::is_deleted` of a map.
#[verifier::external_body]
pub(crate) fn is_map_deleted(txn: &TransactionMut<'_>, m: &MapRef) -> (r: bool)
    ensures
        r == map_deleted(*txn, *m),
{
    AsRef::<Branch>::as_ref(m).is_deleted()
}

/// `XmlFragment::push_back` onto a fragment. What becomes of a deleted fragment is
/// left open.
#[verifier::external_body]
pub(crate) fn fragment_push(txn: &mut TransactionMut<'_>, f: &XmlFragmentRef, node: XmlIn)
    ensures
        !fragment_deleted(*old(txn), *f) ==> !fragment_deleted(*final(txn), *f) && fragment_nodes(
            *final(txn),
            *f,
        ) == fragment_nodes(*old(txn), *f).push(xml_in_tree(node)),
{
    f.push_back(txn, node);
}

/// `XmlFragment::push_back` onto an element. What becomes of a deleted element is
/// left open.
#[verifier::external_body]
pub(crate) fn element_push(txn: &mut TransactionMut<'_>, e: &XmlElementRef, node: XmlIn)
    ensures
        !element_deleted(*old(txn), *e) ==> !element_deleted(*final(txn), *e) && element_nodes(
            *final(txn),
            *e,
        ) == element_nodes(*old(txn), *e).push(xml_in_tree(node)),
{
    e.push_back(txn, node);
}

/// The fragment that a map holds under a key.
pub uninterp spec fn fragment_at(txn: TransactionMut<'_>, m: MapRef, key: Seq<char>) -> Option<
    XmlFragmentRef,
>;

/// `Map::get`: the fragment under `key`, which was not deleted; nothing where
/// something else or nothing stands there.
#[verifier::external_body]
pub(crate) fn map_fragment(txn: &TransactionMut<'_>, m: &MapRef, key: &str) -> (r: Option<
    XmlFragmentRef,
>)
    ensures
        r == fragment_at(*txn, *m, key@),
        r is Some ==> !fragment_deleted(*txn, r->0),
{
    match yrs::Map::get(m, txn, key) {
        Some(Out::YXmlFragment(f)) => Some(f),
        _ => None,
    }
}

/// What a map holds under a key.
pub uninterp spec fn value_at(txn: TransactionMut<'_>, m: MapRef, key: Seq<char>) -> Option<YTree>;

/// Whether a map that held the fragment `f` before still does, holds under its other keys
/// what it held, and is deleted only where it was.
pub open spec fn map_kept(
    before: TransactionMut<'_>,
    after: TransactionMut<'_>,
    f: XmlFragmentRef,
) -> bool {
    &&& forall|m: MapRef, key: Seq<char>|
        fragment_at(before, m, key) == Some(f) ==> #[trigger] fragment_at(after, m, key) == Some(f)
    &&& forall|m: MapRef, key: Seq<char>, other: Seq<char>|
        #![trigger fragment_at(before, m, key), value_at(after, m, other)]
        fragment_at(before, m, key) == Some(f) && other != key ==> value_at(after, m, other)
            == value_at(before, m, other)
    &&& forall|m: MapRef, key: Seq<char>|
        #![trigger fragment_at(before, m, key), map_deleted(after, m)]
        fragment_at(before, m, key) == Some(f) ==> map_deleted(after, m) == map_deleted(before, m)
}

/// `Map::insert` of an empty fragment under `key`. The other entries stay, and so does the
/// map.
#[verifier::external_body]
pub(crate) fn map_insert_fragment(txn: &mut TransactionMut<'_>, m: &MapRef, key: &str) -> (r:
    XmlFragmentRef)
    requires
        !map_deleted(*old(txn), *m),
    ensures
        fragment_at(*final(txn), *m, key@) == Some(r),
        !map_deleted(*final(txn), *m),
        !fragment_deleted(*final(txn), r),
        fragment_nodes(*final(txn), r).len() == 0,
        forall|other: Seq<char>|
            other != key@ ==> #[trigger] value_at(*final(txn), *m, other) == value_at(
                *old(txn),
                *m,
                other,
            ),
{
    yrs::Map::insert(m, txn, key, XmlFragmentPrelim::default())
}

/// `XmlFragment::len`.
#[verifier::external_body]
pub(crate) fn fragment_len(txn: &TransactionMut<'_>, f: &XmlFragmentRef) -> (r: u32)
    ensures
        r == fragment_nodes(*txn, *f).len(),
{
    f.len(txn)
}

/// `XmlFragment::remove_range`. The fragment itself is not deleted, and stays in the
/// map that holds it, whose other entries stay.
#[verifier::external_body]
pub(crate) fn fragment_remove(txn: &mut TransactionMut<'_>, f: &XmlFragmentRef, from: u32, n: u32)
    requires
        from + n <= fragment_nodes(*old(txn), *f).len(),
    ensures
        fragment_nodes(*final(txn), *f) == fragment_nodes(*old(txn), *f).take(from as int)
            + fragment_nodes(*old(txn), *f).skip(from + n),
        fragment_deleted(*final(txn), *f) == fragment_deleted(*old(txn), *f),
        map_kept(*old(txn), *final(txn), *f),
{
    f.remove_range(txn, from, n);
}

/// `XmlFragment::insert` into a fragment: the node stands at `index`, unless that is the
/// front of a fragment with nodes, where yrs orders it among what other clients wrote.
/// The fragment stays in the map that holds it, whose other entries stay.
#[verifier::external_body]
pub(crate) fn fragment_insert(
    txn: &mut TransactionMut<'_>,
    f: &XmlFragmentRef,
    index: u32,
    node: XmlIn,
)
    requires
        !fragment_deleted(*old(txn), *f),
        index <= fragment_nodes(*old(txn), *f).len(),
    ensures
        exists|k: int|
            0 <= k <= fragment_nodes(*old(txn), *f).len() && (index > 0 || fragment_nodes(
                *old(txn),
                *f,
            ).len() == 0 ==> k == index) && fragment_nodes(*final(txn), *f) == (
            #[trigger] fragment_nodes(*old(txn), *f).insert(k, xml_in_tree(node))),
        !fragment_deleted(*final(txn), *f),
        map_kept(*old(txn), *final(txn), *f),
{
    f.insert(txn, index, node);
}

// ---------------------------------------------------------------------------
// Filling roots
// ---------------------------------------------------------------------------

/// Fills a new root map.
pub(crate) fn put_entries(doc: &mut Doc, root: &str, entries: Vec<(String, In)>)
    requires
        !doc_roots(*old(doc)).contains_key(root@),
    ensures
        doc_roots(*final(doc)) == (if entries@.len() == 0 {
            doc_roots(*old(doc))
        } else {
            doc_roots(*old(doc)).insert(root@, YTree::Dict(entries_tree(entries@)))
        }),
{
    let ghost all = entries@;
    let ghost was = doc_roots(*doc);
    assert(all.take(0) =~= seq![]);
    for entry in it: entries
        invariant
            it.seq() == all,
            !was.contains_key(root@),
            doc_roots(*doc) == (if it.index() == 0 {
                was
            } else {
                was.insert(root@, YTree::Dict(entries_tree(all.take(it.index() as int))))
            }),
    {
        let ghost i = it.index() as int;
        assert(all.take(i + 1).drop_last() =~= all.take(i));
        assert(all[i] == entry);
        let (key, value) = entry;
        put_entry(doc, root, key.as_str(), value);
        assert(i == 0 ==> all.take(i) =~= seq![]);
        assert(entries_tree(all.take(i + 1)) == entries_tree(all.take(i)).insert(
            key@,
            in_tree(value),
        ));
        assert(doc_roots(*doc) =~= was.insert(
            root@,
            YTree::Dict(entries_tree(all.take(i + 1))),
        ));
    }
    assert(all.take(all.len() as int) =~= all);
}

/// Fills a new root array.
pub(crate) fn push_items(doc: &mut Doc, root: &str, items: Vec<In>)
    requires
        !doc_roots(*old(doc)).contains_key(root@),
    ensures
        doc_roots(*final(doc)) == (if items@.len() == 0 {
            doc_roots(*old(doc))
        } else {
            doc_roots(*old(doc)).insert(root@, YTree::List(ins_tree(items@)))
        }),
{
    let ghost all = items@;
    let ghost trees = ins_tree(all);
    let ghost was = doc_roots(*doc);
    assert(trees.take(0) =~= seq![]);
    for item in it: items
        invariant
            it.seq() == all,
            trees == ins_tree(all),
            !was.contains_key(root@),
            doc_roots(*doc) == (if it.index() == 0 {
                was
            } else {
                was.insert(root@, YTree::List(trees.take(it.index() as int)))
            }),
    {
        let ghost i = it.index() as int;
        assert(trees.take(i + 1) =~= trees.take(i).push(in_tree(item)));
        push_item(doc, root, item);
        assert(i == 0 ==> trees.take(i) =~= list_under(was, root@));
        assert(doc_roots(*doc) =~= was.insert(root@, YTree::List(trees.take(i + 1))));
    }
    assert(trees.take(all.len() as int) =~= trees);
}

/// Fills a new root fragment.
pub(crate) fn push_nodes(doc: &mut Doc, root: &str, nodes: Vec<XmlIn>)
    requires
        !doc_roots(*old(doc)).contains_key(root@),
    ensures
        doc_roots(*final(doc)) == doc_roots(*old(doc)).insert(
            root@,
            YTree::Fragment(xml_ins_tree(nodes@)),
        ),
{
    let ghost all = nodes@;
    let ghost trees = xml_ins_tree(all);
    let ghost was = doc_roots(*doc);
    add_fragment(doc, root);
    assert(trees.take(0) =~= seq![]);
    for node in it: nodes
        invariant
            it.seq() == all,
            trees == xml_ins_tree(all),
            doc_roots(*doc) == was.insert(root@, YTree::Fragment(trees.take(it.index() as int))),
    {
        let ghost i = it.index() as int;
        assert(trees.take(i + 1) =~= trees.take(i).push(xml_in_tree(node)));
        push_node(doc, root, node);
        assert(doc_roots(*doc) =~= was.insert(root@, YTree::Fragment(trees.take(i + 1))));
    }
    assert(trees.take(all.len() as int) =~= trees);
}

// ---------------------------------------------------------------------------
// Plain nodes to nodes to insert
// ---------------------------------------------------------------------------

fn mark_values(mark: &Option<MarkType>) -> (r: Vec<(String, Any)>)
    ensures
        marks_tree(r@) == rich_text::mark_attrs(*mark),
        forall|i: int| 0 <= i < r@.len() ==> any_tree((#[trigger] r@[i]).1) != AnyTree::Null,
{
    let mut out: Vec<(String, Any)> = Vec::new();
    proof {
        reveal_with_fuel(marks_tree, 2);
    }
    let ghost none = out@;
    match mark {
        None => {},
        Some(MarkType::Bold) => {
            out.push(("bold".to_owned(), any_bool(true)));
        },
        Some(MarkType::Italic) => {
            out.push(("italic".to_owned(), any_bool(true)));
        },
        Some(MarkType::Strike) => {
            out.push(("strike".to_owned(), any_bool(true)));
        },
        Some(MarkType::Code) => {
            out.push(("code".to_owned(), any_bool(true)));
        },
        Some(MarkType::Link(href)) => {
            out.push(("link".to_owned(), any_dict("href", any_str(href.as_str()))));
        },
    }
    proof {
        if mark is Some {
            assert(out@.drop_last() =~= none);
        }
    }
    out
}

fn runs_to_text(runs: &Vec<TextRun>) -> (r: XmlIn)
    ensures
        xml_in_tree(r) == XmlTree::Text(rich_text::runs_glyphs(runs@)),
{
    let mut out: Vec<MarkedText> = Vec::new();
    let mut i: usize = 0;
    assert(runs@.take(0) =~= seq![]);
    while i < runs.len()
        invariant
            i <= runs@.len(),
            all_can_insert(out@),
            marked_glyphs(out@) == rich_text::runs_glyphs(runs@.take(i as int)),
        decreases runs@.len() - i,
    {
        let ghost before = out@;
        assert(runs@.take(i + 1).drop_last() =~= runs@.take(i as int));
        if !runs[i].text.as_str().is_empty() {
            let m = MarkedText { text: runs[i].text.clone(), marks: mark_values(&runs[i].mark) };
            out.push(m);
            assert(out@.drop_last() =~= before);
        } else {
            assert(rich_text::runs_glyphs(runs@.take(i + 1)) =~= rich_text::runs_glyphs(
                runs@.take(i as int),
            ));
        }
        i = i + 1;
    }
    assert(runs@.take(runs@.len() as int) =~= runs@);
    xml_text(out)
}

/// Copies a list of pairs.
fn clone_pairs(v: &Vec<(String, String)>) -> (r: Vec<(String, String)>)
    ensures
        r@ == v@,
{
    let mut out: Vec<(String, String)> = Vec::new();
    let mut i: usize = 0;
    while i < v.len()
        invariant
            i <= v@.len(),
            out@ == v@.take(i as int),
        decreases v@.len() - i,
    {
        out.push((v[i].0.clone(), v[i].1.clone()));
        assert(v@.take(i + 1) =~= v@.take(i as int).push(v@[i as int]));
        i = i + 1;
    }
    assert(v@.take(v@.len() as int) =~= v@);
    out
}

/// The node to insert for a plain node.
pub(crate) fn to_xml_in(n: &XmlNode) -> (r: XmlIn)
    ensures
        xml_in_tree(r) == rich_text::node_tree(*n),
    decreases n,
{
    match n {
        XmlNode::Text(runs) => runs_to_text(runs),
        XmlNode::Element { tag, attrs, children } => {
            let mut out: Vec<XmlIn> = Vec::new();
            let mut i: usize = 0;
            while i < children.len()
                invariant
                    i <= children@.len(),
                    *n == (XmlNode::Element { tag: *tag, attrs: *attrs, children: *children }),
                    out@.len() == i,
                    forall|k: int|
                        0 <= k < i ==> xml_in_tree(#[trigger] out@[k]) == rich_text::node_tree(
                            children@[k],
                        ),
                decreases children@.len() - i,
            {
                proof {
                    assert(decreases_to!(*n => n->children));
                    assert(decreases_to!(n->children => n->children@));
                    assert(decreases_to!(children@ => children@[i as int]));
                }
                out.push(to_xml_in(&children[i]));
                i = i + 1;
            }
            proof {
                assert(xml_ins_tree(out@) =~= rich_text::nodes_tree(children@));
                rich_text::lemma_element_children(*tag, *attrs, *children);
            }
            xml_element(tag.as_str(), clone_pairs(attrs), out)
        },
    }
}

/// The nodes to insert for a list of plain nodes.
pub(crate) fn to_xml_ins(v: &Vec<XmlNode>) -> (r: Vec<XmlIn>)
    ensures
        xml_ins_tree(r@) == rich_text::nodes_tree(v@),
{
    let mut out: Vec<XmlIn> = Vec::new();
    let mut i: usize = 0;
    while i < v.len()
        invariant
            i <= v@.len(),
            out@.len() == i,
            forall|k: int|
                0 <= k < i ==> xml_in_tree(#[trigger] out@[k]) == rich_text::node_tree(v@[k]),
        decreases v@.len() - i,
    {
        out.push(to_xml_in(&v[i]));
        i = i + 1;
    }
    assert(xml_ins_tree(out@) =~= rich_text::nodes_tree(v@));
    out
}

} // verus!
