//! Deep copies of rich text between documents.

use vstd::prelude::*;
use yrs::types::xml::XmlIn;
use yrs::{Transaction, TransactionMut, XmlElementRef, XmlFragmentRef, XmlOut, XmlTextRef};

use crate::rich_text::{self, Glyph, XmlTree};
use crate::ydoc::{self, MarkedText, OpenNode};

verus! {

/// Maximum depth of a deep copy. It bounds the recursion on deeply nested
/// documents.
pub const MAX_COPY_DEPTH: u32 = 100;

/// Whether a deep copy may make `out` of a node at `depth`, and whether it then got to the
/// end. A node that lies too deep ends the copy, and what was copied before it stays. The
/// nodes of a nested fragment take the place of the fragment. Where a text is not fixed,
/// any text may come out.
pub open spec fn is_copy(n: XmlTree, depth: int, out: Seq<XmlTree>, done: bool) -> bool
    decreases MAX_COPY_DEPTH + 1 - depth, 0nat,
{
    if depth > MAX_COPY_DEPTH {
        out.len() == 0 && !done
    } else {
        match n {
            XmlTree::Element { tag, attrs, children } => {
                &&& out.len() == 1
                &&& out[0] is Element
                &&& out[0]->tag == tag
                &&& out[0]->attrs == attrs
                &&& are_copies(children, depth + 1, out[0]->children, done)
            },
            XmlTree::Loose { name, plain, loose, below } => {
                &&& out.len() == 1
                &&& out[0] is Element
                &&& out[0]->tag == name
                &&& rich_text::reads_as(n, out[0]->attrs)
                &&& are_copies(below, depth + 1, out[0]->children, done)
            },
            XmlTree::Text(g) => out == seq![n] && done,
            XmlTree::Embeds => done && exists|shown: Seq<char>|
                out == seq![#[trigger] shown_text(seq![], shown)],
            XmlTree::Fragment(children) => are_copies(children, depth + 1, out, done),
        }
    }
}

/// Whether a deep copy may make `out` of the nodes, one after the other.
pub open spec fn are_copies(v: Seq<XmlTree>, depth: int, out: Seq<XmlTree>, done: bool) -> bool
    decreases MAX_COPY_DEPTH + 1 - depth, v.len() + 1,
{
    if v.len() == 0 {
        out.len() == 0 && done
    } else {
        ||| !done && are_copies(v.drop_last(), depth, out, false)
        ||| exists|k: int|
            {
                &&& 0 <= k <= out.len()
                &&& are_copies(v.drop_last(), depth, #[trigger] out.take(k), true)
                &&& is_copy(v.last(), depth, out.skip(k), done)
            }
    }
}

/// The text node for characters, or for a text that shows what a node holds where it has
/// no characters.
pub open spec fn shown_text(glyphs: Seq<Glyph>, shown: Seq<char>) -> XmlTree {
    XmlTree::Text(
        if glyphs.len() == 0 {
            rich_text::plain_glyphs(shown)
        } else {
            glyphs
        },
    )
}

/// Whether a node holds no fragment, no text that is not fixed, and no nodes below
/// `levels` levels.
pub open spec fn within(n: XmlTree, levels: int) -> bool
    decreases levels, 0nat,
{
    levels > 0 && (match n {
        XmlTree::Element { tag, attrs, children } => all_within(children, levels - 1),
        XmlTree::Text(g) => true,
        _ => false,
    })
}

/// Whether the nodes hold no fragment, no text that is not fixed, and none below `levels`
/// levels.
pub open spec fn all_within(v: Seq<XmlTree>, levels: int) -> bool
    decreases levels, 1nat,
{
    forall|i: int| 0 <= i < v.len() ==> within(#[trigger] v[i], levels)
}

/// Nodes that lie within some levels lie within more.
pub proof fn lemma_within_more(v: Seq<XmlTree>, fewer: int, more: int)
    requires
        all_within(v, fewer),
        fewer <= more,
    ensures
        all_within(v, more),
    decreases fewer,
{
    assert forall|i: int| 0 <= i < v.len() implies within(#[trigger] v[i], more) by {
        assert(within(v[i], fewer));
        if let XmlTree::Element { tag, attrs, children } = v[i] {
            lemma_within_more(children, fewer - 1, more - 1);
        }
    }
}

/// A deep copy of nodes that do not lie too deep is a copy: it gets to the end, and gives
/// the nodes themselves.
pub proof fn lemma_copy_exact(v: Seq<XmlTree>, depth: int, out: Seq<XmlTree>, done: bool)
    requires
        all_within(v, MAX_COPY_DEPTH + 1 - depth),
        are_copies(v, depth, out, done),
    ensures
        out == v,
        done,
    decreases MAX_COPY_DEPTH + 1 - depth, v.len() + 1,
{
    if v.len() > 0 {
        let before = v.drop_last();
        let last = v[v.len() - 1];
        assert forall|i: int| 0 <= i < before.len() implies within(
            #[trigger] before[i],
            MAX_COPY_DEPTH + 1 - depth,
        ) by {
            assert(before[i] == v[i]);
        }
        assert(within(last, MAX_COPY_DEPTH + 1 - depth));
        if !done && are_copies(before, depth, out, false) {
            lemma_copy_exact(before, depth, out, false);
        }
        let k = choose|k: int|
            {
                &&& 0 <= k <= out.len()
                &&& are_copies(before, depth, #[trigger] out.take(k), true)
                &&& is_copy(last, depth, out.skip(k), done)
            };
        lemma_copy_exact(before, depth, out.take(k), true);
        let o = out.skip(k);
        if let XmlTree::Element { tag, attrs, children } = last {
            lemma_copy_exact(children, depth + 1, o[0]->children, done);
            assert(o[0] == last);
        }
        assert(o =~= seq![last]);
        assert(out =~= out.take(k) + o);
        assert(v =~= before + seq![last]);
    } else {
        assert(out =~= v);
    }
}

/// A list that begins with nodes that cannot be copied to the end is copied no further.
proof fn lemma_copy_stops(v: Seq<XmlTree>, i: int, depth: int, out: Seq<XmlTree>)
    requires
        0 <= i <= v.len(),
        are_copies(v.take(i), depth, out, false),
    ensures
        are_copies(v, depth, out, false),
    decreases v.len(),
{
    if i < v.len() {
        assert(v.drop_last().take(i) =~= v.take(i));
        lemma_copy_stops(v.drop_last(), i, depth, out);
    } else {
        assert(v.take(i) =~= v);
    }
}

/// Another node is copied after those before it.
proof fn lemma_copy_next(
    v: Seq<XmlTree>,
    i: int,
    depth: int,
    before: Seq<XmlTree>,
    last: Seq<XmlTree>,
    done: bool,
)
    requires
        0 <= i < v.len(),
        are_copies(v.take(i), depth, before, true),
        is_copy(v[i], depth, last, done),
    ensures
        are_copies(v.take(i + 1), depth, before + last, done),
{
    let out = before + last;
    let k = before.len() as int;
    assert(v.take(i + 1).drop_last() =~= v.take(i));
    assert(out.take(k) =~= before);
    assert(out.skip(k) =~= last);
}

fn depth_error() -> (r: String)
    ensures
        r@ == "Maximum nesting depth (100) exceeded during deep copy"@,
{
    "Maximum nesting depth (100) exceeded during deep copy".to_owned()
}

/// The text node for given stretches, or for the text that shows what a node holds where
/// there are no characters.
fn text_from(chunks: Vec<Option<MarkedText>>, shown: String) -> (r: XmlIn)
    requires
        forall|i: int|
            0 <= i < chunks@.len() && (#[trigger] chunks@[i]) is Some ==> ydoc::no_null_mark(
                chunks@[i]->0,
            ),
    ensures
        ydoc::xml_in_tree(r) == shown_text(ydoc::chunk_glyphs(chunks@), shown@),
{
    let ghost all = chunks@;
    let mut runs: Vec<MarkedText> = Vec::new();
    assert(all.take(0) =~= seq![]);
    for chunk in it: chunks
        invariant
            it.seq() == all,
            forall|i: int|
                0 <= i < all.len() && (#[trigger] all[i]) is Some ==> ydoc::no_null_mark(all[i]->0),
            ydoc::all_can_insert(runs@),
            ydoc::marked_glyphs(runs@) == ydoc::chunk_glyphs(all.take(it.index() as int)),
            runs@.len() > 0 ==> ydoc::marked_glyphs(runs@).len() > 0,
    {
        let ghost before = runs@;
        let ghost i = it.index() as int;
        assert(all.take(i + 1).drop_last() =~= all.take(i));
        assert(all[i] == chunk);
        if let Some(m) = chunk {
            assert(ydoc::no_null_mark(m));
            if !m.text.as_str().is_empty() {
                runs.push(m);
                assert(runs@.drop_last() =~= before);
            } else {
                assert(ydoc::chunk_glyphs(all.take(i + 1)) =~= ydoc::chunk_glyphs(all.take(i)));
            }
        }
    }
    assert(all.take(all.len() as int) =~= all);
    if runs.len() == 0 {
        assert(ydoc::chunk_glyphs(all) =~= seq![]);
        let ghost text = shown@;
        if !shown.as_str().is_empty() {
            let marks: Vec<(String, yrs::Any)> = Vec::new();
            runs.push(MarkedText { text: shown, marks });
            proof {
                reveal_with_fuel(ydoc::marked_glyphs, 2);
                assert(runs@.drop_last() =~= seq![]);
                assert(ydoc::marked_glyphs(runs@) =~= rich_text::plain_glyphs(text));
            }
        } else {
            assert(ydoc::marked_glyphs(runs@) =~= rich_text::plain_glyphs(text));
        }
    }
    ydoc::xml_text(runs)
}

/// The copy of a text node.
fn text_of(txn: &Transaction<'_>, t: &XmlTextRef) -> (r: XmlIn)
    ensures
        exists|shown: Seq<char>|
            {
                &&& ydoc::xml_in_tree(r) == #[trigger] shown_text(
                    ydoc::text_glyphs(*txn, *t),
                    shown,
                )
                &&& !ydoc::text_embeds(*txn, *t) && ydoc::text_glyphs(*txn, *t).len() == 0
                    ==> shown.len() == 0
            },
{
    let chunks = ydoc::text_chunks(txn, t);
    let shown = ydoc::text_string(txn, t);
    text_from(chunks, shown)
}

/// The copy of a node at `depth`, and whether it got to the end.
fn copy_of_node(txn: &Transaction<'_>, node: XmlOut, depth: u32) -> (r: (Vec<XmlIn>, bool))
    ensures
        is_copy(ydoc::out_tree(*txn, node), depth as int, ydoc::xml_ins_tree(r.0@), r.1),
    decreases MAX_COPY_DEPTH + 1 - depth, 0nat,
{
    let mut out: Vec<XmlIn> = Vec::new();
    assert(ydoc::xml_ins_tree(out@) =~= seq![]);
    if depth > MAX_COPY_DEPTH {
        return (out, false);
    }
    let ghost tree = ydoc::out_tree(*txn, node);
    match ydoc::open_node(txn, node) {
        OpenNode::Element(e) => {
            let tag = ydoc::element_tag(txn, &e);
            let attrs = ydoc::element_attributes(txn, &e);
            let (kids, done) = copy_of_nodes(txn, ydoc::element_children(txn, &e), depth + 1);
            let n = ydoc::xml_element(tag.as_str(), attrs, kids);
            out.push(n);
            assert(ydoc::xml_ins_tree(out@) =~= seq![ydoc::xml_in_tree(n)]);
            (out, done)
        },
        OpenNode::Text(t) => {
            let n = text_of(txn, &t);
            out.push(n);
            proof {
                let g = ydoc::text_glyphs(*txn, t);
                let shown = choose|shown: Seq<char>|
                    {
                        &&& ydoc::xml_in_tree(n) == #[trigger] shown_text(g, shown)
                        &&& !ydoc::text_embeds(*txn, t) && g.len() == 0 ==> shown.len() == 0
                    };
                assert(ydoc::xml_ins_tree(out@) =~= seq![shown_text(g, shown)]);
                if g.len() == 0 {
                    assert(g =~= seq![]);
                    if !ydoc::text_embeds(*txn, t) {
                        assert(rich_text::plain_glyphs(shown) =~= g);
                    }
                }
            }
            (out, true)
        },
        OpenNode::Fragment(f) => copy_of_nodes(txn, ydoc::fragment_children(txn, &f), depth + 1),
    }
}

/// The copies of the nodes, one after the other.
fn copy_of_nodes(txn: &Transaction<'_>, nodes: Vec<XmlOut>, depth: u32) -> (r: (Vec<XmlIn>, bool))
    requires
        depth <= MAX_COPY_DEPTH + 1,
    ensures
        are_copies(
            ydoc::outs_tree(*txn, nodes@),
            depth as int,
            ydoc::xml_ins_tree(r.0@),
            r.1,
        ),
    decreases MAX_COPY_DEPTH + 1 - depth, 1nat,
{
    let ghost all = ydoc::outs_tree(*txn, nodes@);
    let ghost listed = nodes@;
    let mut out: Vec<XmlIn> = Vec::new();
    let mut done = true;
    assert(all.take(0) =~= seq![]);
    assert(ydoc::xml_ins_tree(out@) =~= seq![]);
    for node in it: nodes
        invariant
            it.seq() == listed,
            all == ydoc::outs_tree(*txn, listed),
            depth <= MAX_COPY_DEPTH + 1,
            done ==> are_copies(
                all.take(it.index() as int),
                depth as int,
                ydoc::xml_ins_tree(out@),
                true,
            ),
            !done ==> are_copies(all, depth as int, ydoc::xml_ins_tree(out@), false),
    {
        let ghost i = it.index() as int;
        if done {
            let ghost before = out@;
            assert(all[i] == ydoc::out_tree(*txn, node));
            let (mut copied, ok) = copy_of_node(txn, node, depth);
            let ghost added = copied@;
            out.append(&mut copied);
            proof {
                assert(ydoc::xml_ins_tree(out@) =~= ydoc::xml_ins_tree(before)
                    + ydoc::xml_ins_tree(added));
                lemma_copy_next(
                    all,
                    i,
                    depth as int,
                    ydoc::xml_ins_tree(before),
                    ydoc::xml_ins_tree(added),
                    ok,
                );
            }
            if !ok {
                done = false;
                proof {
                    lemma_copy_stops(all, i + 1, depth as int, ydoc::xml_ins_tree(out@));
                }
            }
        }
    }
    assert(all.take(all.len() as int) =~= all);
    (out, done)
}

/// Deep-copies all children of one fragment to another.
///
/// Elements keep their attributes, text keeps its marks, and the children of a
/// nested fragment take its place. A node that lies too deep ends the copy with
/// an error; what came before it has been copied.
pub fn deep_copy_xml_fragment(
    src_xml: &XmlFragmentRef,
    src_txn: &Transaction<'_>,
    dst_xml: &XmlFragmentRef,
    dst_txn: &mut TransactionMut<'_>,
    depth: u32,
) -> (r: Result<(), String>)
    ensures
        exists|copied: Seq<XmlTree>|
            {
                &&& #[trigger] fragment_copied(
                    ydoc::fragment_tree(*src_txn, *src_xml),
                    depth as int,
                    copied,
                    r is Ok,
                )
                &&& !ydoc::fragment_deleted(*old(dst_txn), *dst_xml) ==> ydoc::fragment_nodes(
                    *final(dst_txn),
                    *dst_xml,
                ) == ydoc::fragment_nodes(*old(dst_txn), *dst_xml) + copied
            },
        r matches Err(e) ==> e@ == "Maximum nesting depth (100) exceeded during deep copy"@,
{
    if depth > MAX_COPY_DEPTH {
        proof {
            let none: Seq<XmlTree> = seq![];
            assert(fragment_copied(
                ydoc::fragment_tree(*src_txn, *src_xml),
                depth as int,
                none,
                false,
            ));
            assert(ydoc::fragment_nodes(*dst_txn, *dst_xml) + none =~= ydoc::fragment_nodes(
                *dst_txn,
                *dst_xml,
            ));
        }
        return Err(depth_error());
    }
    let (copied, done) = copy_fragment_nodes(src_txn, src_xml, depth);
    push_all(dst_txn, dst_xml, copied);
    if done {
        Ok(())
    } else {
        Err(depth_error())
    }
}

/// Whether a deep copy may make `out` of the children of a fragment at `depth`, and
/// whether it then got to the end.
pub open spec fn fragment_copied(v: Seq<XmlTree>, depth: int, out: Seq<XmlTree>, done: bool) -> bool {
    if depth > MAX_COPY_DEPTH {
        out.len() == 0 && !done
    } else {
        are_copies(v, depth + 1, out, done)
    }
}

/// The copies of the children of a fragment.
pub(crate) fn copy_fragment_nodes(txn: &Transaction<'_>, f: &XmlFragmentRef, depth: u32) -> (r: (
    Vec<XmlIn>,
    bool,
))
    requires
        depth <= MAX_COPY_DEPTH,
    ensures
        fragment_copied(
            ydoc::fragment_tree(*txn, *f),
            depth as int,
            ydoc::xml_ins_tree(r.0@),
            r.1,
        ),
{
    copy_of_nodes(txn, ydoc::fragment_children(txn, f), depth + 1)
}

fn push_all(txn: &mut TransactionMut<'_>, f: &XmlFragmentRef, nodes: Vec<XmlIn>)
    ensures
        !ydoc::fragment_deleted(*old(txn), *f) ==> ydoc::fragment_nodes(*final(txn), *f)
            == ydoc::fragment_nodes(*old(txn), *f) + ydoc::xml_ins_tree(nodes@),
{
    let ghost all = nodes@;
    let ghost before = ydoc::fragment_nodes(*txn, *f);
    let ghost deleted = ydoc::fragment_deleted(*txn, *f);
    assert(before + ydoc::xml_ins_tree(all).take(0) =~= before);
    for node in it: nodes
        invariant
            it.seq() == all,
            !deleted ==> !ydoc::fragment_deleted(*txn, *f) && ydoc::fragment_nodes(*txn, *f)
                == before + ydoc::xml_ins_tree(all).take(it.index() as int),
    {
        let ghost i = it.index() as int;
        assert(ydoc::xml_ins_tree(all).take(i + 1) =~= ydoc::xml_ins_tree(all).take(i).push(
            ydoc::xml_in_tree(node),
        ));
        ydoc::fragment_push(txn, f, node);
        assert(!deleted ==> ydoc::fragment_nodes(*txn, *f) =~= before + ydoc::xml_ins_tree(
            all,
        ).take(i + 1));
    }
    assert(ydoc::xml_ins_tree(all).take(all.len() as int) =~= ydoc::xml_ins_tree(all));
}

/// Deep-copies a node into a fragment.
pub fn deep_copy_xml_node_to_fragment(
    src_txn: &Transaction<'_>,
    dst_parent: &XmlFragmentRef,
    dst_txn: &mut TransactionMut<'_>,
    node: XmlOut,
    depth: u32,
) -> (r: Result<(), String>)
    ensures
        exists|copied: Seq<XmlTree>|
            {
                &&& #[trigger] is_copy(
                    ydoc::out_tree(*src_txn, node),
                    depth as int,
                    copied,
                    r is Ok,
                )
                &&& !ydoc::fragment_deleted(*old(dst_txn), *dst_parent) ==> ydoc::fragment_nodes(
                    *final(dst_txn),
                    *dst_parent,
                ) == ydoc::fragment_nodes(*old(dst_txn), *dst_parent) + copied
            },
        r matches Err(e) ==> e@ == "Maximum nesting depth (100) exceeded during deep copy"@,
{
    let (copied, done) = copy_of_node(src_txn, node, depth);
    push_all(dst_txn, dst_parent, copied);
    if done {
        Ok(())
    } else {
        Err(depth_error())
    }
}

/// Deep-copies a node into an element.
pub fn deep_copy_xml_node_to_element(
    src_txn: &Transaction<'_>,
    dst_parent: &XmlElementRef,
    dst_txn: &mut TransactionMut<'_>,
    node: XmlOut,
    depth: u32,
) -> (r: Result<(), String>)
    ensures
        exists|copied: Seq<XmlTree>|
            {
                &&& #[trigger] is_copy(
                    ydoc::out_tree(*src_txn, node),
                    depth as int,
                    copied,
                    r is Ok,
                )
                &&& !ydoc::element_deleted(*old(dst_txn), *dst_parent) ==> ydoc::element_nodes(
                    *final(dst_txn),
                    *dst_parent,
                ) == ydoc::element_nodes(*old(dst_txn), *dst_parent) + copied
            },
        r matches Err(e) ==> e@ == "Maximum nesting depth (100) exceeded during deep copy"@,
{
    let (copied, done) = copy_of_node(src_txn, node, depth);
    let ghost all = copied@;
    let ghost before = ydoc::element_nodes(*dst_txn, *dst_parent);
    let ghost deleted = ydoc::element_deleted(*dst_txn, *dst_parent);
    assert(before + ydoc::xml_ins_tree(all).take(0) =~= before);
    for n in it: copied
        invariant
            it.seq() == all,
            !deleted ==> !ydoc::element_deleted(*dst_txn, *dst_parent) && ydoc::element_nodes(
                *dst_txn,
                *dst_parent,
            ) == before + ydoc::xml_ins_tree(all).take(it.index() as int),
    {
        let ghost i = it.index() as int;
        assert(ydoc::xml_ins_tree(all).take(i + 1) =~= ydoc::xml_ins_tree(all).take(i).push(
            ydoc::xml_in_tree(n),
        ));
        ydoc::element_push(dst_txn, dst_parent, n);
        assert(!deleted ==> ydoc::element_nodes(*dst_txn, *dst_parent) =~= before
            + ydoc::xml_ins_tree(all).take(i + 1));
    }
    assert(ydoc::xml_ins_tree(all).take(all.len() as int) =~= ydoc::xml_ins_tree(all));
    if done {
        Ok(())
    } else {
        Err(depth_error())
    }
}

} // verus!
