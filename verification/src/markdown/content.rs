//! The nodes that a line of inline-formatted text becomes.

use std::collections::HashMap;
use vstd::prelude::*;

use crate::markdown::segment::{self, Segment, TextSegment};
use crate::rich_text::{self, Glyph, MarkType, TextRun, XmlNode, XmlTree};
use crate::text;
use crate::yrs_xml_copy;

verus! {

/// Looks up the id of an item by its short id.
pub type ItemResolver<'a> = &'a HashMap<i64, String>;

/// The items that a resolver knows: short id to id.
pub open spec fn resolver_view(r: Option<ItemResolver<'_>>) -> Map<int, Seq<char>> {
    match r {
        None => Map::empty(),
        Some(m) => Map::new(
            |n: int| i64::MIN <= n <= i64::MAX && m@.contains_key(n as i64),
            |n: int| m@[n as i64]@,
        ),
    }
}

/// The character that holds the place of an embedded element in text.
pub const PLACEHOLDER: char = '\u{FFFC}';

/// Whether a segment becomes an element of its own, and no text.
pub open spec fn is_embed(s: Segment) -> bool {
    s is Image || s is ItemRef
}

pub open spec fn has_embeds(v: Seq<Segment>) -> bool {
    exists|i: int| 0 <= i < v.len() && is_embed(#[trigger] v[i])
}

/// The text that a segment contributes.
pub open spec fn segment_text(s: Segment) -> Seq<char> {
    match s {
        Segment::Plain(t) => t,
        Segment::Bold(t) => t,
        Segment::Italic(t) => t,
        Segment::Strike(t) => t,
        Segment::Code(t) => t,
        Segment::Link { text, .. } => text,
        Segment::Image { .. } => seq![],
        Segment::ItemRef(_) => seq![],
    }
}

/// The marks on the text of a segment.
pub open spec fn segment_marks(s: Segment) -> Map<Seq<char>, rich_text::AnyTree> {
    match s {
        Segment::Bold(_) => rich_text::mark_attrs(Some(MarkType::Bold)),
        Segment::Italic(_) => rich_text::mark_attrs(Some(MarkType::Italic)),
        Segment::Strike(_) => rich_text::mark_attrs(Some(MarkType::Strike)),
        Segment::Code(_) => rich_text::mark_attrs(Some(MarkType::Code)),
        Segment::Link { href, .. } => rich_text::link_attrs(href),
        _ => Map::empty(),
    }
}

/// The characters of the segments. Where there are embeds, the placeholder
/// character is kept out of the text.
pub open spec fn segments_glyphs(v: Seq<Segment>, strip: bool) -> Seq<Glyph>
    decreases v.len(),
{
    if v.len() == 0 {
        seq![]
    } else {
        let t = segment_text(v.last());
        segments_glyphs(v.drop_last(), strip) + rich_text::glyphs(
            if strip {
                text::without_char(t, PLACEHOLDER)
            } else {
                t
            },
            segment_marks(v.last()),
        )
    }
}

/// The `itemEmbed` elements for the item references that resolve.
pub open spec fn item_embeds(v: Seq<Segment>, items: Map<int, Seq<char>>) -> Seq<XmlTree>
    decreases v.len(),
{
    if v.len() == 0 {
        seq![]
    } else {
        let rest = item_embeds(v.drop_last(), items);
        match v.last() {
            Segment::ItemRef(n) => if items.contains_key(n) {
                rest.push(rich_text::with_attr("itemEmbed"@, "itemId"@, items[n], seq![]))
            } else {
                rest
            },
            _ => rest,
        }
    }
}

/// An `image` element. It has an `alt` only where there is one.
pub open spec fn image_tree(src: Seq<char>, alt: Seq<char>) -> XmlTree {
    let attrs = Map::empty().insert("src"@, src);
    XmlTree::Element {
        tag: "image"@,
        attrs: if alt.len() > 0 {
            attrs.insert("alt"@, alt)
        } else {
            attrs
        },
        children: seq![],
    }
}

/// The `image` elements for the images.
pub open spec fn image_embeds(v: Seq<Segment>) -> Seq<XmlTree>
    decreases v.len(),
{
    if v.len() == 0 {
        seq![]
    } else {
        let rest = image_embeds(v.drop_last());
        match v.last() {
            Segment::Image { alt, src } => rest.push(image_tree(src, alt)),
            _ => rest,
        }
    }
}

/// The nodes for a line of text: a text node, then the embedded items, then the
/// images.
pub open spec fn inline_nodes(s: Seq<char>, items: Map<int, Seq<char>>) -> Seq<XmlTree> {
    let segs = segment::inline_segments(s);
    seq![XmlTree::Text(segments_glyphs(segs, has_embeds(segs)))] + item_embeds(segs, items)
        + image_embeds(segs)
}

/// Embedded items and images hold nothing.
pub(crate) proof fn lemma_embeds_levels(v: Seq<Segment>, items: Map<int, Seq<char>>)
    ensures
        yrs_xml_copy::all_within(item_embeds(v, items), 1),
        yrs_xml_copy::all_within(image_embeds(v), 1),
    decreases v.len(),
{
    if v.len() > 0 {
        let none: Seq<XmlTree> = seq![];
        assert(yrs_xml_copy::all_within(none, 0));
        lemma_embeds_levels(v.drop_last(), items);
        if let Segment::ItemRef(n) = v.last() {
            let e = rich_text::with_attr("itemEmbed"@, "itemId"@, items[n], none);
            assert(yrs_xml_copy::within(e, 1));
        }
        if let Segment::Image { alt, src } = v.last() {
            assert(yrs_xml_copy::within(image_tree(src, alt), 1));
        }
    }
}

/// An image to insert beside the text.
#[derive(Debug, PartialEq, Eq)]
pub struct ImageEmbed {
    pub src: String,
    pub alt: Option<String>,
}

/// Text with its marks, and the elements that stand beside it.
#[derive(Debug, PartialEq, Eq)]
pub struct FormattedTextContent {
    /// The text in runs of one mark each.
    pub runs: Vec<TextRun>,
    /// Short ids of the items to embed.
    pub item_embeds: Vec<i64>,
    /// Images to embed.
    pub image_embeds: Vec<ImageEmbed>,
}

/// The short ids of the item references, in order.
pub open spec fn ref_ids(v: Seq<Segment>) -> Seq<int>
    decreases v.len(),
{
    if v.len() == 0 {
        seq![]
    } else {
        match v.last() {
            Segment::ItemRef(n) => ref_ids(v.drop_last()).push(n),
            _ => ref_ids(v.drop_last()),
        }
    }
}

/// The source and the description of the images, in order.
pub open spec fn image_pairs(v: Seq<Segment>) -> Seq<(Seq<char>, Option<Seq<char>>)>
    decreases v.len(),
{
    if v.len() == 0 {
        seq![]
    } else {
        match v.last() {
            Segment::Image { alt, src } => image_pairs(v.drop_last()).push(
                (
                    src,
                    if alt.len() == 0 {
                        None
                    } else {
                        Some(alt)
                    },
                ),
            ),
            _ => image_pairs(v.drop_last()),
        }
    }
}

/// The pairs that a list of image embeds stands for.
pub open spec fn embed_pairs(v: Seq<ImageEmbed>) -> Seq<(Seq<char>, Option<Seq<char>>)> {
    v.map_values(|e: ImageEmbed| (e.src@, text::opt_text(e.alt)))
}

fn any_embed(v: &Vec<TextSegment>) -> (r: bool)
    ensures
        r == has_embeds(segment::segments_view(v@)),
{
    let ghost segs = segment::segments_view(v@);
    let mut i: usize = 0;
    while i < v.len()
        invariant
            i <= v.len(),
            segs == segment::segments_view(v@),
            forall|k: int| 0 <= k < i ==> !is_embed(#[trigger] segs[k]),
        decreases v.len() - i,
    {
        assert(segs[i as int] == v@[i as int]@);
        match &v[i] {
            TextSegment::Image { .. } => {
                assert(is_embed(segs[i as int]));
                return true;
            },
            TextSegment::ItemRef(_) => {
                assert(is_embed(segs[i as int]));
                return true;
            },
            _ => {},
        }
        i = i + 1;
    }
    false
}

/// Appends a run of text, unless it is empty.
fn push_run(runs: &mut Vec<TextRun>, s: &str, strip: bool, mark: Option<MarkType>)
    ensures
        rich_text::runs_glyphs(final(runs)@) == rich_text::runs_glyphs(old(runs)@)
            + rich_text::glyphs(
            if strip {
                text::without_char(s@, PLACEHOLDER)
            } else {
                s@
            },
            rich_text::mark_attrs(mark),
        ),
{
    let text = if strip {
        let chars = text::to_chars(s);
        text::remove_char(chars.as_slice(), PLACEHOLDER)
    } else {
        s.to_owned()
    };
    let ghost before = runs@;
    let ghost added = rich_text::glyphs(text@, rich_text::mark_attrs(mark));
    if !text.as_str().is_empty() {
        runs.push(TextRun { text, mark });
        assert(runs@.drop_last() =~= before);
    } else {
        assert(rich_text::runs_glyphs(before) + added =~= rich_text::runs_glyphs(before));
    }
}

/// Splits segments into the text with its marks and the embeds.
pub fn segments_to_formatted_content(segments: &Vec<TextSegment>) -> (r: FormattedTextContent)
    ensures
        ({
            let segs = segment::segments_view(segments@);
            &&& rich_text::runs_glyphs(r.runs@) == segments_glyphs(segs, has_embeds(segs))
            &&& r.item_embeds@.map_values(|n: i64| n as int) == ref_ids(segs)
            &&& embed_pairs(r.image_embeds@) == image_pairs(segs)
        }),
{
    let ghost segs = segment::segments_view(segments@);
    let strip = any_embed(segments);
    let mut runs: Vec<TextRun> = Vec::new();
    let mut item_embeds: Vec<i64> = Vec::new();
    let mut image_embeds: Vec<ImageEmbed> = Vec::new();
    let mut i: usize = 0;
    proof {
        assert(segs.take(0) =~= seq![]);
        assert(item_embeds@.map_values(|n: i64| n as int) =~= seq![]);
        assert(embed_pairs(image_embeds@) =~= seq![]);
    }
    while i < segments.len()
        invariant
            i <= segments.len(),
            segs == segment::segments_view(segments@),
            strip == has_embeds(segs),
            rich_text::runs_glyphs(runs@) == segments_glyphs(segs.take(i as int), strip),
            item_embeds@.map_values(|n: i64| n as int) == ref_ids(segs.take(i as int)),
            embed_pairs(image_embeds@) == image_pairs(segs.take(i as int)),
        decreases segments.len() - i,
    {
        let ghost glyphs_before = rich_text::runs_glyphs(runs@);
        let ghost ids_before = item_embeds@;
        let ghost images_before = image_embeds@;
        proof {
            assert(segs.take(i + 1).drop_last() =~= segs.take(i as int));
            assert(segs.take(i + 1).last() == segments@[i as int]@);
            assert(text::without_char(Seq::<char>::empty(), PLACEHOLDER) =~= seq![]);
            assert(glyphs_before + rich_text::glyphs(seq![], Map::empty()) =~= glyphs_before);
        }
        match &segments[i] {
            TextSegment::Plain(s) => {
                push_run(&mut runs, s.as_str(), strip, None);
            },
            TextSegment::Bold(s) => {
                push_run(&mut runs, s.as_str(), strip, Some(MarkType::Bold));
            },
            TextSegment::Italic(s) => {
                push_run(&mut runs, s.as_str(), strip, Some(MarkType::Italic));
            },
            TextSegment::Strike(s) => {
                push_run(&mut runs, s.as_str(), strip, Some(MarkType::Strike));
            },
            TextSegment::Code(s) => {
                push_run(&mut runs, s.as_str(), strip, Some(MarkType::Code));
            },
            TextSegment::Link { text, href } => {
                push_run(&mut runs, text.as_str(), strip, Some(MarkType::Link(href.clone())));
            },
            TextSegment::Image { alt, src } => {
                let alt_text = if alt.as_str().is_empty() {
                    None
                } else {
                    Some(alt.clone())
                };
                image_embeds.push(ImageEmbed { src: src.clone(), alt: alt_text });
                assert(embed_pairs(image_embeds@) =~= embed_pairs(images_before).push(
                    (src@, text::opt_text(alt_text)),
                ));
            },
            TextSegment::ItemRef(n) => {
                item_embeds.push(*n);
                assert(item_embeds@.map_values(|n: i64| n as int) =~= ids_before.map_values(
                    |n: i64| n as int,
                ).push(*n as int));
            },
        }
        i = i + 1;
    }
    assert(segs.take(segs.len() as int) =~= segs);
    FormattedTextContent { runs, item_embeds, image_embeds }
}

/// The `itemEmbed` elements for a list of short ids.
pub open spec fn embeds_of_ids(v: Seq<int>, items: Map<int, Seq<char>>) -> Seq<XmlTree>
    decreases v.len(),
{
    if v.len() == 0 {
        seq![]
    } else if items.contains_key(v.last()) {
        embeds_of_ids(v.drop_last(), items).push(
            rich_text::with_attr("itemEmbed"@, "itemId"@, items[v.last()], seq![]),
        )
    } else {
        embeds_of_ids(v.drop_last(), items)
    }
}

proof fn lemma_item_embeds(v: Seq<Segment>, items: Map<int, Seq<char>>)
    ensures
        item_embeds(v, items) == embeds_of_ids(ref_ids(v), items),
    decreases v.len(),
{
    if v.len() > 0 {
        lemma_item_embeds(v.drop_last(), items);
        if let Segment::ItemRef(n) = v.last() {
            assert(ref_ids(v).drop_last() =~= ref_ids(v.drop_last()));
        }
    }
}

/// The `image` elements for a list of images.
pub open spec fn images_of_pairs(v: Seq<(Seq<char>, Option<Seq<char>>)>) -> Seq<XmlTree>
    decreases v.len(),
{
    if v.len() == 0 {
        seq![]
    } else {
        let (src, alt) = v.last();
        images_of_pairs(v.drop_last()).push(
            image_tree(
                src,
                match alt {
                    Some(a) => a,
                    None => seq![],
                },
            ),
        )
    }
}

proof fn lemma_image_embeds(v: Seq<Segment>)
    ensures
        image_embeds(v) == images_of_pairs(image_pairs(v)),
    decreases v.len(),
{
    if v.len() > 0 {
        lemma_image_embeds(v.drop_last());
        if let Segment::Image { alt, src } = v.last() {
            assert(image_pairs(v).drop_last() =~= image_pairs(v.drop_last()));
            assert(alt.len() == 0 ==> alt =~= seq![]);
        }
    }
}

/// An `image` element.
pub fn image_node(src: String, alt: Option<String>) -> (r: XmlNode)
    requires
        alt is Some ==> alt->0@.len() > 0,
    ensures
        r@ == image_tree(
            src@,
            match alt {
                Some(a) => a@,
                None => seq![],
            },
        ),
{
    let mut attrs: Vec<(String, String)> = Vec::new();
    attrs.push(("src".to_owned(), src));
    let children: Vec<XmlNode> = Vec::new();
    let tag = "image".to_owned();
    proof {
        reveal_with_fuel(rich_text::pairs_map, 3);
        assert(attrs@.drop_last() =~= seq![]);
    }
    let ghost one = attrs@;
    match alt {
        Some(a) => {
            attrs.push(("alt".to_owned(), a));
            assert(attrs@.drop_last() =~= one);
        },
        None => {},
    }
    proof {
        rich_text::lemma_element_children(tag, attrs, children);
        assert(rich_text::nodes_tree(children@) =~= seq![]);
    }
    XmlNode::Element { tag, attrs, children }
}

/// The id of the item with the short id `n`.
fn resolve(resolver: Option<ItemResolver<'_>>, n: i64) -> (r: Option<String>)
    ensures
        text::opt_text(r) == (if resolver_view(resolver).contains_key(n as int) {
            Some(resolver_view(resolver)[n as int])
        } else {
            None
        }),
{
    broadcast use vstd::std_specs::hash::group_hash_axioms;

    match resolver {
        None => None,
        Some(m) => match m.get(&n) {
            Some(id) => Some(id.clone()),
            None => None,
        },
    }
}

/// The nodes for formatted text: the text node, then the embeds.
pub fn content_nodes(content: FormattedTextContent, resolver: Option<ItemResolver<'_>>) -> (r: Vec<
    XmlNode,
>)
    requires
        forall|i: int|
            0 <= i < content.image_embeds@.len() ==> ((
            #[trigger] content.image_embeds@[i]).alt is Some
                ==> content.image_embeds@[i].alt->0@.len() > 0),
    ensures
        rich_text::nodes_tree(r@) == seq![XmlTree::Text(rich_text::runs_glyphs(content.runs@))]
            + embeds_of_ids(
            content.item_embeds@.map_values(|n: i64| n as int),
            resolver_view(resolver),
        ) + images_of_pairs(embed_pairs(content.image_embeds@)),
{
    let ghost items = resolver_view(resolver);
    let ghost ids = content.item_embeds@.map_values(|n: i64| n as int);
    let ghost pairs = embed_pairs(content.image_embeds@);
    let ghost head = seq![XmlTree::Text(rich_text::runs_glyphs(content.runs@))];
    let FormattedTextContent { runs, item_embeds, image_embeds } = content;
    let mut out = rich_text::one_node(XmlNode::Text(runs));
    let mut i: usize = 0;
    proof {
        assert(ids.take(0) =~= seq![]);
        assert(head + seq![] =~= head);
    }
    while i < item_embeds.len()
        invariant
            i <= item_embeds.len(),
            items == resolver_view(resolver),
            ids == item_embeds@.map_values(|n: i64| n as int),
            rich_text::nodes_tree(out@) == head + embeds_of_ids(ids.take(i as int), items),
        decreases item_embeds.len() - i,
    {
        let ghost before = out@;
        proof {
            assert(ids.take(i + 1).drop_last() =~= ids.take(i as int));
            assert(ids.take(i + 1).last() == item_embeds@[i as int] as int);
        }
        match resolve(resolver, item_embeds[i]) {
            Some(id) => {
                let none: Vec<XmlNode> = Vec::new();
                assert(rich_text::nodes_tree(none@) =~= seq![]);
                let node = rich_text::element_with_attr("itemEmbed", "itemId", id, none);
                proof {
                    rich_text::lemma_nodes_push(before, node);
                }
                out.push(node);
                assert(rich_text::nodes_tree(out@) =~= head + embeds_of_ids(
                    ids.take(i + 1),
                    items,
                ));
            },
            None => {},
        }
        i = i + 1;
    }
    assert(ids.take(ids.len() as int) =~= ids);
    let ghost head2 = head + embeds_of_ids(ids, items);
    let mut j: usize = 0;
    proof {
        assert(pairs.take(0) =~= seq![]);
        assert(head2 + seq![] =~= head2);
    }
    while j < image_embeds.len()
        invariant
            j <= image_embeds.len(),
            pairs == embed_pairs(image_embeds@),
            forall|i: int|
                0 <= i < image_embeds@.len() ==> ((#[trigger] image_embeds@[i]).alt is Some
                    ==> image_embeds@[i].alt->0@.len() > 0),
            rich_text::nodes_tree(out@) == head2 + images_of_pairs(pairs.take(j as int)),
        decreases image_embeds.len() - j,
    {
        let ghost before = out@;
        proof {
            assert(pairs.take(j + 1).drop_last() =~= pairs.take(j as int));
            assert(pairs.take(j + 1).last() == (
                image_embeds@[j as int].src@,
                text::opt_text(image_embeds@[j as int].alt),
            ));
        }
        let node = image_node(image_embeds[j].src.clone(), image_embeds[j].alt.clone());
        proof {
            rich_text::lemma_nodes_push(before, node);
        }
        out.push(node);
        assert(rich_text::nodes_tree(out@) =~= head2 + images_of_pairs(pairs.take(j + 1)));
        j = j + 1;
    }
    assert(pairs.take(pairs.len() as int) =~= pairs);
    out
}

proof fn lemma_image_pairs_alt(v: Seq<Segment>)
    ensures
        forall|i: int|
            0 <= i < image_pairs(v).len() ==> ((#[trigger] image_pairs(v)[i]).1 is Some ==> (
            image_pairs(v)[i].1)->0.len() > 0),
    decreases v.len(),
{
    if v.len() > 0 {
        lemma_image_pairs_alt(v.drop_last());
    }
}

/// The nodes for a line of text.
pub(crate) fn line_nodes(s: &[char], resolver: Option<ItemResolver<'_>>) -> (r: Vec<XmlNode>)
    ensures
        rich_text::nodes_tree(r@) == inline_nodes(s@, resolver_view(resolver)),
{
    let segments = segment::inline_in(s);
    let content = segments_to_formatted_content(&segments);
    proof {
        let segs = segment::segments_view(segments@);
        lemma_item_embeds(segs, resolver_view(resolver));
        lemma_image_embeds(segs);
        lemma_image_pairs_alt(segs);
        assert forall|i: int|
            0 <= i < content.image_embeds@.len() && (
            #[trigger] content.image_embeds@[i]).alt is Some implies content.image_embeds@[i].alt->0@.len()
            > 0 by {
            assert(image_pairs(segs)[i] == embed_pairs(content.image_embeds@)[i]);
        }
    }
    content_nodes(content, resolver)
}

} // verus!
