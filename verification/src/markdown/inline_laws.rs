//! What holds of the marks within a line of Markdown, and of its tables.

use vstd::prelude::*;

use crate::markdown::block::{self, first_block};
use crate::markdown::content;
use crate::markdown::laws::{self, element, is_trim};
use crate::markdown::segment::{self, Segment, inline_segments};
use crate::markdown::table;
use crate::rich_text::{self, AnyTree, Glyph, XmlTree};
use crate::text;

verus! {

/// Where a text is first found.
proof fn lemma_found(s: Seq<char>, p: Seq<char>, k: int)
    requires
        text::occurs_at(s, p, k),
        forall|j: int| 0 <= j < k ==> !text::occurs_at(s, p, j),
    ensures
        text::find_of(s, p) == Some(k),
{
    text::lemma_find_from(s, p, 0);
    match text::find_of(s, p) {
        Some(i) => {
            if i < k {
                assert(!text::occurs_at(s, p, i));
            }
        },
        None => {},
    }
}

/// A mark that stands behind a text without its first character is found there.
proof fn lemma_closed(c: Seq<char>, mark: Seq<char>, post: Seq<char>)
    requires
        mark.len() > 0,
        !c.contains(mark[0]),
    ensures
        text::find_of(c + mark + post, mark) == Some(c.len() as int),
{
    let s = c + mark + post;
    let k = c.len() as int;
    assert(s.subrange(k, k + mark.len()) =~= mark);
    assert forall|j: int| 0 <= j < k implies !text::occurs_at(s, mark, j) by {
        if text::occurs_at(s, mark, j) {
            assert(s.subrange(j, j + mark.len())[0] == s[j]);
            assert(s[j] == c[j]);
            assert(c.contains(mark[0]));
        }
    }
    lemma_found(s, mark, k);
}

/// What stands between two marks.
proof fn lemma_delimited(c: Seq<char>, mark: Seq<char>, post: Seq<char>)
    requires
        mark.len() > 0,
        c.len() > 0,
        !c.contains(mark[0]),
    ensures
        segment::delimited(mark + c + mark + post, mark) == Some(c),
        (mark + c + mark + post).skip(c.len() + 2int * mark.len()) == post,
{
    let s = mark + c + mark + post;
    assert(s.subrange(0, mark.len() as int) =~= mark);
    assert(s.skip(mark.len() as int) =~= c + mark + post);
    lemma_closed(c, mark, post);
    assert((c + mark + post).take(c.len() as int) =~= c);
    assert(s.skip(c.len() + 2int * mark.len()) =~= post);
}

proof fn lemma_not_delimited(s: Seq<char>, mark: Seq<char>)
    requires
        mark.len() > 0,
        s.len() > 0,
        s[0] != mark[0],
    ensures
        segment::delimited(s, mark) is None,
{
    if mark.is_prefix_of(s) {
        assert(s.subrange(0, mark.len() as int)[0] == s[0]);
    }
}

/// Text between backticks is code, whatever follows.
pub proof fn lemma_code_segment(c: Seq<char>, post: Seq<char>)
    requires
        c.len() > 0,
        !c.contains('`'),
    ensures
        inline_segments("`"@ + c + "`"@ + post) == seq![Segment::Code(c)] + inline_segments(post),
{
    reveal_strlit("`");
    lemma_delimited(c, "`"@, post);
}

/// Text between double stars is bold, whatever follows.
pub proof fn lemma_bold_segment(c: Seq<char>, post: Seq<char>)
    requires
        c.len() > 0,
        !c.contains('*'),
    ensures
        inline_segments("**"@ + c + "**"@ + post) == seq![Segment::Bold(c)] + inline_segments(post),
{
    reveal_strlit("`");
    reveal_strlit("**");
    let s = "**"@ + c + "**"@ + post;
    assert(s[0] == '*');
    lemma_not_delimited(s, "`"@);
    lemma_delimited(c, "**"@, post);
}

/// Text between double tildes is struck through, whatever follows.
pub proof fn lemma_strike_segment(c: Seq<char>, post: Seq<char>)
    requires
        c.len() > 0,
        !c.contains('~'),
    ensures
        inline_segments("~~"@ + c + "~~"@ + post) == seq![Segment::Strike(c)] + inline_segments(
            post,
        ),
{
    reveal_strlit("`");
    reveal_strlit("**");
    reveal_strlit("~~");
    let s = "~~"@ + c + "~~"@ + post;
    assert(s[0] == '~');
    lemma_not_delimited(s, "`"@);
    lemma_not_delimited(s, "**"@);
    lemma_delimited(c, "~~"@, post);
}

/// Text between single stars is italic, where no further star follows.
pub proof fn lemma_italic_segment(c: Seq<char>, post: Seq<char>)
    requires
        c.len() > 0,
        !c.contains('*'),
        post.len() > 0 ==> post[0] != '*',
    ensures
        inline_segments("*"@ + c + "*"@ + post) == seq![Segment::Italic(c)] + inline_segments(post),
{
    reveal_strlit("`");
    reveal_strlit("**");
    reveal_strlit("~~");
    reveal_strlit("*");
    let s = "*"@ + c + "*"@ + post;
    assert(s[0] == '*');
    assert(s[1] == c[0]);
    assert(c.contains(c[0]));
    lemma_not_delimited(s, "`"@);
    lemma_not_delimited(s, "~~"@);
    if "**"@.is_prefix_of(s) {
        assert(s.subrange(0, 2)[1] == s[1]);
    }
    let rest = s.skip(1);
    let k = c.len() as int;
    assert(rest =~= c + "*"@ + post);
    assert forall|j: int| 0 <= j < k implies #[trigger] rest[j] != '*' by {
        assert(rest[j] == c[j]);
    }
    text::lemma_find_char_at(rest, '*', k);
    assert(rest.take(k) =~= c);
    let tail = rest.skip(k);
    if "**"@.is_prefix_of(tail) {
        assert(tail.subrange(0, 2)[1] == tail[1]);
        assert(tail[1] == post[0]);
    }
    assert(s.skip(k + 2) =~= post);
}

/// What `[label](url)` holds.
proof fn lemma_link_like(label: Seq<char>, url: Seq<char>, post: Seq<char>)
    requires
        !label.contains(']'),
        !url.contains(')'),
        url.len() > 0,
    ensures
        segment::link_like("["@ + label + "]("@ + url + ")"@ + post) == Some((label, url)),
        ("["@ + label + "]("@ + url + ")"@ + post).skip(label.len() + url.len() + 4int) == post,
{
    reveal_strlit("[");
    reveal_strlit("](");
    reveal_strlit(")");
    let s = "["@ + label + "]("@ + url + ")"@ + post;
    let k = label.len() as int;
    assert(s[0] == '[');
    let rest = s.skip(1);
    assert(rest =~= label + "]("@ + url + ")"@ + post);
    assert(rest[k] == ']');
    assert forall|j: int| 0 <= j < k implies #[trigger] rest[j] != ']' by {
        assert(rest[j] == label[j]);
    }
    text::lemma_find_char_at(rest, ']', k);
    let after = rest.skip(k + 1);
    assert(after[0] == '(');
    let on = after.skip(1);
    assert(on =~= url + ")"@ + post);
    let n = url.len() as int;
    assert(on[n] == ')');
    assert forall|j: int| 0 <= j < n implies #[trigger] on[j] != ')' by {
        assert(on[j] == url[j]);
    }
    text::lemma_find_char_at(on, ')', n);
    assert(rest.take(k) =~= label);
    assert(on.take(n) =~= url);
    assert(s.skip(k + n + 4) =~= post);
}

/// `![alt](src)` is an image with that source and that description.
pub proof fn lemma_image_segment(alt: Seq<char>, src: Seq<char>, post: Seq<char>)
    requires
        !alt.contains(']'),
        !src.contains(')'),
        src.len() > 0,
    ensures
        inline_segments("!["@ + alt + "]("@ + src + ")"@ + post) == seq![
            Segment::Image { alt, src },
        ] + inline_segments(post),
{
    reveal_strlit("`");
    reveal_strlit("**");
    reveal_strlit("~~");
    reveal_strlit("[");
    reveal_strlit("![");
    reveal_strlit("](");
    reveal_strlit(")");
    let s = "!["@ + alt + "]("@ + src + ")"@ + post;
    assert(s[0] == '!');
    lemma_not_delimited(s, "`"@);
    lemma_not_delimited(s, "**"@);
    lemma_not_delimited(s, "~~"@);
    assert(s.subrange(0, 2) =~= "!["@);
    let inner = "["@ + alt + "]("@ + src + ")"@ + post;
    assert(s.skip(1) =~= inner);
    lemma_link_like(alt, src, post);
    let n = alt.len() + src.len() + 4int;
    assert(s.skip(n + 1) =~= inner.skip(n));
}

/// `[label](href)` is a link to that address over that text, whatever follows. A text that
/// begins with a bracket may open a reference.
pub proof fn lemma_link_segment(label: Seq<char>, href: Seq<char>, post: Seq<char>)
    requires
        label.len() > 0,
        label[0] != '[',
        !label.contains(']'),
        !href.contains(')'),
        href.len() > 0,
    ensures
        inline_segments("["@ + label + "]("@ + href + ")"@ + post) == seq![
            Segment::Link { text: label, href },
        ] + inline_segments(post),
{
    reveal_strlit("`");
    reveal_strlit("**");
    reveal_strlit("~~");
    reveal_strlit("![");
    reveal_strlit("[");
    reveal_strlit("[[");
    reveal_strlit("](");
    reveal_strlit(")");
    let s = "["@ + label + "]("@ + href + ")"@ + post;
    assert(s[0] == '[');
    assert(s[1] == label[0]);
    lemma_not_delimited(s, "`"@);
    lemma_not_delimited(s, "**"@);
    lemma_not_delimited(s, "~~"@);
    if "!["@.is_prefix_of(s) {
        assert(s.subrange(0, 2)[0] == s[0]);
    }
    if "[["@.is_prefix_of(s) {
        assert(s.subrange(0, 2)[1] == s[1]);
    }
    lemma_link_like(label, href, post);
}

/// `[[n]]` and `[[PREFIX-n]]` refer to the item with the short id `n`.
pub proof fn lemma_item_segment(prefix: Seq<char>, n: nat, post: Seq<char>)
    requires
        0 < n <= i64::MAX,
        prefix.len() > 0,
        !text::is_white(prefix[0]),
        !text::is_digit(prefix[0]),
        prefix[0] != '-' && prefix[0] != '+',
        !prefix.contains(']'),
    ensures
        inline_segments("[["@ + text::decimal(n) + "]]"@ + post) == seq![
            Segment::ItemRef(n as int),
        ] + inline_segments(post),
        inline_segments("[["@ + (prefix + "-"@ + text::decimal(n)) + "]]"@ + post) == seq![
            Segment::ItemRef(n as int),
        ] + inline_segments(post),
{
    reveal_strlit("-");
    let d = text::decimal(n);
    text::lemma_decimal(n);
    text::lemma_numbered(prefix, n);
    assert forall|i: int| 0 <= i < d.len() implies d[i] != ']' && !text::is_white(
        #[trigger] d[i],
    ) by {
        assert(text::is_digit(d[i]));
    }
    assert(text::trim_of(d) =~= d);
    lemma_bracketed(d, n as int, post);
    let t = prefix + "-"@ + d;
    assert(t[0] == prefix[0]);
    assert(t.last() == d.last());
    assert(text::trim_of(t) =~= t);
    assert(!text::all_digits(t));
    assert(segment::positive(t) is None);
    assert(!t.contains(']')) by {
        if t.contains(']') {
            let i = choose|i: int| 0 <= i < t.len() && t[i] == ']';
            if i < prefix.len() {
                assert(prefix[i] == ']');
            } else if i > prefix.len() {
                assert(d[i - prefix.len() - 1] == ']');
            }
        }
    }
    lemma_bracketed(t, n as int, post);
}

proof fn lemma_bracketed(t: Seq<char>, n: int, post: Seq<char>)
    requires
        !t.contains(']'),
        segment::item_reference(t) == Some(n),
    ensures
        inline_segments("[["@ + t + "]]"@ + post) == seq![Segment::ItemRef(n)] + inline_segments(
            post,
        ),
{
    reveal_strlit("`");
    reveal_strlit("**");
    reveal_strlit("~~");
    reveal_strlit("![");
    reveal_strlit("[[");
    reveal_strlit("]]");
    let s = "[["@ + t + "]]"@ + post;
    assert(s[0] == '[');
    lemma_not_delimited(s, "`"@);
    lemma_not_delimited(s, "**"@);
    lemma_not_delimited(s, "~~"@);
    if "!["@.is_prefix_of(s) {
        assert(s.subrange(0, 2)[0] == s[0]);
    }
    assert(s.subrange(0, 2) =~= "[["@);
    let rest = s.skip(2);
    assert(rest =~= t + "]]"@ + post);
    lemma_closed(t, "]]"@, post);
    assert(rest.take(t.len() as int) =~= t);
    assert(s.skip(t.len() + 4int) =~= post);
}

/// Whether `c` may open a mark, a link, an image or a reference.
pub open spec fn is_marker(c: char) -> bool {
    c == '*' || c == '~' || c == '`' || c == '[' || c == '!'
}

/// Text without markers stays plain text, up to the next marker or to the end.
pub proof fn lemma_plain_segment(s: Seq<char>, post: Seq<char>)
    requires
        s.len() > 0,
        forall|i: int| 0 <= i < s.len() ==> !is_marker(#[trigger] s[i]),
        post.len() > 0 ==> is_marker(post[0]),
    ensures
        inline_segments(s + post) == seq![Segment::Plain(s)] + inline_segments(post),
{
    reveal_strlit("`");
    reveal_strlit("**");
    reveal_strlit("~~");
    reveal_strlit("![");
    reveal_strlit("[[");
    reveal_strlit("*~`[!");
    let t = s + post;
    let set = "*~`[!"@;
    assert(t[0] == s[0]);
    assert(!is_marker(s[0]));
    lemma_not_delimited(t, "`"@);
    lemma_not_delimited(t, "**"@);
    lemma_not_delimited(t, "~~"@);
    if "!["@.is_prefix_of(t) {
        assert(t.subrange(0, 2)[0] == t[0]);
    }
    if "[["@.is_prefix_of(t) {
        assert(t.subrange(0, 2)[0] == t[0]);
    }
    assert forall|c: char| #[trigger] set.contains(c) <==> is_marker(c) by {
        assert(set[0] == '*' && set[1] == '~' && set[2] == '`' && set[3] == '[' && set[4] == '!');
    }
    text::lemma_find_any_from(t, set, 0);
    let k = s.len() as int;
    assert forall|i: int| 0 <= i < k implies !set.contains(#[trigger] t[i]) by {
        assert(t[i] == s[i]);
    }
    if post.len() > 0 {
        assert(t[k] == post[0]);
        assert(set.contains(t[k]));
    }
    assert(t.take(k) =~= s);
    assert(t.skip(k) =~= post);
}

/// Text under each kind of segment carries the mark of that kind and no other; a link
/// carries its address.
pub proof fn lemma_segment_marked(t: Seq<char>, href: Seq<char>)
    ensures
        ({
            let bold = Map::empty().insert("bold"@, AnyTree::Bool(true));
            let italic = Map::empty().insert("italic"@, AnyTree::Bool(true));
            let strike = Map::empty().insert("strike"@, AnyTree::Bool(true));
            let code = Map::empty().insert("code"@, AnyTree::Bool(true));
            let link = Map::empty().insert(
                "link"@,
                AnyTree::Dict(Map::empty().insert("href"@, AnyTree::Str(href))),
            );
            let none: Map<Seq<char>, AnyTree> = Map::empty();
            &&& marked(line_text(seq![Segment::Bold(t)]), t, bold)
            &&& marked(line_text(seq![Segment::Italic(t)]), t, italic)
            &&& marked(line_text(seq![Segment::Strike(t)]), t, strike)
            &&& marked(line_text(seq![Segment::Code(t)]), t, code)
            &&& marked(line_text(seq![Segment::Link { text: t, href }]), t, link)
            &&& marked(line_text(seq![Segment::Plain(t)]), t, none)
        }),
{
    lemma_one(Segment::Bold(t));
    lemma_one(Segment::Italic(t));
    lemma_one(Segment::Strike(t));
    lemma_one(Segment::Code(t));
    lemma_one(Segment::Link { text: t, href });
    lemma_one(Segment::Plain(t));
}

proof fn lemma_one(s: Segment)
    requires
        !content::is_embed(s),
    ensures
        marked(line_text(seq![s]), content::segment_text(s), content::segment_marks(s)),
{
    let v = seq![s];
    assert(v.last() == s);
    assert(v.drop_last() =~= seq![]);
    let none = content::segments_glyphs(v.drop_last(), false);
    assert(none =~= seq![]);
    let t = content::segment_text(s);
    let m = content::segment_marks(s);
    assert(none + rich_text::glyphs(t, m) =~= rich_text::glyphs(t, m));
}

/// Whether characters are those of a text, all under the same marks.
pub open spec fn marked(g: Seq<Glyph>, t: Seq<char>, marks: Map<Seq<char>, AnyTree>) -> bool {
    &&& g.len() == t.len()
    &&& forall|i: int| 0 <= i < g.len() ==> (#[trigger] g[i]).ch == t[i] && g[i].marks == marks
}

/// The characters of segments among which there is no image and no reference.
pub open spec fn line_text(v: Seq<Segment>) -> Seq<Glyph> {
    content::segments_glyphs(v, false)
}

/// The characters of one list of segments and then another are those of the first and then
/// of the other.
pub proof fn lemma_text_in_order(a: Seq<Segment>, b: Seq<Segment>, strip: bool)
    ensures
        content::segments_glyphs(a + b, strip) == content::segments_glyphs(a, strip)
            + content::segments_glyphs(b, strip),
    decreases b.len(),
{
    if b.len() == 0 {
        assert(a + b =~= a);
        assert(content::segments_glyphs(a, strip) + seq![] =~= content::segments_glyphs(a, strip));
    } else {
        lemma_text_in_order(a, b.drop_last(), strip);
        assert((a + b).drop_last() =~= a + b.drop_last());
        assert((a + b).last() == b.last());
        assert(content::segments_glyphs(a + b, strip) =~= content::segments_glyphs(a, strip)
            + content::segments_glyphs(b, strip));
    }
}

/// A line without images and references is one text node with the characters of its
/// segments. A line with them has their elements behind the text: first the items that are
/// known, by their ids, then the images, each kind in order.
pub proof fn lemma_line_kept(s: Seq<char>, items: Map<int, Seq<char>>)
    ensures
        ({
            let v = inline_segments(s);
            let n = content::inline_nodes(s, items);
            let refs = v.filter(
                |g: Segment| g is ItemRef && items.contains_key(g->ItemRef_0),
            );
            let images = v.filter(|g: Segment| g is Image);
            &&& n.len() == 1 + refs.len() + images.len()
            &&& n[0] is Text
            &&& (forall|i: int| 0 <= i < v.len() ==> !(#[trigger] v[i] is Image) && !(
            v[i] is ItemRef)) ==> n[0] == XmlTree::Text(line_text(v))
            &&& forall|i: int|
                0 <= i < refs.len() ==> #[trigger] n[1 + i] == (XmlTree::Element {
                    tag: "itemEmbed"@,
                    attrs: Map::empty().insert("itemId"@, items[refs[i]->ItemRef_0]),
                    children: seq![],
                })
            &&& forall|i: int|
                0 <= i < images.len() ==> is_image(
                    #[trigger] n[1 + refs.len() + i],
                    images[i]->src,
                    images[i]->alt,
                )
        }),
{
    let v = inline_segments(s);
    lemma_refs(v, items);
    lemma_images(v);
    if forall|i: int| 0 <= i < v.len() ==> !(#[trigger] v[i] is Image) && !(v[i] is ItemRef) {
        assert(!content::has_embeds(v));
    }
}

/// An image element with its source, and with its description where there is one.
pub open spec fn is_image(n: XmlTree, src: Seq<char>, alt: Seq<char>) -> bool {
    match n {
        XmlTree::Element { tag, attrs, children } => {
            &&& tag == "image"@
            &&& children.len() == 0
            &&& attrs.contains_key("src"@) && attrs["src"@] == src
            &&& attrs.contains_key("alt"@) <==> alt.len() > 0
            &&& alt.len() > 0 ==> attrs["alt"@] == alt
        },
        _ => false,
    }
}

proof fn lemma_refs(v: Seq<Segment>, items: Map<int, Seq<char>>)
    ensures
        ({
            let p = |g: Segment| g is ItemRef && items.contains_key(g->ItemRef_0);
            let refs = v.filter(p);
            let out = content::item_embeds(v, items);
            &&& out.len() == refs.len()
            &&& forall|i: int|
                0 <= i < refs.len() ==> #[trigger] out[i] == (XmlTree::Element {
                    tag: "itemEmbed"@,
                    attrs: Map::empty().insert("itemId"@, items[refs[i]->ItemRef_0]),
                    children: seq![],
                })
        }),
    decreases v.len(),
{
    reveal(Seq::filter);
    if v.len() > 0 {
        lemma_refs(v.drop_last(), items);
    }
}

proof fn lemma_images(v: Seq<Segment>)
    ensures
        ({
            let images = v.filter(|g: Segment| g is Image);
            let out = content::image_embeds(v);
            &&& out.len() == images.len()
            &&& forall|i: int|
                0 <= i < images.len() ==> is_image(
                    #[trigger] out[i],
                    images[i]->src,
                    images[i]->alt,
                )
        }),
    decreases v.len(),
{
    reveal(Seq::filter);
    reveal_strlit("src");
    reveal_strlit("alt");
    assert("src"@[0] == 's' && "alt"@[0] == 'a');
    if v.len() > 0 {
        lemma_images(v.drop_last());
    }
}

// ---------------------------------------------------------------------------
// Tables
// ---------------------------------------------------------------------------

/// The text of a cell as it stands in a row: with a backslash before every pipe.
pub open spec fn escaped(s: Seq<char>) -> Seq<char>
    decreases s.len(),
{
    if s.len() == 0 {
        seq![]
    } else if s[0] == '|' {
        seq!['\\', '|'] + escaped(s.skip(1))
    } else {
        seq![s[0]] + escaped(s.skip(1))
    }
}

/// The cells of a row with a space around each and a pipe between them.
pub open spec fn row_text(cells: Seq<Seq<char>>) -> Seq<char>
    decreases cells.len(),
{
    if cells.len() == 0 {
        seq![]
    } else if cells.len() == 1 {
        seq![' '] + escaped(cells[0])
    } else {
        seq![' '] + escaped(cells[0]) + seq![' ', '|'] + row_text(cells.skip(1))
    }
}

/// A row with its cells between pipes.
pub open spec fn row_line(cells: Seq<Seq<char>>) -> Seq<char> {
    seq!['|'] + row_text(cells) + seq![' ', '|']
}

/// Whether a text can be that of a cell: it has no white space at its ends.
pub open spec fn is_cell(s: Seq<char>) -> bool {
    s.len() == 0 || is_trim(s)
}

proof fn lemma_escaped(s: Seq<char>)
    ensures
        s.len() > 0 ==> escaped(s).len() > 0 && escaped(s)[0] != '|',
        s.len() == 0 ==> escaped(s).len() == 0,
{
}

/// What stands escaped in a row is read as it was.
proof fn lemma_cell_read(c: Seq<char>, rest: Seq<char>, current: Seq<char>)
    requires
        rest.len() > 0 ==> rest[0] != '|',
    ensures
        table::cells_from(escaped(c) + rest, current) == table::cells_from(rest, current + c),
    decreases c.len(),
{
    let s = escaped(c) + rest;
    if c.len() == 0 {
        assert(s =~= rest);
        assert(current + c =~= current);
    } else {
        let d = c.skip(1);
        let next = escaped(d) + rest;
        lemma_escaped(d);
        lemma_cell_read(d, rest, current.push(c[0]));
        assert(current.push(c[0]) + d =~= current + c);
        if c[0] == '|' {
            assert(s[0] == '\\' && s[1] == '|');
            assert(s.skip(2) =~= next);
        } else {
            assert(s[0] == c[0]);
            assert(s.skip(1) =~= next);
            if s.len() > 1 {
                assert(s[1] == next[0]);
                if d.len() > 0 {
                    assert(next[0] == escaped(d)[0]);
                } else {
                    assert(next[0] == rest[0]);
                }
            }
        }
    }
}

proof fn lemma_spaced(c: Seq<char>)
    requires
        is_cell(c),
    ensures
        text::trim_of(seq![' '] + c + seq![' ']) == c,
        text::trim_of(seq![' '] + c) == c,
{
    let a = seq![' '] + c;
    let b = seq![' '] + c + seq![' '];
    assert(a.skip(1) =~= c);
    assert(text::trim_start_of(a) == text::trim_start_of(c));
    assert(b.skip(1) =~= c + seq![' ']);
    if c.len() == 0 {
        let one = c + seq![' '];
        assert(one.skip(1) =~= c);
        assert(text::trim_start_of(one) == text::trim_start_of(c));
        assert(text::trim_of(c) =~= c);
    } else {
        let d = c + seq![' '];
        assert(d[0] == c[0]);
        assert(text::trim_start_of(d) == d);
        assert(d.drop_last() =~= c);
        assert(text::trim_end_of(d) == text::trim_end_of(c));
    }
}

proof fn lemma_row_read(cells: Seq<Seq<char>>)
    requires
        cells.len() > 0,
        forall|i: int| 0 <= i < cells.len() ==> is_cell(#[trigger] cells[i]),
    ensures
        table::cells_from(row_text(cells), seq![]) == cells,
    decreases cells.len(),
{
    let c = cells[0];
    let s = row_text(cells);
    let none: Seq<char> = seq![];
    let blank = none.push(' ');
    assert(blank =~= seq![' ']);
    lemma_spaced(c);
    if cells.len() == 1 {
        assert(s.skip(1) =~= escaped(c) + none);
        lemma_cell_read(c, none, blank);
        assert(s[0] == ' ');
        assert(table::cells_from(s, none) =~= cells);
    } else {
        let rest = row_text(cells.skip(1));
        let tail = seq![' ', '|'] + rest;
        assert(s.skip(1) =~= escaped(c) + tail);
        assert(s[0] == ' ');
        lemma_cell_read(c, tail, blank);
        assert(tail[0] == ' ');
        let pipe = tail.skip(1);
        assert(pipe =~= seq!['|'] + rest);
        assert(pipe.skip(1) =~= rest);
        let held = blank + c;
        assert(held.push(' ') =~= seq![' '] + c + seq![' ']);
        assert(table::cells_from(tail, held) == table::cells_from(pipe, held.push(' ')));
        assert forall|i: int| 0 <= i < cells.skip(1).len() implies is_cell(
            #[trigger] cells.skip(1)[i],
        ) by {
            assert(cells.skip(1)[i] == cells[i + 1]);
        }
        lemma_row_read(cells.skip(1));
        assert(table::cells_from(s, none) =~= cells);
    }
}

proof fn lemma_white_behind(cur: Seq<char>, w: char)
    requires
        text::is_white(w),
    ensures
        text::trim_of(cur.push(w)) == text::trim_of(cur),
    decreases cur.len(),
{
    let s = cur.push(w);
    if cur.len() == 0 {
        assert(s.skip(1) =~= cur);
    } else if text::is_white(cur[0]) {
        assert(s[0] == cur[0]);
        assert(s.skip(1) =~= cur.skip(1).push(w));
        lemma_white_behind(cur.skip(1), w);
    } else {
        assert(s[0] == cur[0]);
        assert(s.drop_last() =~= cur);
    }
}

proof fn lemma_white_cells(y: Seq<char>, w: char, cur: Seq<char>)
    requires
        text::is_white(w),
    ensures
        table::cells_from(y.push(w), cur) == table::cells_from(y, cur),
    decreases y.len(),
{
    let s = y.push(w);
    assert(w != '|' && w != '\\');
    if y.len() == 0 {
        assert(s.skip(1) =~= y);
        lemma_white_behind(cur, w);
        assert(table::cells_from(y, cur.push(w)) == seq![text::trim_of(cur.push(w))]);
    } else if y[0] == '\\' && y.len() > 1 && y[1] == '|' {
        assert(s.skip(2) =~= y.skip(2).push(w));
        lemma_white_cells(y.skip(2), w, cur.push('|'));
    } else {
        assert(s.skip(1) =~= y.skip(1).push(w));
        assert(s[0] == y[0]);
        assert(y.len() > 1 ==> s[1] == y[1]);
        assert(y.len() == 1 ==> s[1] == w);
        if y[0] == '|' {
            lemma_white_cells(y.skip(1), w, seq![]);
        } else {
            lemma_white_cells(y.skip(1), w, cur.push(y[0]));
        }
    }
}

proof fn lemma_trimmed_cells(s: Seq<char>)
    ensures
        table::cells_from(text::trim_end_of(s), seq![]) == table::cells_from(s, seq![]),
    decreases s.len(),
{
    if s.len() > 0 && text::is_white(s.last()) {
        lemma_trimmed_cells(s.drop_last());
        lemma_white_cells(s.drop_last(), s.last(), seq![]);
        assert(s.drop_last().push(s.last()) =~= s);
    }
}

/// The cells of a row are read as they were written: a row is a list of cells between
/// pipes, and a pipe within a cell has a backslash before it.
pub proof fn lemma_cells_kept(cells: Seq<Seq<char>>)
    requires
        cells.len() > 0,
        forall|i: int| 0 <= i < cells.len() ==> is_cell(#[trigger] cells[i]),
    ensures
        table::row_cells(row_line(cells)) == cells,
{
    reveal_strlit("\\|");
    let line = row_line(cells);
    assert(line[0] == '|' && line.last() == '|');
    assert(text::trim_of(line) =~= line);
    let s = line.skip(1);
    assert(s =~= row_text(cells) + seq![' ', '|']);
    let n = s.len() as int;
    if "\\|"@.is_suffix_of(s) {
        assert(s.subrange(n - 2, n)[0] == s[n - 2]);
        assert(s[n - 2] == ' ');
    }
    let body = row_text(cells);
    assert(s.drop_last() =~= body.push(' '));
    lemma_trimmed_cells(body.push(' '));
    lemma_white_cells(body, ' ', seq![]);
    lemma_row_read(cells);
}

/// A paragraph with the nodes of a text, or an empty one.
pub open spec fn cell_paragraph(s: Seq<char>, items: Map<int, Seq<char>>) -> XmlTree {
    if s.len() > 0 {
        element("paragraph"@, content::inline_nodes(s, items))
    } else {
        element("paragraph"@, seq![])
    }
}

/// Whether a node is a row of cells with the given tag and the texts `cells`, as many as
/// there are columns: surplus cells are left out, and missing ones are empty.
pub open spec fn is_row(
    n: XmlTree,
    tag: Seq<char>,
    cells: Seq<Seq<char>>,
    cols: int,
    items: Map<int, Seq<char>>,
) -> bool {
    match n {
        XmlTree::Element { tag: t, attrs, children } => {
            &&& t == "tableRow"@
            &&& attrs == Map::<Seq<char>, Seq<char>>::empty()
            &&& children.len() == cols
            &&& forall|j: int|
                0 <= j < cols ==> #[trigger] children[j] == element(
                    tag,
                    seq![cell_paragraph(if j < cells.len() { cells[j] } else { seq![] }, items)],
                )
        },
        _ => false,
    }
}

/// The line of dashes that stands below the head of a table.
pub open spec fn dashes(cols: nat) -> Seq<Seq<char>> {
    Seq::new(cols, |i: int| seq!['-', '-', '-'])
}

proof fn lemma_dash_text(cols: nat)
    requires
        cols > 0,
    ensures
        forall|i: int|
            0 <= i < row_text(dashes(cols)).len() ==> table::is_separator_char(
                #[trigger] row_text(dashes(cols))[i],
            ),
        row_text(dashes(cols)).len() > 1,
        row_text(dashes(cols))[1] == '-',
    decreases cols,
{
    let v = dashes(cols);
    let c = seq!['-', '-', '-'];
    assert(v[0] == c);
    reveal_with_fuel(escaped, 4);
    assert(c.skip(1) =~= seq!['-', '-']);
    assert(c.skip(1).skip(1) =~= seq!['-']);
    assert(c.skip(1).skip(1).skip(1) =~= seq![]);
    assert(escaped(c) =~= c);
    if cols > 1 {
        lemma_dash_text((cols - 1) as nat);
        assert(v.skip(1) =~= dashes((cols - 1) as nat));
    }
}

proof fn lemma_separator(cols: nat)
    requires
        cols > 0,
    ensures
        table::separator_columns(row_line(dashes(cols))) == Some(cols as int),
{
    let v = dashes(cols);
    let line = row_line(v);
    lemma_dash_text(cols);
    assert forall|i: int| 0 <= i < v.len() implies is_cell(#[trigger] v[i]) && v[i].contains(
        '-',
    ) by {
        assert(v[i][0] == '-');
    }
    lemma_cells_kept(v);
    assert(line[0] == '|' && line.last() == '|');
    assert(text::trim_of(line) =~= line);
    assert(line[2] == row_text(v)[1]);
    assert(line.contains('|') && line.contains('-'));
    assert forall|i: int| 0 <= i < line.len() implies table::is_separator_char(
        #[trigger] line[i],
    ) by {
        if 0 < i <= row_text(v).len() {
            assert(line[i] == row_text(v)[i - 1]);
        }
    }
}

/// A head, a line of dashes and rows are a table: a row of header cells and then a row of
/// cells for each row, in order, every cell with its text.
pub proof fn lemma_table_kept(
    lines: Seq<Seq<char>>,
    head: Seq<Seq<char>>,
    data: Seq<Seq<Seq<char>>>,
    items: Map<int, Seq<char>>,
)
    requires
        head.len() > 0,
        forall|i: int| 0 <= i < head.len() ==> is_cell(#[trigger] head[i]),
        forall|r: int| 0 <= r < data.len() ==> (#[trigger] data[r]).len() > 0,
        forall|r: int, i: int|
            0 <= r < data.len() && 0 <= i < data[r].len() ==> is_cell(#[trigger] data[r][i]),
        lines.len() >= data.len() + 2,
        lines[0] == row_line(head),
        lines[1] == row_line(dashes(head.len())),
        forall|r: int| 0 <= r < data.len() ==> #[trigger] lines[r + 2] == row_line(data[r]),
        lines.len() > data.len() + 2 ==> !text::trim_of(lines[data.len() + 2int]).contains('|'),
    ensures
        ({
            let (t, n) = first_block(lines, items);
            &&& n == data.len() + 2
            &&& t is Element
            &&& t->tag == "table"@
            &&& t->children.len() == data.len() + 1
            &&& is_row(t->children[0], "tableHeader"@, head, head.len() as int, items)
            &&& forall|r: int|
                0 <= r < data.len() ==> is_row(
                    #[trigger] t->children[r + 1],
                    "tableCell"@,
                    data[r],
                    head.len() as int,
                    items,
                )
        }),
{
    let line = lines[0];
    assert(line[0] == '|' && line.last() == '|');
    assert(text::trim_of(line) =~= line);
    laws::lemma_first_char(line);
    assert(line.contains('|'));
    lemma_cells_kept(head);
    lemma_separator(head.len());
    let body = lines.skip(2);
    let k = data.len() as int;
    let p = |l: Seq<char>| block::is_row(l);
    assert forall|r: int| 0 <= r < k implies p(#[trigger] body[r]) by {
        assert(body[r] == lines[r + 2]);
        let l = body[r];
        assert(l[0] == '|' && l.last() == '|');
        assert(text::trim_of(l) =~= l);
        assert(l.contains('|'));
    }
    if k < body.len() {
        assert(body[k] == lines[k + 2]);
    }
    laws::lemma_while(body, p, k);
    assert(block::rows_len(body) == k);
    let cols = head.len() as int;
    let (t, n) = first_block(lines, items);
    assert(t->children[0] == block::row_node(table::row_cells(line), cols, true, items));
    assert forall|r: int| 0 <= r < k implies is_row(
        #[trigger] t->children[r + 1],
        "tableCell"@,
        data[r],
        cols,
        items,
    ) by {
        assert(body.take(k)[r] == lines[r + 2]);
        assert forall|i: int| 0 <= i < data[r].len() implies is_cell(#[trigger] data[r][i]) by {}
        lemma_cells_kept(data[r]);
        assert(t->children[r + 1] == block::row_node(
            table::row_cells(body.take(k)[r]),
            cols,
            false,
            items,
        ));
    }
}

} // verus!
