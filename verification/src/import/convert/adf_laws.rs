//! What holds of the Markdown of ADF nodes.

use vstd::prelude::*;

use crate::import::convert::adf::{
    self, attr, children, container_blocks, has_children, has_mark, inline_node, inline_nodes,
    item_text, kind, list_items, markdown_of, node_blocks, plain_text, quoted, with_block,
    with_blocks,
};
use crate::json::{self, Json};
use crate::text;

verus! {

/// The types of blocks are different.
proof fn lemma_kinds()
    ensures
        "heading"@ != "paragraph"@,
        "heading"@ != "mediaSingle"@,
        "heading"@ != "mediaGroup"@,
        "heading"@ != "bulletList"@,
        "heading"@ != "orderedList"@,
        "heading"@ != "codeBlock"@,
        "heading"@ != "panel"@,
        "heading"@ != "blockquote"@,
        "heading"@ != "table"@,
        "heading"@ != "rule"@,
        "paragraph"@ != "mediaSingle"@,
        "paragraph"@ != "mediaGroup"@,
        "paragraph"@ != "bulletList"@,
        "paragraph"@ != "orderedList"@,
        "paragraph"@ != "codeBlock"@,
        "paragraph"@ != "panel"@,
        "paragraph"@ != "blockquote"@,
        "paragraph"@ != "table"@,
        "paragraph"@ != "rule"@,
        "mediaSingle"@ != "mediaGroup"@,
        "mediaSingle"@ != "bulletList"@,
        "mediaSingle"@ != "orderedList"@,
        "mediaSingle"@ != "codeBlock"@,
        "mediaSingle"@ != "panel"@,
        "mediaSingle"@ != "blockquote"@,
        "mediaSingle"@ != "table"@,
        "mediaSingle"@ != "rule"@,
        "mediaGroup"@ != "bulletList"@,
        "mediaGroup"@ != "orderedList"@,
        "mediaGroup"@ != "codeBlock"@,
        "mediaGroup"@ != "panel"@,
        "mediaGroup"@ != "blockquote"@,
        "mediaGroup"@ != "table"@,
        "mediaGroup"@ != "rule"@,
        "bulletList"@ != "orderedList"@,
        "bulletList"@ != "codeBlock"@,
        "bulletList"@ != "panel"@,
        "bulletList"@ != "blockquote"@,
        "bulletList"@ != "table"@,
        "bulletList"@ != "rule"@,
        "orderedList"@ != "codeBlock"@,
        "orderedList"@ != "panel"@,
        "orderedList"@ != "blockquote"@,
        "orderedList"@ != "table"@,
        "orderedList"@ != "rule"@,
        "codeBlock"@ != "panel"@,
        "codeBlock"@ != "blockquote"@,
        "codeBlock"@ != "table"@,
        "codeBlock"@ != "rule"@,
        "panel"@ != "blockquote"@,
        "panel"@ != "table"@,
        "panel"@ != "rule"@,
        "blockquote"@ != "table"@,
        "blockquote"@ != "rule"@,
        "table"@ != "rule"@,
{
    reveal_strlit("heading");
    reveal_strlit("paragraph");
    reveal_strlit("mediaSingle");
    reveal_strlit("mediaGroup");
    reveal_strlit("bulletList");
    reveal_strlit("orderedList");
    reveal_strlit("codeBlock");
    reveal_strlit("panel");
    reveal_strlit("blockquote");
    reveal_strlit("table");
    reveal_strlit("rule");
    assert("heading"@.len() == 7);
    assert("paragraph"@.len() == 9);
    assert("mediaSingle"@.len() == 11);
    assert("mediaGroup"@.len() == 10);
    assert("bulletList"@.len() == 10);
    assert("orderedList"@.len() == 11);
    assert("codeBlock"@.len() == 9);
    assert("panel"@.len() == 5);
    assert("blockquote"@.len() == 10);
    assert("table"@.len() == 5);
    assert("rule"@.len() == 4);
    assert("paragraph"@[0] == 'p');
    assert("codeBlock"@[0] == 'c');
    assert("mediaSingle"@[0] == 'm');
    assert("orderedList"@[0] == 'o');
    assert("mediaGroup"@[1] == 'e');
    assert("bulletList"@[1] == 'u');
    assert("blockquote"@[1] == 'l');
    assert("panel"@[0] == 'p');
    assert("table"@[0] == 't');
}

// ---------------------------------------------------------------------------
// Quotes
// ---------------------------------------------------------------------------

/// A quote has the lines of the text that it quotes, one for one and in order: each behind
/// `>` and a space, and an empty one as `>` alone. No line of the text but the last may
/// end with a carriage return, which no line that is followed by another keeps.
pub proof fn lemma_quote_lines(s: Seq<char>)
    requires
        forall|i: int|
            0 <= i < text::lines_of(text::trim_end_of(s)).len() - 1 ==> !text::ends_with_char(
                #[trigger] text::lines_of(text::trim_end_of(s))[i],
                '\r',
            ),
    ensures
        text::lines_of(quoted(s)).len() == text::lines_of(text::trim_end_of(s)).len(),
        forall|i: int|
            0 <= i < text::lines_of(text::trim_end_of(s)).len() ==> #[trigger] text::lines_of(
                quoted(s),
            )[i] == (if text::lines_of(text::trim_end_of(s))[i].len() == 0 {
                ">"@
            } else {
                "> "@ + text::lines_of(text::trim_end_of(s))[i]
            }),
{
    reveal_strlit(">");
    reveal_strlit("> ");
    let inner = text::lines_of(text::trim_end_of(s));
    let v = inner.map_values(|l: Seq<char>| adf::quoted_line(l));
    text::lemma_lines_plain(text::trim_end_of(s));
    assert forall|i: int| 0 <= i < v.len() implies !(#[trigger] v[i]).contains('\n') by {
        let l = inner[i];
        if v[i].contains('\n') {
            let j = choose|j: int| 0 <= j < v[i].len() && v[i][j] == '\n';
            assert(l.len() > 0 && j >= 2);
            assert(l[j - 2] == '\n');
        }
    }
    assert forall|i: int| 0 <= i < v.len() - 1 implies !text::ends_with_char(
        #[trigger] v[i],
        '\r',
    ) by {
        assert(!text::ends_with_char(inner[i], '\r'));
    }
    text::lemma_lines_join(v);
}

/// A panel or a blockquote is one block, the quote of the blocks in it.
pub proof fn lemma_quote_node(n: Json)
    requires
        kind(n) == "panel"@ || kind(n) == "blockquote"@,
        forall|i: int|
            0 <= i < text::lines_of(
                text::trim_end_of(with_blocks(seq![], container_blocks(n))),
            ).len() - 1 ==> !text::ends_with_char(
                #[trigger] text::lines_of(
                    text::trim_end_of(with_blocks(seq![], container_blocks(n))),
                )[i],
                '\r',
            ),
    ensures
        node_blocks(n).len() == 1,
        ({
            let inner = text::lines_of(
                text::trim_end_of(with_blocks(seq![], container_blocks(n))),
            );
            let lines = text::lines_of(node_blocks(n)[0]);
            &&& lines.len() == inner.len()
            &&& forall|i: int|
                0 <= i < inner.len() ==> #[trigger] lines[i] == (if inner[i].len() == 0 {
                    ">"@
                } else {
                    "> "@ + inner[i]
                })
        }),
{
    lemma_kinds();
    lemma_quote_lines(with_blocks(seq![], container_blocks(n)));
}

/// The types of inline nodes are different.
proof fn lemma_inline_kinds()
    ensures
        "text"@ != "hardBreak"@,
        "text"@ != "mention"@,
        "text"@ != "emoji"@,
        "text"@ != "date"@,
        "text"@ != "status"@,
        "text"@ != "inlineCard"@,
        "text"@ != "blockCard"@,
        "text"@ != "media"@,
        "hardBreak"@ != "mention"@,
        "hardBreak"@ != "emoji"@,
        "hardBreak"@ != "date"@,
        "hardBreak"@ != "status"@,
        "hardBreak"@ != "inlineCard"@,
        "hardBreak"@ != "blockCard"@,
        "hardBreak"@ != "media"@,
        "mention"@ != "emoji"@,
        "mention"@ != "date"@,
        "mention"@ != "status"@,
        "mention"@ != "inlineCard"@,
        "mention"@ != "blockCard"@,
        "mention"@ != "media"@,
        "emoji"@ != "date"@,
        "emoji"@ != "status"@,
        "emoji"@ != "inlineCard"@,
        "emoji"@ != "blockCard"@,
        "emoji"@ != "media"@,
        "date"@ != "status"@,
        "date"@ != "inlineCard"@,
        "date"@ != "blockCard"@,
        "date"@ != "media"@,
        "status"@ != "inlineCard"@,
        "status"@ != "blockCard"@,
        "status"@ != "media"@,
        "inlineCard"@ != "blockCard"@,
        "inlineCard"@ != "media"@,
        "blockCard"@ != "media"@,
{
    reveal_strlit("text");
    reveal_strlit("hardBreak");
    reveal_strlit("mention");
    reveal_strlit("emoji");
    reveal_strlit("date");
    reveal_strlit("status");
    reveal_strlit("inlineCard");
    reveal_strlit("blockCard");
    reveal_strlit("media");
    assert("text"@.len() == 4);
    assert("hardBreak"@.len() == 9);
    assert("mention"@.len() == 7);
    assert("emoji"@.len() == 5);
    assert("date"@.len() == 4);
    assert("status"@.len() == 6);
    assert("inlineCard"@.len() == 10);
    assert("blockCard"@.len() == 9);
    assert("media"@.len() == 5);
    assert("text"@[0] == 't');
    assert("date"@[0] == 'd');
    assert("hardBreak"@[0] == 'h');
    assert("blockCard"@[0] == 'b');
    assert("emoji"@[0] == 'e');
    assert("media"@[0] == 'm');
}

// ---------------------------------------------------------------------------
// Blocks
// ---------------------------------------------------------------------------

/// A heading is one line: as many number signs as its level says, a space, and its text.
/// A level below one counts as one, and one above six as six.
pub proof fn lemma_heading_block(n: Json, a: Json, k: u64)
    requires
        kind(n) == "heading"@,
        json::get(n, "attrs"@) == Some(a),
        json::get(a, "level"@) == Some(Json::Unsigned(k)),
    ensures
        node_blocks(n).len() == 1,
        ({
            let b = node_blocks(n)[0];
            let level: int = if k < 1 {
                1
            } else if k > 6 {
                6
            } else {
                k as int
            };
            &&& b.len() == level + 1 + inline_nodes(children(n)).len()
            &&& forall|i: int| 0 <= i < level ==> #[trigger] b[i] == '#'
            &&& b[level] == ' '
            &&& b.skip(level + 1) == inline_nodes(children(n))
        }),
{
    reveal_strlit(" ");
    let b = node_blocks(n)[0];
    let level = adf::heading_level(n);
    assert(b.skip(level + 1) =~= inline_nodes(children(n)));
}

/// A paragraph is its text, and so is a node that holds media.
pub proof fn lemma_paragraph_block(n: Json)
    requires
        kind(n) == "paragraph"@ || kind(n) == "mediaSingle"@ || kind(n) == "mediaGroup"@,
    ensures
        node_blocks(n) == seq![inline_nodes(children(n))],
{
    lemma_kinds();
}

/// A code block is its text between fences, the first of which names the language.
pub proof fn lemma_code_block(n: Json)
    requires
        kind(n) == "codeBlock"@,
    ensures
        node_blocks(n) == seq!["```"@ + attr(n, "language"@) + "\n"@ + plain_text(n) + "\n```"@],
{
    lemma_kinds();
}

/// A rule is three dashes.
pub proof fn lemma_rule_block(n: Json)
    requires
        kind(n) == "rule"@,
    ensures
        node_blocks(n) == seq!["---"@],
{
    lemma_kinds();
}

proof fn lemma_only(v: Seq<Json>, p: spec_fn(Json) -> bool)
    ensures
        adf::only(v, p) == v.filter(p),
    decreases v.len(),
{
    reveal(Seq::filter);
    if v.len() > 0 {
        lemma_only(v.drop_last(), p);
    }
}

/// Whether a text is one line.
pub open spec fn is_line(s: Seq<char>) -> bool {
    !s.contains('\n') && !text::ends_with_char(s, '\r')
}

/// A list has one line for each of its items, in order: a bullet list with a dash and a
/// space before the text of the item, an ordered one with its number from one on, a dot
/// and a space. The texts of the items are lines.
pub proof fn lemma_list_block(n: Json, ordered: bool)
    requires
        kind(n) == (if ordered {
            "orderedList"@
        } else {
            "bulletList"@
        }),
        forall|i: int|
            0 <= i < children(n).len() ==> is_line(item_text(#[trigger] children(n)[i])),
    ensures
        node_blocks(n).len() == 1,
        ({
            let items = children(n).filter(
                |c: Json| json::as_text(json::get(c, "type"@)) == Some("listItem"@),
            );
            let lines = text::lines_of(node_blocks(n)[0]);
            &&& lines.len() == items.len()
            &&& forall|i: int|
                0 <= i < items.len() ==> #[trigger] lines[i] == (if ordered {
                    text::decimal((i + 1) as nat) + ". "@ + item_text(items[i])
                } else {
                    "- "@ + item_text(items[i])
                })
        }),
{
    lemma_kinds();
    reveal_strlit("- ");
    reveal_strlit(". ");
    let p = |c: Json| json::as_text(json::get(c, "type"@)) == Some("listItem"@);
    let q = |c: Json| adf::is_list_item(c);
    assert(p =~= q);
    lemma_only(children(n), q);
    let items = list_items(n);
    assert(items == children(n).filter(p));
    let v = adf::list_lines(items, ordered);
    assert forall|i: int| 0 <= i < v.len() implies is_line(#[trigger] v[i]) && v[i].len() > 0 by {
        children(n).lemma_filter_contains_rev(p, items[i]);
        let j = choose|j: int| 0 <= j < children(n).len() && children(n)[j] == items[i];
        let t = item_text(items[i]);
        assert(is_line(item_text(children(n)[j])));
        let head = if ordered {
            text::decimal((i + 1) as nat) + ". "@
        } else {
            "- "@
        };
        text::lemma_decimal((i + 1) as nat);
        assert(v[i] =~= head + t);
        if v[i].contains('\n') {
            let x = choose|x: int| 0 <= x < v[i].len() && v[i][x] == '\n';
            if x >= head.len() {
                assert(t[x - head.len()] == '\n');
            } else if ordered && x < text::decimal((i + 1) as nat).len() {
                assert(text::is_digit(text::decimal((i + 1) as nat)[x]));
            }
        }
        assert(head.last() == ' ');
    }
    text::lemma_lines_join(v);
}

/// The blocks of nodes are those of each, one after the other.
pub proof fn lemma_blocks_in_order(a: Seq<Json>, n: Json)
    ensures
        adf::all_blocks(Seq::<Json>::empty()) == Seq::<Seq<char>>::empty(),
        adf::all_blocks(a.push(n)) == adf::all_blocks(a) + node_blocks(n),
{
    let v = a.push(n);
    assert(v.drop_last() =~= a);
    assert(v[v.len() - 1] == n);
}

/// Blocks that are not empty and do not end with a line feed are parted by blank lines,
/// and nothing else stands between them.
pub proof fn lemma_blocks_parted(blocks: Seq<Seq<char>>)
    requires
        forall|i: int|
            0 <= i < blocks.len() ==> (#[trigger] blocks[i]).len() > 0 && blocks[i].last() != '\n',
    ensures
        with_blocks(seq![], blocks) == text::join_of(blocks, "\n\n"@),
    decreases blocks.len(),
{
    if blocks.len() > 0 {
        let before = blocks.drop_last();
        assert forall|i: int| 0 <= i < before.len() implies (#[trigger] before[i]).len() > 0
            && before[i].last() != '\n' by {
            assert(before[i] == blocks[i]);
        }
        lemma_blocks_parted(before);
        assert(blocks[blocks.len() - 1] == blocks.last());
        if before.len() > 0 {
            let out = with_blocks(seq![], before);
            assert(before[before.len() - 1] == before.last());
            lemma_join_end(before, "\n\n"@);
            assert(out.last() == before.last().last());
            assert(with_block(out, blocks.last()) == out + "\n\n"@ + blocks.last());
        } else {
            assert(with_blocks(seq![], before) =~= seq![]);
        }
    }
}

proof fn lemma_join_end(v: Seq<Seq<char>>, sep: Seq<char>)
    requires
        v.len() > 0,
        v.last().len() > 0,
    ensures
        text::join_of(v, sep).len() > 0,
        text::join_of(v, sep).last() == v.last().last(),
{
}

/// The Markdown of a document whose nodes each give one block, none of them empty or
/// ending with white space, is these blocks with blank lines between them.
pub proof fn lemma_document(n: Json)
    requires
        has_children(n),
        children(n).len() > 0,
        forall|i: int|
            0 <= i < children(n).len() ==> node_blocks(#[trigger] children(n)[i]).len() == 1,
        forall|i: int|
            0 <= i < children(n).len() ==> {
                let b = node_blocks(#[trigger] children(n)[i])[0];
                b.len() > 0 && !text::is_white(b.last())
            },
    ensures
        markdown_of(n) == text::join_of(
            children(n).map_values(|c: Json| node_blocks(c)[0]),
            "\n\n"@,
        ),
{
    let v = children(n);
    let blocks = v.map_values(|c: Json| node_blocks(c)[0]);
    lemma_single_blocks(v);
    assert(container_blocks(n) == blocks);
    assert forall|i: int| 0 <= i < blocks.len() implies (#[trigger] blocks[i]).len() > 0
        && blocks[i].last() != '\n' by {
        let b = node_blocks(v[i])[0];
        assert(b.len() > 0 && !text::is_white(b.last()));
    }
    lemma_blocks_parted(blocks);
    let all = text::join_of(blocks, "\n\n"@);
    let last = node_blocks(v[v.len() - 1])[0];
    assert(blocks.last() == last);
    lemma_join_end(blocks, "\n\n"@);
    assert(text::trim_end_of(all) == all);
}

proof fn lemma_single_blocks(v: Seq<Json>)
    requires
        forall|i: int| 0 <= i < v.len() ==> node_blocks(#[trigger] v[i]).len() == 1,
    ensures
        adf::all_blocks(v) == v.map_values(|c: Json| node_blocks(c)[0]),
    decreases v.len(),
{
    if v.len() > 0 {
        let w = v.drop_last();
        assert forall|i: int| 0 <= i < w.len() implies node_blocks(#[trigger] w[i]).len() == 1 by {
            assert(w[i] == v[i]);
        }
        lemma_single_blocks(w);
        let n = v[v.len() - 1];
        assert(node_blocks(n) =~= seq![node_blocks(n)[0]]);
        assert(adf::all_blocks(v) =~= v.map_values(|c: Json| node_blocks(c)[0]));
    } else {
        assert(adf::all_blocks(v) =~= v.map_values(|c: Json| node_blocks(c)[0]));
    }
}

// ---------------------------------------------------------------------------
// Inline nodes
// ---------------------------------------------------------------------------

/// The Markdown of inline nodes is that of each, one after the other.
pub proof fn lemma_inline_in_order(a: Seq<Json>, n: Json)
    ensures
        inline_nodes(Seq::<Json>::empty()) == Seq::<char>::empty(),
        inline_nodes(a.push(n)) == inline_nodes(a) + inline_node(n),
{
    let v = a.push(n);
    assert(v.drop_last() =~= a);
    assert(v[v.len() - 1] == n);
}

/// A line break, a mention, an emoji, a date, a status, a card and an image each have the
/// Markdown that stands for them.
pub proof fn lemma_inline_kinds_kept(n: Json)
    ensures
        kind(n) == "hardBreak"@ ==> inline_node(n) == "\n"@,
        kind(n) == "mention"@ ==> {
            let name = attr(n, "text"@);
            inline_node(n) == (if name.len() > 0 && name[0] == '@' {
                name
            } else {
                "@"@ + name
            })
        },
        kind(n) == "emoji"@ ==> inline_node(n) == (match json::nested_text(
            n,
            "attrs"@,
            "text"@,
        ) {
            Some(s) => s,
            None => attr(n, "shortName"@),
        }),
        kind(n) == "date"@ ==> inline_node(n) == attr(n, "timestamp"@),
        kind(n) == "status"@ ==> inline_node(n) == attr(n, "text"@),
        (kind(n) == "inlineCard"@ || kind(n) == "blockCard"@) && attr(n, "url"@).len() > 0
            ==> inline_node(n) == "["@ + attr(n, "url"@) + "]("@ + attr(n, "url"@) + ")"@,
        (kind(n) == "inlineCard"@ || kind(n) == "blockCard"@) && attr(n, "url"@).len() == 0
            ==> inline_node(n).len() == 0,
        kind(n) == "media"@ ==> inline_node(n) == "!["@ + attr(n, "alt"@) + "](jira-media:"@
            + attr(n, "id"@) + ")"@,
{
    lemma_inline_kinds();
}

/// The marks of a text node.
pub open spec fn marks_of(n: Json) -> Seq<Json> {
    match json::as_items(json::get(n, "marks"@)) {
        Some(v) => v,
        None => seq![],
    }
}

/// Whether `a` and `b` are text nodes with one text, and `b` has the marks of `a` but
/// `name`.
pub open spec fn without_mark(a: Json, b: Json, name: Seq<char>) -> bool {
    &&& kind(a) == "text"@ && kind(b) == "text"@
    &&& json::text_under(a, "text"@) == json::text_under(b, "text"@)
    &&& has_mark(marks_of(a), name)
    &&& !has_mark(marks_of(b), name)
    &&& forall|m: Seq<char>|
        m != name ==> (#[trigger] has_mark(marks_of(a), m) <==> has_mark(marks_of(b), m))
}

proof fn lemma_mark_names()
    ensures
        "code"@ != "link"@,
        "code"@ != "strong"@,
        "code"@ != "em"@,
        "code"@ != "strike"@,
        "strong"@ != "em"@,
        "strong"@ != "strike"@,
        "strong"@ != "link"@,
        "em"@ != "strike"@,
        "em"@ != "link"@,
        "strike"@ != "link"@,
{
    reveal_strlit("code");
    reveal_strlit("strong");
    reveal_strlit("em");
    reveal_strlit("strike");
    reveal_strlit("link");
    assert("code"@.len() == 4);
    assert("strong"@.len() == 6);
    assert("em"@.len() == 2);
    assert("strike"@.len() == 6);
    assert("link"@.len() == 4);
    assert("code"@[0] == 'c');
    assert("link"@[0] == 'l');
    assert("strong"@[3] == 'o');
    assert("strike"@[3] == 'i');
}

proof fn lemma_text_node(n: Json)
    requires
        kind(n) == "text"@,
    ensures
        inline_node(n) == adf::marked(json::text_under(n, "text"@), marks_of(n)),
{
    assert(adf::marked(json::text_under(n, "text"@), seq![]) == json::text_under(n, "text"@));
}

/// A text node without marks is its text. Each mark adds its own signs around what the
/// node is without it: a link stands around all others, then come strike, italic and bold,
/// and code stands next to the text.
pub proof fn lemma_marks_kept(a: Json, b: Json)
    ensures
        kind(a) == "text"@ && marks_of(a).len() == 0 ==> inline_node(a) == json::text_under(
            a,
            "text"@,
        ),
        without_mark(a, b, "link"@) ==> inline_node(a) == "["@ + inline_node(b) + "]("@
            + adf::link_href(marks_of(a)) + ")"@,
        without_mark(a, b, "strike"@) && !has_mark(marks_of(a), "link"@) ==> inline_node(a)
            == "~~"@ + inline_node(b) + "~~"@,
        without_mark(a, b, "em"@) && !has_mark(marks_of(a), "link"@) && !has_mark(
            marks_of(a),
            "strike"@,
        ) ==> inline_node(a) == "*"@ + inline_node(b) + "*"@,
        without_mark(a, b, "strong"@) && !has_mark(marks_of(a), "link"@) && !has_mark(
            marks_of(a),
            "strike"@,
        ) && !has_mark(marks_of(a), "em"@) ==> inline_node(a) == "**"@ + inline_node(b) + "**"@,
        without_mark(a, b, "code"@) && !has_mark(marks_of(a), "link"@) && !has_mark(
            marks_of(a),
            "strike"@,
        ) && !has_mark(marks_of(a), "em"@) && !has_mark(marks_of(a), "strong"@) ==> inline_node(a)
            == "`"@ + json::text_under(a, "text"@) + "`"@,
{
    lemma_mark_names();
    if kind(a) == "text"@ {
        lemma_text_node(a);
    }
    if kind(b) == "text"@ {
        lemma_text_node(b);
    }
}

/// The target of a link is that of the first mark that is one.
pub proof fn lemma_link_target(marks: Seq<Json>, k: int)
    requires
        0 <= k < marks.len(),
        json::as_text(json::get(marks[k], "type"@)) == Some("link"@),
        forall|j: int|
            0 <= j < k ==> json::as_text(json::get(#[trigger] marks[j], "type"@)) != Some(
                "link"@,
            ),
    ensures
        adf::link_href(marks) == attr(marks[k], "href"@),
{
    lemma_first_link(marks, 0, k);
}

proof fn lemma_first_link(marks: Seq<Json>, i: int, k: int)
    requires
        0 <= i <= k < marks.len(),
        adf::is_mark(marks[k], "link"@),
        forall|j: int| i <= j < k ==> !adf::is_mark(#[trigger] marks[j], "link"@),
    ensures
        adf::first_link(marks, i) == Some(marks[k]),
    decreases k - i,
{
    if i < k {
        assert(!adf::is_mark(marks[i], "link"@));
        lemma_first_link(marks, i + 1, k);
    }
}

// ---------------------------------------------------------------------------
// Tables
// ---------------------------------------------------------------------------

/// A line of a table is its cells between pipes.
pub open spec fn piped(cells: Seq<Seq<char>>) -> Seq<char> {
    "| "@ + text::join_of(cells, " | "@) + " |"@
}

/// The texts of the cells of a row.
pub open spec fn cells_of(row: Json) -> Seq<Seq<char>> {
    children(row).filter(
        |c: Json|
            json::as_text(json::get(c, "type"@)) == Some("tableHeader"@) || json::as_text(
                json::get(c, "type"@),
            ) == Some("tableCell"@),
    ).map_values(|c: Json| adf::cell_text(c))
}

/// The rows of a table.
pub open spec fn rows_of(n: Json) -> Seq<Json> {
    children(n).filter(|c: Json| json::as_text(json::get(c, "type"@)) == Some("tableRow"@))
}

proof fn lemma_cells(row: Json)
    ensures
        adf::row_texts(row) == cells_of(row),
{
    let p = |c: Json|
        json::as_text(json::get(c, "type"@)) == Some("tableHeader"@) || json::as_text(
            json::get(c, "type"@),
        ) == Some("tableCell"@);
    let q = |c: Json| adf::is_table_cell(c);
    assert(p =~= q);
    lemma_only(children(row), q);
}

/// The first `n` cells, with empty ones behind them where there are fewer.
pub open spec fn fitted(cells: Seq<Seq<char>>, n: nat) -> Seq<Seq<char>> {
    Seq::new(
        n,
        |i: int|
            if i < cells.len() {
                cells[i]
            } else {
                seq![]
            },
    )
}

/// A table whose first row has cells has this row as its first line, three dashes for each
/// of its columns as its second, and one line for each further row, in order, each with
/// its own cells between pipes: as many as there are columns.
pub proof fn lemma_table_block(n: Json)
    requires
        kind(n) == "table"@,
        rows_of(n).len() > 0,
        cells_of(rows_of(n)[0]).len() > 0,
    ensures
        node_blocks(n).len() == 1,
        ({
            let rows = rows_of(n);
            let cols = cells_of(rows[0]).len();
            node_blocks(n)[0] == text::join_of(
                seq![piped(cells_of(rows[0])), piped(Seq::new(cols, |i: int| "---"@))]
                    + rows.skip(1).map_values(|r: Json| piped(fitted(cells_of(r), cols))),
                "\n"@,
            )
        }),
{
    lemma_kinds();
    let p = |c: Json| json::as_text(json::get(c, "type"@)) == Some("tableRow"@);
    let q = |c: Json| adf::is_table_row(c);
    assert(p =~= q);
    lemma_only(children(n), q);
    let rows = rows_of(n);
    let cols = cells_of(rows[0]).len();
    lemma_cells(rows[0]);
    assert(adf::padded(cells_of(rows[0]), cols as int) =~= cells_of(rows[0]));
    let more = rows.skip(1);
    assert forall|i: int| 0 <= i < more.len() implies adf::data_lines(more, cols as int)[i]
        == piped(fitted(cells_of(#[trigger] more[i]), cols)) by {
        lemma_cells(more[i]);
        assert(adf::padded(cells_of(more[i]), cols as int) =~= fitted(cells_of(more[i]), cols));
    }
    assert(adf::data_lines(more, cols as int) =~= more.map_values(
        |r: Json| piped(fitted(cells_of(r), cols)),
    ));
    let head = adf::table_head(cells_of(rows[0]), cols as int);
    assert(head =~= seq![piped(cells_of(rows[0])), piped(Seq::new(cols, |i: int| "---"@))]) by {
        assert(adf::dashes(cols as int) =~= Seq::new(cols, |i: int| "---"@));
    }
}

/// Whether a node is a block with some text of its own and no blocks in it.
pub open spec fn is_plain_block(n: Json) -> bool {
    &&& inline_nodes(children(n)).len() > 0
    &&& forall|i: int|
        0 <= i < children(n).len() ==> !adf::is_block_kind(kind(#[trigger] children(n)[i]))
}

/// The text of a list item, and that of a table cell, is the text of the blocks in it with
/// spaces between them; in a cell the pipes are escaped. No text is lost.
pub proof fn lemma_item_texts(n: Json)
    requires
        forall|i: int| 0 <= i < children(n).len() ==> is_plain_block(#[trigger] children(n)[i]),
    ensures
        item_text(n) == text::join_of(
            children(n).map_values(|c: Json| inline_nodes(children(c))),
            " "@,
        ),
        adf::cell_text(n) == text::replace_char_of(
            text::join_of(children(n).map_values(|c: Json| inline_nodes(children(c))), " "@),
            '|',
            "\\|"@,
        ),
{
    lemma_parts(children(n));
}

proof fn lemma_parts(v: Seq<Json>)
    requires
        forall|i: int| 0 <= i < v.len() ==> is_plain_block(#[trigger] v[i]),
    ensures
        adf::item_parts(v) == v.map_values(|c: Json| inline_nodes(children(c))),
        adf::inline_parts(v) == v.map_values(|c: Json| inline_nodes(children(c))),
    decreases v.len(),
{
    if v.len() > 0 {
        let w = v.drop_last();
        assert forall|i: int| 0 <= i < w.len() implies is_plain_block(#[trigger] w[i]) by {
            assert(w[i] == v[i]);
        }
        lemma_parts(w);
        let n = v.last();
        assert(is_plain_block(v[v.len() - 1]));
        assert(!adf::holds_blocks(n)) by {
            if adf::holds_blocks(n) {
                let i = choose|i: int|
                    0 <= i < children(n).len() && adf::is_block(#[trigger] children(n)[i]);
                assert(!adf::is_block_kind(kind(children(n)[i])));
            }
        }
        assert(adf::block_parts(n) =~= seq![inline_nodes(children(n))]);
    }
    assert(adf::item_parts(v) =~= v.map_values(|c: Json| inline_nodes(children(c))));
    assert(adf::inline_parts(v) =~= v.map_values(|c: Json| inline_nodes(children(c))));
}

/// The text of a code block is the text under each of its nodes, one after the other.
pub proof fn lemma_plain_in_order(a: Seq<Json>, n: Json)
    ensures
        adf::plain_texts(Seq::<Json>::empty()) == Seq::<char>::empty(),
        adf::plain_texts(a.push(n)) == adf::plain_texts(a) + plain_text(n),
        !has_children(n) ==> plain_text(n) == json::text_under(n, "text"@),
        has_children(n) ==> plain_text(n) == json::text_under(n, "text"@) + adf::plain_texts(
            children(n),
        ),
{
    let v = a.push(n);
    assert(v.drop_last() =~= a);
    assert(v[v.len() - 1] == n);
}

} // verus!
