//! Atlassian Document Format (ADF) to Markdown.
//!
//! A walk over the tree that Jira gives for issue descriptions and comment
//! bodies. It takes every tree: the children of a node of an unknown type are
//! walked in its place.
//!
//! Inline images (`media` nodes) become a `jira-media:<id>` url, which the Jira
//! converter resolves against the attachments of the issue.

use vstd::prelude::*;
use vstd::string::StringExecFns;

use crate::json::{self, Json};
use crate::text;

verus! {

/// The children of a node: its `content`, if that is an array.
pub open spec fn children(n: Json) -> Seq<Json> {
    match json::as_items(json::get(n, "content"@)) {
        Some(v) => v,
        None => seq![],
    }
}

pub open spec fn has_children(n: Json) -> bool {
    json::as_items(json::get(n, "content"@)) is Some
}

/// The type of a node.
pub open spec fn kind(n: Json) -> Seq<char> {
    json::text_under(n, "type"@)
}

/// An attribute of a node, or an empty text.
pub open spec fn attr(n: Json, name: Seq<char>) -> Seq<char> {
    match json::nested_text(n, "attrs"@, name) {
        Some(s) => s,
        None => seq![],
    }
}

// ---------------------------------------------------------------------------
// Inline nodes
// ---------------------------------------------------------------------------

/// Whether one of the marks has the type `name`.
pub open spec fn has_mark(marks: Seq<Json>, name: Seq<char>) -> bool {
    exists|i: int| 0 <= i < marks.len() && is_mark(#[trigger] marks[i], name)
}

pub open spec fn is_mark(mark: Json, name: Seq<char>) -> bool {
    json::as_text(json::get(mark, "type"@)) == Some(name)
}

/// The first mark from `i` on that is a link.
pub open spec fn first_link(marks: Seq<Json>, i: int) -> Option<Json>
    decreases marks.len() - i,
{
    if i < 0 || i >= marks.len() {
        None
    } else if is_mark(marks[i], "link"@) {
        Some(marks[i])
    } else {
        first_link(marks, i + 1)
    }
}

/// The url of the first link among the marks.
pub open spec fn link_href(marks: Seq<Json>) -> Seq<char> {
    match first_link(marks, 0) {
        Some(m) => attr(m, "href"@),
        None => seq![],
    }
}

/// `s` between two texts where `on` holds.
pub open spec fn wrap_if(on: bool, before: Seq<char>, s: Seq<char>, after: Seq<char>) -> Seq<char> {
    if on {
        before + s + after
    } else {
        s
    }
}

/// A text with its marks: code is the innermost, then bold, italic and strike; a
/// link is the outermost.
pub open spec fn marked(s: Seq<char>, marks: Seq<Json>) -> Seq<char> {
    let s = wrap_if(has_mark(marks, "code"@), "`"@, s, "`"@);
    let s = wrap_if(has_mark(marks, "strong"@), "**"@, s, "**"@);
    let s = wrap_if(has_mark(marks, "em"@), "*"@, s, "*"@);
    let s = wrap_if(has_mark(marks, "strike"@), "~~"@, s, "~~"@);
    if has_mark(marks, "link"@) {
        "["@ + s + "]("@ + link_href(marks) + ")"@
    } else {
        s
    }
}

/// A text node with its marks.
pub open spec fn text_node(n: Json) -> Seq<char> {
    let s = json::text_under(n, "text"@);
    match json::as_items(json::get(n, "marks"@)) {
        Some(marks) => marked(s, marks),
        None => s,
    }
}

/// A mention, with an `@` before it.
pub open spec fn mention(n: Json) -> Seq<char> {
    let name = attr(n, "text"@);
    if text::starts_with_char(name, '@') {
        name
    } else {
        "@"@ + name
    }
}

/// An emoji: its text, or else its short name.
pub open spec fn emoji(n: Json) -> Seq<char> {
    match json::nested_text(n, "attrs"@, "text"@) {
        Some(s) => s,
        None => attr(n, "shortName"@),
    }
}

/// A card: a link to its url, if it has one.
pub open spec fn card(n: Json) -> Seq<char> {
    let url = attr(n, "url"@);
    if url.len() > 0 {
        "["@ + url + "]("@ + url + ")"@
    } else {
        seq![]
    }
}

/// A media node: an image under a url that stands for the attachment.
pub open spec fn media(n: Json) -> Seq<char> {
    "!["@ + attr(n, "alt"@) + "](jira-media:"@ + attr(n, "id"@) + ")"@
}

/// The Markdown of an inline node. One of an unknown type is its children, or
/// else its text.
pub open spec fn inline_node(n: Json) -> Seq<char>
    decreases n, 0nat,
{
    let t = kind(n);
    if t == "text"@ {
        text_node(n)
    } else if t == "hardBreak"@ {
        "\n"@
    } else if t == "mention"@ {
        mention(n)
    } else if t == "emoji"@ {
        emoji(n)
    } else if t == "date"@ {
        attr(n, "timestamp"@)
    } else if t == "status"@ {
        attr(n, "text"@)
    } else if t == "inlineCard"@ || t == "blockCard"@ {
        card(n)
    } else if t == "media"@ {
        media(n)
    } else if has_children(n) {
        proof {
            json::lemma_items_smaller(n, "content"@);
        }
        inline_nodes(children(n))
    } else {
        json::text_under(n, "text"@)
    }
}

/// The Markdown of inline nodes, one after the other.
pub open spec fn inline_nodes(v: Seq<Json>) -> Seq<char>
    decreases v, 1nat,
{
    if v.len() == 0 {
        seq![]
    } else {
        proof {
            assert(decreases_to!(v => v.drop_last()));
            assert(decreases_to!(v => v[v.len() - 1]));
        }
        inline_nodes(v.drop_last()) + inline_node(v[v.len() - 1])
    }
}

/// All text under a node.
pub open spec fn plain_text(n: Json) -> Seq<char>
    decreases n, 0nat,
{
    if has_children(n) {
        proof {
            json::lemma_items_smaller(n, "content"@);
        }
        json::text_under(n, "text"@) + plain_texts(children(n))
    } else {
        json::text_under(n, "text"@)
    }
}

pub open spec fn plain_texts(v: Seq<Json>) -> Seq<char>
    decreases v, 1nat,
{
    if v.len() == 0 {
        seq![]
    } else {
        proof {
            assert(decreases_to!(v => v.drop_last()));
            assert(decreases_to!(v => v[v.len() - 1]));
        }
        plain_texts(v.drop_last()) + plain_text(v[v.len() - 1])
    }
}

// ---------------------------------------------------------------------------
// Blocks
// ---------------------------------------------------------------------------

/// The inline text of each of the blocks that has any.
pub open spec fn inline_parts(blocks: Seq<Json>) -> Seq<Seq<char>>
    decreases blocks.len(),
{
    if blocks.len() == 0 {
        seq![]
    } else {
        let s = inline_nodes(children(blocks.last()));
        if s.len() > 0 {
            inline_parts(blocks.drop_last()).push(s)
        } else {
            inline_parts(blocks.drop_last())
        }
    }
}

/// The blocks of a table cell as one line.
pub open spec fn flat_text(n: Json) -> Seq<char> {
    text::join_of(inline_parts(children(n)), " "@)
}

/// Whether nodes of this type are blocks.
pub open spec fn is_block_kind(t: Seq<char>) -> bool {
    ||| t == "paragraph"@
    ||| t == "heading"@
    ||| t == "bulletList"@
    ||| t == "orderedList"@
    ||| t == "listItem"@
    ||| t == "codeBlock"@
    ||| t == "panel"@
    ||| t == "blockquote"@
    ||| t == "table"@
    ||| t == "tableRow"@
    ||| t == "tableHeader"@
    ||| t == "tableCell"@
    ||| t == "mediaSingle"@
    ||| t == "mediaGroup"@
    ||| t == "rule"@
}

pub open spec fn is_block(n: Json) -> bool {
    is_block_kind(kind(n))
}

/// Whether a node has a block among its children.
pub open spec fn holds_blocks(n: Json) -> bool {
    exists|i: int| 0 <= i < children(n).len() && is_block(#[trigger] children(n)[i])
}

/// The text as the one part, if it has any characters.
pub open spec fn one_part(s: Seq<char>) -> Seq<Seq<char>> {
    if s.len() == 0 {
        seq![]
    } else {
        seq![s]
    }
}

/// The texts of the innermost blocks of a block, in order.
pub open spec fn block_parts(n: Json) -> Seq<Seq<char>>
    decreases n, 0nat,
{
    if has_children(n) && holds_blocks(n) {
        proof {
            json::lemma_items_smaller(n, "content"@);
        }
        nested_parts(children(n))
    } else {
        one_part(inline_nodes(children(n)))
    }
}

/// The texts of nodes that stand side by side, blocks among them.
pub open spec fn nested_parts(v: Seq<Json>) -> Seq<Seq<char>>
    decreases v, 1nat,
{
    if v.len() == 0 {
        seq![]
    } else {
        proof {
            assert(decreases_to!(v => v.drop_last()));
            assert(decreases_to!(v => v[v.len() - 1]));
        }
        nested_parts(v.drop_last()) + if is_block(v[v.len() - 1]) {
            block_parts(v[v.len() - 1])
        } else {
            one_part(inline_node(v[v.len() - 1]))
        }
    }
}

/// The texts of the blocks of a list item.
pub open spec fn item_parts(v: Seq<Json>) -> Seq<Seq<char>>
    decreases v.len(),
{
    if v.len() == 0 {
        seq![]
    } else {
        item_parts(v.drop_last()) + block_parts(v.last())
    }
}

/// A list item as one line: its blocks, nested ones too, with a space between them.
pub open spec fn item_text(n: Json) -> Seq<char> {
    text::join_of(item_parts(children(n)), " "@)
}

/// The nodes among `v` that `p` holds of.
pub open spec fn only(v: Seq<Json>, p: spec_fn(Json) -> bool) -> Seq<Json>
    decreases v.len(),
{
    if v.len() == 0 {
        seq![]
    } else if p(v.last()) {
        only(v.drop_last(), p).push(v.last())
    } else {
        only(v.drop_last(), p)
    }
}

pub open spec fn is_list_item(n: Json) -> bool {
    json::as_text(json::get(n, "type"@)) == Some("listItem"@)
}

/// The items of a list.
pub open spec fn list_items(n: Json) -> Seq<Json> {
    only(children(n), |c: Json| is_list_item(c))
}

/// The line for the item at position `i`.
pub open spec fn list_line(items: Seq<Json>, ordered: bool, i: int) -> Seq<char> {
    if ordered {
        text::decimal((i + 1) as nat) + ". "@ + item_text(items[i])
    } else {
        "- "@ + item_text(items[i])
    }
}

/// The lines of a list.
pub open spec fn list_lines(items: Seq<Json>, ordered: bool) -> Seq<Seq<char>> {
    Seq::new(items.len(), |i: int| list_line(items, ordered, i))
}

pub open spec fn list_block(n: Json, ordered: bool) -> Seq<char> {
    text::join_of(list_lines(list_items(n), ordered), "\n"@)
}

pub open spec fn is_table_row(n: Json) -> bool {
    json::as_text(json::get(n, "type"@)) == Some("tableRow"@)
}

pub open spec fn is_table_cell(n: Json) -> bool {
    let t = json::as_text(json::get(n, "type"@));
    t == Some("tableHeader"@) || t == Some("tableCell"@)
}

/// The text of a table cell, with its pipes escaped.
pub open spec fn cell_text(n: Json) -> Seq<char> {
    text::replace_char_of(flat_text(n), '|', "\\|"@)
}

/// The texts of the cells of a row.
pub open spec fn row_texts(row: Json) -> Seq<Seq<char>> {
    only(children(row), |c: Json| is_table_cell(c)).map_values(|c: Json| cell_text(c))
}

/// The row cut or padded with empty cells to `n` cells.
pub open spec fn padded(cells: Seq<Seq<char>>, n: int) -> Seq<Seq<char>> {
    Seq::new(n as nat, |i: int| cell_or_empty(cells, i))
}

pub open spec fn cell_or_empty(cells: Seq<Seq<char>>, i: int) -> Seq<char> {
    if 0 <= i < cells.len() {
        cells[i]
    } else {
        seq![]
    }
}

/// A line of a table.
pub open spec fn table_line(cells: Seq<Seq<char>>) -> Seq<char> {
    "| "@ + text::join_of(cells, " | "@) + " |"@
}

/// The cells of a separator row.
pub open spec fn dashes(n: int) -> Seq<Seq<char>> {
    Seq::new(n as nat, |i: int| "---"@)
}

/// A table as GFM: the first row is the header.
pub open spec fn table_block(n: Json) -> Seq<char> {
    let rows = only(children(n), |c: Json| is_table_row(c));
    if rows.len() == 0 {
        seq![]
    } else {
        let header = row_texts(rows[0]);
        let cols = table_cols(header);
        text::join_of(table_head(header, cols) + data_lines(rows.skip(1), cols), "\n"@)
    }
}

/// The lines of the data rows.
pub open spec fn data_lines(rows: Seq<Json>, cols: int) -> Seq<Seq<char>> {
    rows.map_values(|r: Json| table_line(padded(row_texts(r), cols)))
}

/// The level of a heading: at least one and at most six.
pub open spec fn heading_level(n: Json) -> int {
    match json::get(n, "attrs"@) {
        Some(a) => match json::get(a, "level"@) {
            Some(Json::Unsigned(k)) => if k < 1 {
                1
            } else if k > 6 {
                6
            } else {
                k as int
            },
            _ => 1,
        },
        None => 1,
    }
}

/// `n` number signs.
pub open spec fn hashes(n: int) -> Seq<char> {
    Seq::new(n as nat, |i: int| '#')
}

pub open spec fn quoted_line(l: Seq<char>) -> Seq<char> {
    if l.len() == 0 {
        ">"@
    } else {
        "> "@ + l
    }
}

/// The lines of a text as a quote.
pub open spec fn quoted(s: Seq<char>) -> Seq<char> {
    text::join_of(
        text::lines_of(text::trim_end_of(s)).map_values(|l: Seq<char>| quoted_line(l)),
        "\n"@,
    )
}

/// A text with a block behind it, which a blank line parts from what is before.
pub open spec fn with_block(out: Seq<char>, block: Seq<char>) -> Seq<char> {
    if block.len() == 0 {
        out
    } else if out.len() == 0 {
        block
    } else if text::ends_with_char(out, '\n') {
        out + "\n"@ + block
    } else {
        out + "\n\n"@ + block
    }
}

/// A text with blocks behind it, one after the other.
pub open spec fn with_blocks(out: Seq<char>, blocks: Seq<Seq<char>>) -> Seq<char>
    decreases blocks.len(),
{
    if blocks.len() == 0 {
        out
    } else {
        with_block(with_blocks(out, blocks.drop_last()), blocks.last())
    }
}

/// The blocks of a node that is taken as a container: those of its children, or
/// where it has none, the node itself as inline text.
pub open spec fn container_blocks(n: Json) -> Seq<Seq<char>>
    decreases n, 1nat,
{
    if has_children(n) {
        proof {
            json::lemma_items_smaller(n, "content"@);
        }
        all_blocks(children(n))
    } else {
        seq![inline_node(n)]
    }
}

/// The blocks of the nodes, one after the other.
pub open spec fn all_blocks(v: Seq<Json>) -> Seq<Seq<char>>
    decreases v, 3nat,
{
    if v.len() == 0 {
        seq![]
    } else {
        proof {
            assert(decreases_to!(v => v.drop_last()));
            assert(decreases_to!(v => v[v.len() - 1]));
        }
        all_blocks(v.drop_last()) + node_blocks(v[v.len() - 1])
    }
}

/// The blocks of a block-level node.
pub open spec fn node_blocks(n: Json) -> Seq<Seq<char>>
    decreases n, 2nat,
{
    let t = kind(n);
    if t == "heading"@ {
        seq![hashes(heading_level(n)) + " "@ + inline_nodes(children(n))]
    } else if t == "paragraph"@ || t == "mediaSingle"@ || t == "mediaGroup"@ {
        seq![inline_nodes(children(n))]
    } else if t == "bulletList"@ {
        seq![list_block(n, false)]
    } else if t == "orderedList"@ {
        seq![list_block(n, true)]
    } else if t == "codeBlock"@ {
        seq!["```"@ + attr(n, "language"@) + "\n"@ + plain_text(n) + "\n```"@]
    } else if t == "panel"@ || t == "blockquote"@ {
        seq![quoted(with_blocks(seq![], container_blocks(n)))]
    } else if t == "table"@ {
        seq![table_block(n)]
    } else if t == "rule"@ {
        seq!["---"@]
    } else if t.len() == 0 {
        container_blocks(n)
    } else if !has_children(n) {
        seq![inline_node(n)]
    } else if text::trim_of(inline_nodes(children(n))).len() == 0 {
        container_blocks(n)
    } else {
        seq![inline_nodes(children(n))]
    }
}

/// The Markdown of an ADF node.
pub open spec fn markdown_of(n: Json) -> Seq<char> {
    text::trim_end_of(with_blocks(seq![], container_blocks(n)))
}

/// The Markdown of a node ends with no white space.
pub proof fn lemma_markdown_end(n: Json)
    ensures
        markdown_of(n).len() > 0 ==> !text::is_white(markdown_of(n).last()),
{
    text::lemma_trim_end(with_blocks(seq![], container_blocks(n)));
}

// ---------------------------------------------------------------------------
// The walk
// ---------------------------------------------------------------------------

/// The attribute `name` of a node, or an empty text.
fn attr_of<'a>(n: &'a Json, name: &str) -> (r: &'a str)
    ensures
        r@ == attr(*n, name@),
{
    match n.nested_str("attrs", name) {
        Some(s) => s,
        None => {
            proof {
                reveal_strlit("");
                assert(""@ =~= seq![]);
            }
            ""
        },
    }
}

/// The children of a node.
pub(crate) fn children_of<'a>(n: &'a Json) -> (r: Option<&'a Vec<Json>>)
    ensures
        match r {
            Some(v) => json::get(*n, "content"@) == Some(Json::Array(*v)),
            None => !has_children(*n) && children(*n) == Seq::<Json>::empty(),
        },
{
    match n.get("content") {
        Some(c) => c.as_array(),
        None => None,
    }
}

fn any_mark(marks: &Vec<Json>, name: &str) -> (r: bool)
    ensures
        r == has_mark(marks@, name@),
{
    let mut i: usize = 0;
    while i < marks.len()
        invariant
            i <= marks@.len(),
            forall|k: int| 0 <= k < i ==> !is_mark(#[trigger] marks@[k], name@),
        decreases marks@.len() - i,
    {
        if has_type(&marks[i], name) {
            assert(is_mark(marks@[i as int], name@));
            return true;
        }
        i = i + 1;
    }
    false
}

/// Whether a node has the type `name`.
fn has_type(n: &Json, name: &str) -> (r: bool)
    ensures
        r == (json::as_text(json::get(*n, "type"@)) == Some(name@)),
{
    match n.get("type") {
        Some(t) => match t.as_str() {
            Some(s) => text::str_eq(s, name),
            None => false,
        },
        None => false,
    }
}

fn href_of<'a>(marks: &'a Vec<Json>) -> (r: &'a str)
    ensures
        r@ == link_href(marks@),
{
    let mut i: usize = 0;
    while i < marks.len()
        invariant
            i <= marks@.len(),
            first_link(marks@, 0) == first_link(marks@, i as int),
        decreases marks@.len() - i,
    {
        if has_type(&marks[i], "link") {
            return attr_of(&marks[i], "href");
        }
        i = i + 1;
    }
    proof {
        reveal_strlit("");
        assert(""@ =~= seq![]);
    }
    ""
}

/// `s` between two texts.
fn wrapped(before: &str, s: String, after: &str) -> (r: String)
    ensures
        r@ == before@ + s@ + after@,
{
    before.to_owned().concat(s.as_str()).concat(after)
}

/// Applies the marks of a text node to its text.
fn apply_marks(s: &str, n: &Json) -> (r: String)
    ensures
        r@ == (match json::as_items(json::get(*n, "marks"@)) {
            Some(marks) => marked(s@, marks),
            None => s@,
        }),
{
    let marks = match n.get("marks") {
        Some(m) => m.as_array(),
        None => None,
    };
    match marks {
        None => s.to_owned(),
        Some(marks) => {
            let mut out = s.to_owned();
            if any_mark(marks, "code") {
                out = wrapped("`", out, "`");
            }
            if any_mark(marks, "strong") {
                out = wrapped("**", out, "**");
            }
            if any_mark(marks, "em") {
                out = wrapped("*", out, "*");
            }
            if any_mark(marks, "strike") {
                out = wrapped("~~", out, "~~");
            }
            if any_mark(marks, "link") {
                out = wrapped("[", out, "](").concat(href_of(marks)).concat(")");
            }
            out
        },
    }
}

/// Appends the Markdown of inline nodes.
fn render_inline_nodes(nodes: &Vec<Json>, out: &mut String)
    ensures
        final(out)@ == old(out)@ + inline_nodes(nodes@),
    decreases nodes, 1nat,
{
    let ghost start = out@;
    let mut i: usize = 0;
    assert(nodes@.take(0) =~= seq![]);
    assert(start + inline_nodes(nodes@.take(0)) =~= start);
    while i < nodes.len()
        invariant
            i <= nodes@.len(),
            out@ == start + inline_nodes(nodes@.take(i as int)),
        decreases nodes@.len() - i,
    {
        let ghost before = nodes@.take(i as int);
        proof {
            assert(decreases_to!(*nodes => nodes@));
            assert(decreases_to!(nodes@ => nodes@[i as int]));
            assert(nodes@.take(i + 1).drop_last() =~= before);
        }
        render_inline_node(&nodes[i], out);
        assert(start + inline_nodes(before) + inline_node(nodes@[i as int]) =~= start + (
        inline_nodes(before) + inline_node(nodes@[i as int])));
        i = i + 1;
    }
    assert(nodes@.take(nodes@.len() as int) =~= nodes@);
}

/// Appends the Markdown of an inline node.
fn render_inline_node(n: &Json, out: &mut String)
    ensures
        final(out)@ == old(out)@ + inline_node(*n),
    decreases n, 0nat,
{
    let t = n.str_under("type");
    if text::str_eq(t, "text") {
        let s = apply_marks(n.str_under("text"), n);
        out.append(s.as_str());
    } else if text::str_eq(t, "hardBreak") {
        out.append("\n");
    } else if text::str_eq(t, "mention") {
        let name = attr_of(n, "text");
        if starts_with_at(name) {
            out.append(name);
        } else {
            let s = "@".to_owned().concat(name);
            out.append(s.as_str());
        }
    } else if text::str_eq(t, "emoji") {
        match n.nested_str("attrs", "text") {
            Some(s) => {
                out.append(s);
            },
            None => {
                out.append(attr_of(n, "shortName"));
            },
        }
    } else if text::str_eq(t, "date") {
        out.append(attr_of(n, "timestamp"));
    } else if text::str_eq(t, "status") {
        out.append(attr_of(n, "text"));
    } else if text::str_eq(t, "inlineCard") || text::str_eq(t, "blockCard") {
        let url = attr_of(n, "url");
        if !url.is_empty() {
            let s = "[".to_owned().concat(url).concat("](").concat(url).concat(")");
            out.append(s.as_str());
        } else {
            assert(out@ + seq![] =~= out@);
        }
    } else if text::str_eq(t, "media") {
        let s = "![".to_owned().concat(attr_of(n, "alt")).concat("](jira-media:").concat(
            attr_of(n, "id"),
        ).concat(")");
        out.append(s.as_str());
    } else {
        match children_of(n) {
            Some(kids) => {
                proof {
                    lemma_children_smaller(*n, *kids);
                }
                render_inline_nodes(kids, out);
            },
            None => {
                out.append(n.str_under("text"));
            },
        }
    }
}

/// The list of children is smaller than the node.
pub proof fn lemma_children_smaller(n: Json, kids: Vec<Json>)
    requires
        json::get(n, "content"@) == Some(Json::Array(kids)),
    ensures
        decreases_to!(n => kids),
{
    let v = n->Object_0;
    json::lemma_key_from(v@, "content"@, 0);
    let k = json::key_from(v@, "content"@, 0)->0;
    assert(decreases_to!(n => n->Object_0));
    assert(decreases_to!(v => v@));
    assert(decreases_to!(v@ => v@[k]));
    assert(decreases_to!(v@[k] => v@[k].1));
    let a = v@[k].1;
    assert(decreases_to!(a => a->Array_0));
}

fn starts_with_at(s: &str) -> (r: bool)
    ensures
        r == text::starts_with_char(s@, '@'),
{
    let chars = text::to_chars(s);
    chars.len() > 0 && chars[0] == '@'
}

/// Appends all text under a node.
fn collect_plain_text_into(n: &Json, out: &mut String)
    ensures
        final(out)@ == old(out)@ + plain_text(*n),
    decreases n, 0nat,
{
    let ghost start = out@;
    out.append(n.str_under("text"));
    match children_of(n) {
        None => {},
        Some(kids) => {
            let ghost head = json::text_under(*n, "text"@);
            let mut i: usize = 0;
            assert(kids@.take(0) =~= seq![]);
            assert(start + (head + plain_texts(kids@.take(0))) =~= start + head);
            while i < kids.len()
                invariant
                    i <= kids@.len(),
                    json::get(*n, "content"@) == Some(Json::Array(*kids)),
                    out@ == start + (head + plain_texts(kids@.take(i as int))),
                decreases kids@.len() - i,
            {
                let ghost before = kids@.take(i as int);
                proof {
                    lemma_children_smaller(*n, *kids);
                    assert(decreases_to!(*kids => kids@));
                    assert(decreases_to!(kids@ => kids@[i as int]));
                    assert(kids@.take(i + 1).drop_last() =~= before);
                }
                collect_plain_text_into(&kids[i], out);
                assert(start + (head + plain_texts(before)) + plain_text(kids@[i as int]) =~= start
                    + (head + (plain_texts(before) + plain_text(kids@[i as int]))));
                i = i + 1;
            }
            assert(kids@.take(kids@.len() as int) =~= kids@);
        },
    }
}

/// Whether a node is a block.
fn block_node(n: &Json) -> (r: bool)
    ensures
        r == is_block(*n),
{
    let t = n.str_under("type");
    text::str_eq(t, "paragraph") || text::str_eq(t, "heading") || text::str_eq(t, "bulletList")
        || text::str_eq(t, "orderedList") || text::str_eq(t, "listItem") || text::str_eq(
        t,
        "codeBlock",
    ) || text::str_eq(t, "panel") || text::str_eq(t, "blockquote") || text::str_eq(t, "table")
        || text::str_eq(t, "tableRow") || text::str_eq(t, "tableHeader") || text::str_eq(
        t,
        "tableCell",
    ) || text::str_eq(t, "mediaSingle") || text::str_eq(t, "mediaGroup") || text::str_eq(t, "rule")
}

fn any_block(v: &Vec<Json>) -> (r: bool)
    ensures
        r == exists|i: int| 0 <= i < v@.len() && is_block(#[trigger] v@[i]),
{
    let mut i: usize = 0;
    while i < v.len()
        invariant
            i <= v@.len(),
            forall|k: int| 0 <= k < i ==> !is_block(#[trigger] v@[k]),
        decreases v@.len() - i,
    {
        if block_node(&v[i]) {
            return true;
        }
        i = i + 1;
    }
    false
}

/// Appends a text, if it has any characters.
fn push_part(parts: &mut Vec<String>, s: String)
    ensures
        text::texts(final(parts)@) == text::texts(old(parts)@) + one_part(s@),
{
    let ghost before = parts@;
    let ghost sv = s@;
    if s.as_str().is_empty() {
        assert(text::texts(before) + one_part(sv) =~= text::texts(before));
    } else {
        parts.push(s);
        assert(text::texts(parts@) =~= text::texts(before) + seq![sv]);
    }
}

/// Appends the texts of the innermost blocks of a block.
fn collect_parts(n: &Json, parts: &mut Vec<String>)
    ensures
        text::texts(final(parts)@) == text::texts(old(parts)@) + block_parts(*n),
    decreases n,
{
    let ghost start = text::texts(parts@);
    match children_of(n) {
        None => {
            assert(!holds_blocks(*n));
        },
        Some(kids) => {
            if any_block(kids) {
                proof {
                    let k = choose|k: int| 0 <= k < kids@.len() && is_block(#[trigger] kids@[k]);
                    assert(is_block(children(*n)[k]));
                }
                let mut i: usize = 0;
                assert(kids@.take(0) =~= seq![]);
                assert(start + nested_parts(kids@.take(0)) =~= start);
                while i < kids.len()
                    invariant
                        i <= kids@.len(),
                        json::get(*n, "content"@) == Some(Json::Array(*kids)),
                        text::texts(parts@) == start + nested_parts(kids@.take(i as int)),
                    decreases kids@.len() - i,
                {
                    let ghost before = nested_parts(kids@.take(i as int));
                    proof {
                        lemma_children_smaller(*n, *kids);
                        assert(decreases_to!(*kids => kids@));
                        assert(decreases_to!(kids@ => kids@[i as int]));
                        assert(kids@.take(i + 1).drop_last() =~= kids@.take(i as int));
                    }
                    if block_node(&kids[i]) {
                        collect_parts(&kids[i], parts);
                        assert(start + before + block_parts(kids@[i as int]) =~= start + (before
                            + block_parts(kids@[i as int])));
                    } else {
                        let mut s = String::new();
                        render_inline_node(&kids[i], &mut s);
                        assert(s@ =~= inline_node(kids@[i as int]));
                        let ghost sv = s@;
                        push_part(parts, s);
                        assert(start + before + one_part(sv) =~= start + (before + one_part(sv)));
                    }
                    i = i + 1;
                }
                assert(kids@.take(kids@.len() as int) =~= kids@);
                return;
            }
            assert(!holds_blocks(*n));
        },
    }
    let s = inline_text_of(n);
    push_part(parts, s);
}

/// A list item as one line.
fn item_text_of(n: &Json) -> (r: String)
    ensures
        r@ == item_text(*n),
{
    let mut parts: Vec<String> = Vec::new();
    assert(text::texts(parts@) =~= seq![]);
    match children_of(n) {
        None => {},
        Some(blocks) => {
            let mut i: usize = 0;
            assert(blocks@.take(0) =~= seq![]);
            while i < blocks.len()
                invariant
                    i <= blocks@.len(),
                    text::texts(parts@) == item_parts(blocks@.take(i as int)),
                decreases blocks@.len() - i,
            {
                assert(blocks@.take(i + 1).drop_last() =~= blocks@.take(i as int));
                collect_parts(&blocks[i], &mut parts);
                i = i + 1;
            }
            assert(blocks@.take(blocks@.len() as int) =~= blocks@);
        },
    }
    text::join(&parts, " ")
}

/// The blocks of a table cell as one line.
fn flat_text_of(n: &Json) -> (r: String)
    ensures
        r@ == flat_text(*n),
{
    let mut parts: Vec<String> = Vec::new();
    assert(text::texts(parts@) =~= seq![]);
    match children_of(n) {
        None => {},
        Some(blocks) => {
            let mut i: usize = 0;
            assert(blocks@.take(0) =~= seq![]);
            while i < blocks.len()
                invariant
                    i <= blocks@.len(),
                    text::texts(parts@) == inline_parts(blocks@.take(i as int)),
                decreases blocks@.len() - i,
            {
                let ghost before = parts@;
                assert(blocks@.take(i + 1).drop_last() =~= blocks@.take(i as int));
                let s = inline_text_of(&blocks[i]);
                if !s.as_str().is_empty() {
                    let ghost sv = s@;
                    parts.push(s);
                    assert(text::texts(parts@) =~= text::texts(before).push(sv));
                }
                i = i + 1;
            }
            assert(blocks@.take(blocks@.len() as int) =~= blocks@);
        },
    }
    text::join(&parts, " ")
}

/// The Markdown of the children of a node.
fn inline_text_of(n: &Json) -> (r: String)
    ensures
        r@ == inline_nodes(children(*n)),
{
    let mut out = String::new();
    match children_of(n) {
        Some(kids) => {
            render_inline_nodes(kids, &mut out);
            assert(Seq::<char>::empty() + inline_nodes(kids@) =~= inline_nodes(kids@));
        },
        None => {},
    }
    out
}

/// Renders a bullet or ordered list, one line per item.
fn render_list(n: &Json, ordered: bool) -> (r: String)
    ensures
        r@ == list_block(*n, ordered),
{
    let ghost p = |c: Json| is_list_item(c);
    let mut lines: Vec<String> = Vec::new();
    match children_of(n) {
        None => {
            assert(list_lines(list_items(*n), ordered) =~= text::texts(lines@));
        },
        Some(kids) => {
            let mut i: usize = 0;
            assert(kids@.take(0) =~= seq![]);
            assert(text::texts(lines@) =~= list_lines(seq![], ordered));
            while i < kids.len()
                invariant
                    i <= kids@.len(),
                    p == (|c: Json| is_list_item(c)),
                    text::texts(lines@) == list_lines(only(kids@.take(i as int), p), ordered),
                    lines@.len() <= i,
                decreases kids@.len() - i,
            {
                let ghost items = only(kids@.take(i as int), p);
                let ghost before = lines@;
                assert(kids@.take(i + 1).drop_last() =~= kids@.take(i as int));
                if has_type(&kids[i], "listItem") {
                    let line = if ordered {
                        text::nat_text(lines.len() as u64 + 1).concat(". ").concat(
                            item_text_of(&kids[i]).as_str(),
                        )
                    } else {
                        "- ".to_owned().concat(item_text_of(&kids[i]).as_str())
                    };
                    let ghost lv = line@;
                    lines.push(line);
                    assert(text::texts(lines@) =~= text::texts(before).push(lv));
                    proof {
                        let more = items.push(kids@[i as int]);
                        assert(items.len() == before.len());
                        assert forall|k: int| 0 <= k < items.len() implies list_line(
                            more,
                            ordered,
                            k,
                        ) == list_line(items, ordered, k) by {}
                        assert(list_lines(more, ordered) =~= list_lines(items, ordered).push(lv));
                    }
                }
                i = i + 1;
            }
            assert(kids@.take(kids@.len() as int) =~= kids@);
        },
    }
    text::join(&lines, "\n")
}

/// The texts of the cells of a row.
fn render_row(row: &Json) -> (r: Vec<String>)
    ensures
        text::texts(r@) == row_texts(*row),
{
    let ghost p = |c: Json| is_table_cell(c);
    let ghost f = |c: Json| cell_text(c);
    let mut out: Vec<String> = Vec::new();
    match children_of(row) {
        None => {
            assert(text::texts(out@) =~= row_texts(*row));
        },
        Some(kids) => {
            let mut i: usize = 0;
            assert(kids@.take(0) =~= seq![]);
            assert(text::texts(out@) =~= only(seq![], p).map_values(f));
            while i < kids.len()
                invariant
                    i <= kids@.len(),
                    p == (|c: Json| is_table_cell(c)),
                    f == (|c: Json| cell_text(c)),
                    text::texts(out@) == only(kids@.take(i as int), p).map_values(f),
                decreases kids@.len() - i,
            {
                let ghost before = out@;
                let ghost cells = only(kids@.take(i as int), p);
                assert(kids@.take(i + 1).drop_last() =~= kids@.take(i as int));
                if has_type(&kids[i], "tableHeader") || has_type(&kids[i], "tableCell") {
                    let flat = flat_text_of(&kids[i]);
                    let chars = text::to_chars(flat.as_str());
                    let cell = text::replace_char(chars.as_slice(), '|', "\\|");
                    let ghost cv = cell@;
                    out.push(cell);
                    assert(text::texts(out@) =~= text::texts(before).push(cv));
                    assert(cells.push(kids@[i as int]).map_values(f) =~= cells.map_values(f).push(
                        cv,
                    ));
                }
                i = i + 1;
            }
            assert(kids@.take(kids@.len() as int) =~= kids@);
        },
    }
    out
}

/// Pads or truncates a row to exactly `n` cells.
fn pad_cells(cells: &Vec<String>, n: usize) -> (r: Vec<String>)
    ensures
        text::texts(r@) == padded(text::texts(cells@), n as int),
{
    let mut out: Vec<String> = Vec::new();
    let ghost all = text::texts(cells@);
    let mut i: usize = 0;
    while i < n
        invariant
            i <= n,
            all == text::texts(cells@),
            out@.len() == i,
            forall|k: int| 0 <= k < i ==> (#[trigger] out@[k])@ == cell_or_empty(all, k),
        decreases n - i,
    {
        if i < cells.len() {
            out.push(cells[i].clone());
        } else {
            out.push(String::new());
        }
        i = i + 1;
    }
    assert(text::texts(out@) =~= padded(all, n as int));
    out
}

fn table_line_of(cells: &Vec<String>) -> (r: String)
    ensures
        r@ == table_line(text::texts(cells@)),
{
    "| ".to_owned().concat(text::join(cells, " | ").as_str()).concat(" |")
}

fn dash_cells(n: usize) -> (r: Vec<String>)
    ensures
        text::texts(r@) == dashes(n as int),
{
    let mut out: Vec<String> = Vec::new();
    let mut i: usize = 0;
    while i < n
        invariant
            i <= n,
            out@.len() == i,
            forall|k: int| 0 <= k < i ==> (#[trigger] out@[k])@ == "---"@,
        decreases n - i,
    {
        out.push("---".to_owned());
        i = i + 1;
    }
    assert(text::texts(out@) =~= dashes(n as int));
    out
}

/// Renders a table as GFM.
fn render_table(n: &Json) -> (r: String)
    ensures
        r@ == table_block(*n),
{
    let ghost p = |c: Json| is_table_row(c);
    let ghost rows = only(children(*n), p);
    let mut lines: Vec<String> = Vec::new();
    let mut cols: usize = 1;
    assert(text::texts(lines@) =~= seq![]);
    match children_of(n) {
        None => {
            assert(rows =~= seq![]);
        },
        Some(kids) => {
            let mut i: usize = 0;
            assert(kids@.take(0) =~= seq![]);
            while i < kids.len()
                invariant
                    i <= kids@.len(),
                    p == (|c: Json| is_table_row(c)),
                    ({
                        let seen = only(kids@.take(i as int), p);
                        &&& seen.len() == 0 ==> text::texts(lines@) == Seq::<Seq<char>>::empty()
                        &&& seen.len() > 0 ==> cols == table_cols(row_texts(seen[0]))
                        &&& seen.len() > 0 ==> text::texts(lines@) == table_head(
                            row_texts(seen[0]),
                            cols as int,
                        ) + data_lines(seen.skip(1), cols as int)
                    }),
                decreases kids@.len() - i,
            {
                let ghost before = text::texts(lines@);
                let ghost seen = only(kids@.take(i as int), p);
                assert(kids@.take(i + 1).drop_last() =~= kids@.take(i as int));
                if has_type(&kids[i], "tableRow") {
                    let cells = render_row(&kids[i]);
                    let ghost now = seen.push(kids@[i as int]);
                    assert(text::texts(cells@).len() == cells@.len());
                    if lines.len() == 0 {
                        cols = if cells.len() == 0 {
                            1
                        } else {
                            cells.len()
                        };
                        let head = table_line_of(&pad_cells(&cells, cols));
                        let rule = table_line_of(&dash_cells(cols));
                        let ghost hv = head@;
                        let ghost rv = rule@;
                        lines.push(head);
                        lines.push(rule);
                        assert(text::texts(lines@) =~= seq![hv, rv]);
                        assert(now.skip(1) =~= seq![]);
                        assert(data_lines(seq![], cols as int) =~= seq![]);
                        assert(text::texts(lines@) =~= table_head(row_texts(now[0]), cols as int)
                            + data_lines(now.skip(1), cols as int));
                    } else {
                        let line = table_line_of(&pad_cells(&cells, cols));
                        let ghost lv = line@;
                        lines.push(line);
                        assert(text::texts(lines@) =~= before.push(lv));
                        assert(now.skip(1) =~= seen.skip(1).push(kids@[i as int]));
                        assert(data_lines(now.skip(1), cols as int) =~= data_lines(
                            seen.skip(1),
                            cols as int,
                        ).push(lv));
                        assert(now[0] == seen[0]);
                    }
                }
                i = i + 1;
            }
            assert(kids@.take(kids@.len() as int) =~= kids@);
        },
    }
    text::join(&lines, "\n")
}

/// The number of columns that a header gives a table.
pub open spec fn table_cols(header: Seq<Seq<char>>) -> int {
    if header.len() == 0 {
        1
    } else {
        header.len() as int
    }
}

/// The header line and the separator line of a table.
pub open spec fn table_head(header: Seq<Seq<char>>, cols: int) -> Seq<Seq<char>> {
    seq![table_line(padded(header, cols)), table_line(dashes(cols))]
}

/// Appends a finished block, with a blank line before it.
fn push_block(out: &mut String, block: &str)
    ensures
        final(out)@ == with_block(old(out)@, block@),
{
    if block.is_empty() {
        return;
    }
    if out.as_str().is_empty() {
        assert(out@ + block@ =~= block@);
    } else {
        let chars = text::to_chars(out.as_str());
        if chars[chars.len() - 1] == '\n' {
            out.append("\n");
        } else {
            out.append("\n\n");
        }
    }
    out.append(block);
}

proof fn lemma_with_blocks_split(out: Seq<char>, a: Seq<Seq<char>>, b: Seq<Seq<char>>)
    ensures
        with_blocks(out, a + b) == with_blocks(with_blocks(out, a), b),
    decreases b.len(),
{
    if b.len() == 0 {
        assert(a + b =~= a);
    } else {
        assert((a + b).drop_last() =~= a + b.drop_last());
        lemma_with_blocks_split(out, a, b.drop_last());
    }
}

proof fn lemma_one_block(out: Seq<char>, block: Seq<char>)
    ensures
        with_blocks(out, seq![block]) == with_block(out, block),
{
    reveal_with_fuel(with_blocks, 2);
    assert(seq![block].drop_last() =~= seq![]);
}

/// The `#` signs of a heading.
fn number_signs(n: usize) -> (r: String)
    ensures
        r@ == hashes(n as int),
{
    let mut out = String::new();
    let mut i: usize = 0;
    while i < n
        invariant
            i <= n,
            out@ == hashes(i as int),
        decreases n - i,
    {
        out.push('#');
        i = i + 1;
        assert(hashes(i as int) =~= hashes(i - 1).push('#'));
    }
    assert(out@ =~= hashes(n as int));
    out
}

fn level_of(n: &Json) -> (r: usize)
    ensures
        r == heading_level(*n),
        1 <= r <= 6,
{
    match n.get("attrs") {
        Some(a) => match a.get("level") {
            Some(Json::Unsigned(k)) => if *k < 1 {
                1
            } else if *k > 6 {
                6
            } else {
                *k as usize
            },
            _ => 1,
        },
        None => 1,
    }
}

/// The lines of a text as a quote.
fn quote_lines(s: &str) -> (r: String)
    ensures
        r@ == quoted(s@),
{
    let chars = text::to_chars(s);
    let lines = text::lines(text::trim_end(chars.as_slice()));
    let ghost all = text::slices(lines@);
    let mut out: Vec<String> = Vec::new();
    let mut i: usize = 0;
    while i < lines.len()
        invariant
            i <= lines@.len(),
            all == text::slices(lines@),
            out@.len() == i,
            forall|k: int| 0 <= k < i ==> (#[trigger] out@[k])@ == quoted_line(all[k]),
        decreases lines@.len() - i,
    {
        if lines[i].len() == 0 {
            out.push(">".to_owned());
        } else {
            out.push("> ".to_owned().concat(text::to_text(lines[i]).as_str()));
        }
        i = i + 1;
    }
    assert(text::texts(out@) =~= all.map_values(|l: Seq<char>| quoted_line(l)));
    text::join(&out, "\n")
}

/// Walks a node as a container of blocks.
fn walk_block_container(n: &Json, out: &mut String)
    ensures
        final(out)@ == with_blocks(old(out)@, container_blocks(*n)),
    decreases n, 1nat,
{
    let ghost start = out@;
    match children_of(n) {
        None => {
            let mut s = String::new();
            render_inline_node(n, &mut s);
            assert(Seq::<char>::empty() + inline_node(*n) =~= inline_node(*n));
            push_block(out, s.as_str());
            proof {
                lemma_one_block(start, inline_node(*n));
            }
        },
        Some(kids) => {
            let mut i: usize = 0;
            assert(kids@.take(0) =~= seq![]);
            while i < kids.len()
                invariant
                    i <= kids@.len(),
                    json::get(*n, "content"@) == Some(Json::Array(*kids)),
                    out@ == with_blocks(start, all_blocks(kids@.take(i as int))),
                decreases kids@.len() - i,
            {
                let ghost before = kids@.take(i as int);
                proof {
                    lemma_children_smaller(*n, *kids);
                    assert(decreases_to!(*kids => kids@));
                    assert(decreases_to!(kids@ => kids@[i as int]));
                    assert(kids@.take(i + 1).drop_last() =~= before);
                    lemma_with_blocks_split(start, all_blocks(before), node_blocks(kids@[i as int]));
                }
                walk_block(&kids[i], out);
                i = i + 1;
            }
            assert(kids@.take(kids@.len() as int) =~= kids@);
        },
    }
}

/// Walks a block-level node.
fn walk_block(n: &Json, out: &mut String)
    ensures
        final(out)@ == with_blocks(old(out)@, node_blocks(*n)),
    decreases n, 2nat,
{
    let ghost start = out@;
    let t = n.str_under("type");
    let block: String;
    if text::str_eq(t, "heading") {
        block = number_signs(level_of(n)).concat(" ").concat(inline_text_of(n).as_str());
    } else if text::str_eq(t, "paragraph") || text::str_eq(t, "mediaSingle") || text::str_eq(
        t,
        "mediaGroup",
    ) {
        block = inline_text_of(n);
    } else if text::str_eq(t, "bulletList") {
        block = render_list(n, false);
    } else if text::str_eq(t, "orderedList") {
        block = render_list(n, true);
    } else if text::str_eq(t, "codeBlock") {
        let mut code = String::new();
        collect_plain_text_into(n, &mut code);
        assert(Seq::<char>::empty() + plain_text(*n) =~= plain_text(*n));
        block = "```".to_owned().concat(attr_of(n, "language")).concat("\n").concat(
            code.as_str(),
        ).concat("\n```");
    } else if text::str_eq(t, "panel") || text::str_eq(t, "blockquote") {
        let mut inner = String::new();
        walk_block_container(n, &mut inner);
        block = quote_lines(inner.as_str());
    } else if text::str_eq(t, "table") {
        block = render_table(n);
    } else if text::str_eq(t, "rule") {
        block = "---".to_owned();
    } else if t.is_empty() {
        walk_block_container(n, out);
        return;
    } else {
        match children_of(n) {
            None => {
                let mut s = String::new();
                render_inline_node(n, &mut s);
                assert(Seq::<char>::empty() + inline_node(*n) =~= inline_node(*n));
                block = s;
            },
            Some(_) => {
                let s = inline_text_of(n);
                let chars = text::to_chars(s.as_str());
                if text::trim(chars.as_slice()).len() == 0 {
                    walk_block_container(n, out);
                    return;
                }
                block = s;
            },
        }
    }
    push_block(out, block.as_str());
    proof {
        lemma_one_block(start, block@);
        assert(node_blocks(*n) == seq![block@]);
    }
}

/// Converts an ADF document into Markdown: its blocks, with blank lines between
/// them and no white space at the end.
pub fn adf_to_markdown(adf: &Json) -> (r: String)
    ensures
        r@ == markdown_of(*adf),
{
    let mut out = String::new();
    walk_block_container(adf, &mut out);
    let chars = text::to_chars(out.as_str());
    text::to_text(text::trim_end(chars.as_slice()))
}

} // verus!
