//! Blocks: headings, code, lists, quotes, tables, images and paragraphs.

use vstd::prelude::*;
use vstd::slice::slice_subrange;

use crate::markdown::content::{self, ItemResolver};
use crate::markdown::table;
use crate::rich_text::{self, XmlNode, XmlTree};
use crate::text;
use crate::yrs_xml_copy::{all_within, lemma_within_more, within};

verus! {

// ---------------------------------------------------------------------------
// What a line is
// ---------------------------------------------------------------------------

/// The number of `#` with which `s` begins.
pub open spec fn hashes(s: Seq<char>) -> nat
    decreases s.len(),
{
    if text::starts_with_char(s, '#') {
        1 + hashes(s.skip(1))
    } else {
        0
    }
}

/// The level and the text of a heading line: one to six `#`, and then a space or
/// nothing.
pub open spec fn heading(line: Seq<char>) -> Option<(int, Seq<char>)> {
    let t = text::trim_of(line);
    let level = hashes(t) as int;
    let rest = t.skip(level);
    if 1 <= level <= 6 && (text::starts_with_char(rest, ' ') || rest.len() == 0) {
        Some((level, text::trim_start_of(rest)))
    } else {
        None
    }
}

/// Whether a line opens a code block.
pub open spec fn opens_code(line: Seq<char>) -> bool {
    "```"@.is_prefix_of(text::trim_start_of(line))
}

/// Whether a line closes a code block.
pub open spec fn closes_code(line: Seq<char>) -> bool {
    text::trim_of(line) == "```"@
}

/// The language that the first line of a code block names.
pub open spec fn code_language(line: Seq<char>) -> Seq<char> {
    match text::after_prefix(text::trim_of(line), "```"@) {
        Some(rest) => text::trim_of(rest),
        None => seq![],
    }
}

/// Whether a line is an item of a task list.
pub open spec fn is_task(line: Seq<char>) -> bool {
    let t = text::trim_of(line);
    ||| "- [ ] "@.is_prefix_of(t)
    ||| "- [x] "@.is_prefix_of(t)
    ||| "- [X] "@.is_prefix_of(t)
    ||| t == "- [ ]"@
    ||| t == "- [x]"@
    ||| t == "- [X]"@
}

/// The text of a task line and whether the task is done.
pub open spec fn task_item(line: Seq<char>) -> (Seq<char>, bool) {
    let t = text::trim_of(line);
    if let Some(rest) = text::after_prefix(t, "- [ ] "@) {
        (rest, false)
    } else if let Some(rest) = text::after_prefix(t, "- [x] "@) {
        (rest, true)
    } else if let Some(rest) = text::after_prefix(t, "- [X] "@) {
        (rest, true)
    } else if t == "- [ ]"@ {
        (seq![], false)
    } else if t == "- [x]"@ || t == "- [X]"@ {
        (seq![], true)
    } else {
        (t, false)
    }
}

/// The text behind the bullet of a trimmed line.
pub open spec fn after_bullet(t: Seq<char>) -> Option<Seq<char>> {
    match text::after_prefix(t, "- "@) {
        Some(rest) => Some(rest),
        None => text::after_prefix(t, "* "@),
    }
}

/// Whether a line opens a bullet list.
pub open spec fn opens_bullets(line: Seq<char>) -> bool {
    let t = text::trim_start_of(line);
    "- "@.is_prefix_of(t) || "* "@.is_prefix_of(t)
}

/// Whether a line goes on with a bullet list.
pub open spec fn continues_bullets(line: Seq<char>) -> bool {
    !is_task(line) && after_bullet(text::trim_of(line)) is Some
}

/// The text of a bullet line.
pub open spec fn bullet_text(line: Seq<char>) -> Seq<char> {
    match after_bullet(text::trim_of(line)) {
        Some(rest) => rest,
        None => text::trim_of(line),
    }
}

/// Whether a line is an item of an ordered list: digits, a dot and a space.
pub open spec fn is_ordered(line: Seq<char>) -> bool {
    let t = text::trim_of(line);
    match text::find_of(t, ". "@) {
        Some(dot) => dot > 0 && text::all_digits(t.take(dot)),
        None => false,
    }
}

/// What follows the number, the dot and the space of an item of an ordered list; a
/// line without a number is its own text.
pub open spec fn ordered_text(line: Seq<char>) -> Seq<char> {
    let t = text::trim_of(line);
    match text::find_of(t, ". "@) {
        Some(dot) => if is_ordered(line) {
            t.skip(dot + 2)
        } else {
            t
        },
        None => t,
    }
}

/// Whether a line opens a quote.
pub open spec fn opens_quote(line: Seq<char>) -> bool {
    "> "@.is_prefix_of(text::trim_start_of(line)) || text::trim_of(line) == ">"@
}

/// The text of the first line of a quote.
pub open spec fn quote_text(line: Seq<char>) -> Seq<char> {
    let t = text::trim_of(line);
    if let Some(rest) = text::after_prefix(t, "> "@) {
        rest
    } else if let Some(rest) = text::after_prefix(t, ">"@) {
        rest
    } else {
        t
    }
}

/// Whether a line goes on with a quote.
pub open spec fn continues_quote(line: Seq<char>) -> bool {
    text::starts_with_char(text::trim_of(line), '>')
}

/// The text of a line that goes on with a quote: nothing, where no space follows
/// the sign.
pub open spec fn further_quote_text(line: Seq<char>) -> Seq<char> {
    match text::after_prefix(text::trim_of(line), "> "@) {
        Some(rest) => rest,
        None => seq![],
    }
}

/// The description and the source of an image that is the whole line.
pub open spec fn lone_image(line: Seq<char>) -> Option<(Seq<char>, Seq<char>)> {
    match text::after_prefix(text::trim_of(line), "!["@) {
        None => None,
        Some(rest) => match text::find_of(rest, "]("@) {
            None => None,
            Some(close) => {
                let alt = rest.take(close);
                let tail = rest.skip(close + 2);
                let src = tail.drop_last();
                if text::ends_with_char(tail, ')') && !alt.contains('[') && !alt.contains(']')
                    && src.len() > 0 && !src.contains(')') && !src.contains('(') {
                    Some((alt, src))
                } else {
                    None
                }
            },
        },
    }
}

/// Whether a line is a row of a table.
pub open spec fn is_row(line: Seq<char>) -> bool {
    text::trim_of(line).contains('|')
}

/// The number of columns of the table that begins with the first of `lines`: it
/// holds a pipe, a separator row follows, and both have as many columns.
pub open spec fn table_columns(lines: Seq<Seq<char>>) -> Option<int> {
    if lines.len() < 2 || !lines[0].contains('|') {
        None
    } else {
        match table::separator_columns(lines[1]) {
            Some(n) => if table::row_cells(lines[0]).len() == n {
                Some(n)
            } else {
                None
            },
            None => None,
        }
    }
}

// ---------------------------------------------------------------------------
// Blocks
// ---------------------------------------------------------------------------

/// The number of lines at the beginning of `lines` that `p` holds of.
pub open spec fn while_len(lines: Seq<Seq<char>>, p: spec_fn(Seq<char>) -> bool) -> int
    decreases lines.len(),
{
    if lines.len() > 0 && p(lines[0]) {
        1 + while_len(lines.skip(1), p)
    } else {
        0
    }
}

/// The lines of a code block, up to the one that closes it.
pub open spec fn code_len(lines: Seq<Seq<char>>) -> int {
    while_len(lines, |l: Seq<char>| !closes_code(l))
}

/// The task lines at the beginning of `lines`.
pub open spec fn tasks_len(lines: Seq<Seq<char>>) -> int {
    while_len(lines, |l: Seq<char>| is_task(l))
}

/// The lines at the beginning of `lines` that go on with a bullet list.
pub open spec fn bullets_len(lines: Seq<Seq<char>>) -> int {
    while_len(lines, |l: Seq<char>| continues_bullets(l))
}

/// The ordered lines at the beginning of `lines`.
pub open spec fn ordered_len(lines: Seq<Seq<char>>) -> int {
    while_len(lines, |l: Seq<char>| is_ordered(l))
}

/// The lines at the beginning of `lines` that go on with a quote.
pub open spec fn quote_len(lines: Seq<Seq<char>>) -> int {
    while_len(lines, |l: Seq<char>| continues_quote(l))
}

/// The table rows at the beginning of `lines`.
pub open spec fn rows_len(lines: Seq<Seq<char>>) -> int {
    while_len(lines, |l: Seq<char>| is_row(l))
}

pub proof fn lemma_while_len(lines: Seq<Seq<char>>, p: spec_fn(Seq<char>) -> bool)
    ensures
        0 <= while_len(lines, p) <= lines.len(),
    decreases lines.len(),
{
    if lines.len() > 0 && p(lines[0]) {
        lemma_while_len(lines.skip(1), p);
    }
}

/// A paragraph with the text, or an empty one.
pub open spec fn paragraph(s: Seq<char>, items: Map<int, Seq<char>>) -> XmlTree {
    rich_text::bare(
        "paragraph"@,
        if s.len() > 0 {
            content::inline_nodes(s, items)
        } else {
            seq![]
        },
    )
}

pub open spec fn list_item(s: Seq<char>, items: Map<int, Seq<char>>) -> XmlTree {
    rich_text::bare("listItem"@, seq![paragraph(s, items)])
}

pub open spec fn bool_text(b: bool) -> Seq<char> {
    if b {
        "true"@
    } else {
        "false"@
    }
}

pub open spec fn task_node(t: (Seq<char>, bool), items: Map<int, Seq<char>>) -> XmlTree {
    rich_text::with_attr("taskItem"@, "checked"@, bool_text(t.1), seq![paragraph(t.0, items)])
}

pub open spec fn cell_node(s: Seq<char>, header: bool, items: Map<int, Seq<char>>) -> XmlTree {
    rich_text::bare(
        if header {
            "tableHeader"@
        } else {
            "tableCell"@
        },
        seq![paragraph(s, items)],
    )
}

/// The text of a cell, which is empty where the row has no such cell.
pub open spec fn cell_text(cells: Seq<Seq<char>>, i: int) -> Seq<char> {
    if 0 <= i < cells.len() {
        cells[i]
    } else {
        seq![]
    }
}

/// A row of `cols` cells: of more only the first, and empty ones where there are
/// fewer.
pub open spec fn row_node(
    cells: Seq<Seq<char>>,
    cols: int,
    header: bool,
    items: Map<int, Seq<char>>,
) -> XmlTree {
    rich_text::bare(
        "tableRow"@,
        Seq::new(cols as nat, |i: int| cell_node(cell_text(cells, i), header, items)),
    )
}

/// The items of a task list.
pub open spec fn task_nodes(lines: Seq<Seq<char>>, items: Map<int, Seq<char>>) -> Seq<XmlTree> {
    lines.map_values(|l: Seq<char>| task_node(task_item(l), items))
}

/// The items of a bullet list.
pub open spec fn bullet_nodes(lines: Seq<Seq<char>>, items: Map<int, Seq<char>>) -> Seq<XmlTree> {
    lines.map_values(|l: Seq<char>| list_item(bullet_text(l), items))
}

/// The items of an ordered list.
pub open spec fn ordered_nodes(lines: Seq<Seq<char>>, items: Map<int, Seq<char>>) -> Seq<XmlTree> {
    lines.map_values(|l: Seq<char>| list_item(ordered_text(l), items))
}

/// The paragraphs of the further lines of a quote.
pub open spec fn quote_nodes(lines: Seq<Seq<char>>, items: Map<int, Seq<char>>) -> Seq<XmlTree> {
    lines.map_values(|l: Seq<char>| paragraph(further_quote_text(l), items))
}

/// The data rows of a table.
pub open spec fn row_nodes(
    lines: Seq<Seq<char>>,
    cols: int,
    items: Map<int, Seq<char>>,
) -> Seq<XmlTree> {
    lines.map_values(|l: Seq<char>| row_node(table::row_cells(l), cols, false, items))
}

pub open spec fn heading_node(level: int, s: Seq<char>, items: Map<int, Seq<char>>) -> XmlTree {
    rich_text::with_attr(
        "heading"@,
        "level"@,
        text::decimal(level as nat),
        content::inline_nodes(s, items),
    )
}

/// A code block with its language, if it has one, and its lines.
pub open spec fn code_node(language: Seq<char>, body: Seq<Seq<char>>) -> XmlTree {
    let code = text::join_of(body, "\n"@);
    let children = if code.len() > 0 {
        seq![XmlTree::Text(rich_text::plain_glyphs(code))]
    } else {
        seq![]
    };
    if language.len() > 0 {
        rich_text::with_attr("codeBlock"@, "language"@, language, children)
    } else {
        rich_text::bare("codeBlock"@, children)
    }
}

/// The block with which `lines` begin, and the number of lines that it takes.
/// The first line is not blank.
pub open spec fn first_block(lines: Seq<Seq<char>>, items: Map<int, Seq<char>>) -> (XmlTree, int) {
    let line = lines[0];
    let rest = lines.skip(1);
    if let Some((level, s)) = heading(line) {
        (heading_node(level, s, items), 1)
    } else if opens_code(line) {
        let k = code_len(rest);
        (
            code_node(code_language(line), rest.take(k)),
            if k < rest.len() {
                k + 2
            } else {
                k + 1
            },
        )
    } else if is_task(line) {
        let k = 1 + tasks_len(rest);
        (
            rich_text::bare("taskList"@, task_nodes(lines.take(k), items)),
            k,
        )
    } else if opens_bullets(line) {
        let k = 1 + bullets_len(rest);
        (
            rich_text::bare("bulletList"@, bullet_nodes(lines.take(k), items)),
            k,
        )
    } else if is_ordered(line) {
        let k = 1 + ordered_len(rest);
        (
            rich_text::with_attr("orderedList"@, "start"@, "1"@, ordered_nodes(lines.take(k), items)),
            k,
        )
    } else if opens_quote(line) {
        let k = quote_len(rest);
        (
            rich_text::bare(
                "blockquote"@,
                seq![paragraph(quote_text(line), items)] + quote_nodes(rest.take(k), items),
            ),
            k + 1,
        )
    } else if let Some(cols) = table_columns(lines) {
        let k = rows_len(lines.skip(2));
        (
            rich_text::bare(
                "table"@,
                seq![row_node(table::row_cells(line), cols, true, items)] + row_nodes(
                    lines.skip(2).take(k),
                    cols,
                    items,
                ),
            ),
            k + 2,
        )
    } else if let Some((alt, src)) = lone_image(line) {
        (content::image_tree(src, alt), 1)
    } else {
        (rich_text::bare("paragraph"@, content::inline_nodes(line, items)), 1)
    }
}

/// The blocks of the lines. Blank lines between blocks count for nothing.
pub open spec fn blocks_of(lines: Seq<Seq<char>>, items: Map<int, Seq<char>>) -> Seq<XmlTree>
    decreases lines.len(),
{
    if lines.len() == 0 {
        seq![]
    } else if text::trim_of(lines[0]).len() == 0 {
        blocks_of(lines.skip(1), items)
    } else {
        let (block, n) = first_block(lines, items);
        if 0 < n <= lines.len() {
            seq![block] + blocks_of(lines.skip(n), items)
        } else {
            seq![block]
        }
    }
}

/// The blocks of a Markdown text.
pub open spec fn markdown_blocks(s: Seq<char>, items: Map<int, Seq<char>>) -> Seq<XmlTree> {
    blocks_of(text::lines_of(s), items)
}

/// How many levels the blocks of a Markdown text have: a table, its rows, their cells, the
/// paragraphs in them and what stands there.
pub const BLOCK_LEVELS: u32 = 5;

proof fn lemma_inline_levels(s: Seq<char>, items: Map<int, Seq<char>>)
    ensures
        all_within(content::inline_nodes(s, items), 1),
{
    content::lemma_embeds_levels(crate::markdown::segment::inline_segments(s), items);
}

/// A paragraph has two levels.
proof fn lemma_paragraph_levels(s: Seq<char>, items: Map<int, Seq<char>>)
    ensures
        within(paragraph(s, items), 2),
{
    lemma_inline_levels(s, items);
}

/// An element that holds one paragraph has three levels.
proof fn lemma_holder_levels(s: Seq<char>, items: Map<int, Seq<char>>)
    ensures
        all_within(seq![paragraph(s, items)], 2),
        within(list_item(s, items), 3),
        within(task_node((s, true), items), 3),
        within(task_node((s, false), items), 3),
        within(cell_node(s, true, items), 3),
        within(cell_node(s, false, items), 3),
{
    lemma_paragraph_levels(s, items);
    assert(all_within(seq![paragraph(s, items)], 2));
}

proof fn lemma_row_levels(
    cells: Seq<Seq<char>>,
    cols: int,
    header: bool,
    items: Map<int, Seq<char>>,
)
    ensures
        within(row_node(cells, cols, header, items), 4),
{
    let kids = Seq::new(cols as nat, |i: int| cell_node(cell_text(cells, i), header, items));
    assert forall|i: int| 0 <= i < kids.len() implies within(#[trigger] kids[i], 3) by {
        lemma_holder_levels(cell_text(cells, i), items);
    }
    assert(all_within(kids, 3));
}

proof fn lemma_first_block_levels(lines: Seq<Seq<char>>, items: Map<int, Seq<char>>)
    ensures
        within(first_block(lines, items).0, BLOCK_LEVELS as int),
{
    let line = lines[0];
    let rest = lines.skip(1);
    let n = first_block(lines, items).0;
    let kids = n->children;
    if let Some((level, s)) = heading(line) {
        lemma_inline_levels(s, items);
        lemma_within_more(kids, 1, 4);
    } else if opens_code(line) {
        assert(all_within(kids, 4));
    } else if is_task(line) {
        assert forall|i: int| 0 <= i < kids.len() implies within(#[trigger] kids[i], 3) by {
            let t = task_item(lines.take(1 + tasks_len(rest))[i]);
            lemma_holder_levels(t.0, items);
        }
        lemma_within_more(kids, 3, 4);
    } else if opens_bullets(line) {
        assert forall|i: int| 0 <= i < kids.len() implies within(#[trigger] kids[i], 3) by {
            lemma_holder_levels(bullet_text(lines.take(1 + bullets_len(rest))[i]), items);
        }
        lemma_within_more(kids, 3, 4);
    } else if is_ordered(line) {
        assert forall|i: int| 0 <= i < kids.len() implies within(#[trigger] kids[i], 3) by {
            lemma_holder_levels(ordered_text(lines.take(1 + ordered_len(rest))[i]), items);
        }
        lemma_within_more(kids, 3, 4);
    } else if opens_quote(line) {
        assert forall|i: int| 0 <= i < kids.len() implies within(#[trigger] kids[i], 2) by {
            if i == 0 {
                lemma_paragraph_levels(quote_text(line), items);
            } else {
                lemma_paragraph_levels(
                    further_quote_text(rest.take(quote_len(rest))[i - 1]),
                    items,
                );
            }
        }
        lemma_within_more(kids, 2, 4);
    } else if let Some(cols) = table_columns(lines) {
        let data = lines.skip(2).take(rows_len(lines.skip(2)));
        assert forall|i: int| 0 <= i < kids.len() implies within(#[trigger] kids[i], 4) by {
            if i == 0 {
                lemma_row_levels(table::row_cells(line), cols, true, items);
            } else {
                lemma_row_levels(table::row_cells(data[i - 1]), cols, false, items);
            }
        }
    } else if let Some((alt, src)) = lone_image(line) {
        assert(all_within(kids, 4));
    } else {
        lemma_inline_levels(line, items);
        lemma_within_more(kids, 1, 4);
    }
}

proof fn lemma_blocks_of_levels(lines: Seq<Seq<char>>, items: Map<int, Seq<char>>)
    ensures
        all_within(blocks_of(lines, items), BLOCK_LEVELS as int),
    decreases lines.len(),
{
    if lines.len() == 0 {
    } else if text::trim_of(lines[0]).len() == 0 {
        lemma_blocks_of_levels(lines.skip(1), items);
    } else {
        let (block, n) = first_block(lines, items);
        lemma_first_block_levels(lines, items);
        if 0 < n <= lines.len() {
            lemma_blocks_of_levels(lines.skip(n), items);
            let more = blocks_of(lines.skip(n), items);
            let all = blocks_of(lines, items);
            assert forall|i: int| 0 <= i < all.len() implies within(
                #[trigger] all[i],
                BLOCK_LEVELS as int,
            ) by {
                if i > 0 {
                    assert(all[i] == more[i - 1]);
                }
            }
        }
    }
}

/// The blocks of a Markdown text are elements and text on a few levels.
pub proof fn lemma_markdown_levels(s: Seq<char>, items: Map<int, Seq<char>>)
    ensures
        all_within(markdown_blocks(s, items), BLOCK_LEVELS as int),
{
    lemma_blocks_of_levels(text::lines_of(s), items);
}

/// There are no more blocks than lines.
proof fn lemma_blocks_of_len(lines: Seq<Seq<char>>, items: Map<int, Seq<char>>)
    ensures
        blocks_of(lines, items).len() <= lines.len(),
    decreases lines.len(),
{
    if lines.len() == 0 {
    } else if text::trim_of(lines[0]).len() == 0 {
        lemma_blocks_of_len(lines.skip(1), items);
    } else {
        let (block, n) = first_block(lines, items);
        if 0 < n <= lines.len() {
            lemma_blocks_of_len(lines.skip(n), items);
        }
    }
}

/// There are no more blocks than characters.
pub proof fn lemma_blocks_len(s: Seq<char>, items: Map<int, Seq<char>>)
    ensures
        markdown_blocks(s, items).len() <= s.len(),
{
    lemma_blocks_of_len(text::lines_of(s), items);
    text::lemma_lines_len(s);
}

// ---------------------------------------------------------------------------
// Reading lines
// ---------------------------------------------------------------------------

proof fn lemma_while_step(lines: Seq<Seq<char>>, j: int, p: spec_fn(Seq<char>) -> bool)
    requires
        0 <= j < lines.len(),
    ensures
        while_len(lines.skip(j), p) == if p(lines[j]) {
            1 + while_len(lines.skip(j + 1), p)
        } else {
            0
        },
{
    assert(lines.skip(j).skip(1) =~= lines.skip(j + 1));
}

fn heading_in<'a>(line: &'a [char]) -> (r: Option<(u8, &'a [char])>)
    ensures
        match r {
            Some((level, s)) => heading(line@) == Some((level as int, s@)),
            None => heading(line@) is None,
        },
{
    let t = text::trim(line);
    let mut level: usize = 0;
    assert(t@.skip(0) =~= t@);
    while level < t.len() && t[level] == '#'
        invariant
            level <= t.len(),
            hashes(t@) == level + hashes(t@.skip(level as int)),
        decreases t.len() - level,
    {
        assert(t@.skip(level as int).skip(1) =~= t@.skip(level + 1));
        level = level + 1;
    }
    if level == 0 || level > 6 {
        return None;
    }
    let rest = slice_subrange(t, level, t.len());
    assert(rest@ =~= t@.skip(level as int));
    if rest.len() > 0 && rest[0] != ' ' {
        return None;
    }
    Some((level as u8, text::trim_start(rest)))
}

/// Parses a line as a heading. Gives the level and the text.
pub fn try_parse_heading_line(line: &str) -> (r: Option<(u8, String)>)
    ensures
        match r {
            Some((level, s)) => heading(line@) == Some((level as int, s@)),
            None => heading(line@) is None,
        },
{
    let chars = text::to_chars(line);
    match heading_in(chars.as_slice()) {
        Some((level, s)) => Some((level, text::to_text(s))),
        None => None,
    }
}

fn task_in(line: &[char]) -> (r: bool)
    ensures
        r == is_task(line@),
{
    let t = text::trim(line);
    text::starts_with(t, "- [ ] ") || text::starts_with(t, "- [x] ") || text::starts_with(
        t,
        "- [X] ",
    ) || text::equals(t, "- [ ]") || text::equals(t, "- [x]") || text::equals(t, "- [X]")
}

/// Whether a line is a task list item: `- [ ]`, `- [x]` or `- [X]`.
pub fn is_task_list_start(line: &str) -> (r: bool)
    ensures
        r == is_task(line@),
{
    let chars = text::to_chars(line);
    task_in(chars.as_slice())
}

fn task_item_in<'a>(line: &'a [char]) -> (r: (&'a [char], bool))
    ensures
        (r.0@, r.1) == task_item(line@),
{
    let t = text::trim(line);
    if let Some(rest) = text::strip_prefix(t, "- [ ] ") {
        return (rest, false);
    }
    if let Some(rest) = text::strip_prefix(t, "- [x] ") {
        return (rest, true);
    }
    if let Some(rest) = text::strip_prefix(t, "- [X] ") {
        return (rest, true);
    }
    let nothing = slice_subrange(t, 0, 0);
    assert(nothing@ =~= seq![]);
    if text::equals(t, "- [ ]") {
        (nothing, false)
    } else if text::equals(t, "- [x]") || text::equals(t, "- [X]") {
        (nothing, true)
    } else {
        (t, false)
    }
}

/// The text and the checked state of a task list line.
pub fn extract_task_item(line: &str) -> (r: (String, bool))
    ensures
        (r.0@, r.1) == task_item(line@),
{
    let chars = text::to_chars(line);
    let (s, checked) = task_item_in(chars.as_slice());
    (text::to_text(s), checked)
}

fn after_bullet_in<'a>(t: &'a [char]) -> (r: Option<&'a [char]>)
    ensures
        text::opt_slice(r) == after_bullet(t@),
{
    match text::strip_prefix(t, "- ") {
        Some(rest) => Some(rest),
        None => text::strip_prefix(t, "* "),
    }
}

fn bullet_text_in<'a>(line: &'a [char]) -> (r: &'a [char])
    ensures
        r@ == bullet_text(line@),
{
    let t = text::trim(line);
    match after_bullet_in(t) {
        Some(rest) => rest,
        None => t,
    }
}

fn ordered_in(line: &[char]) -> (r: bool)
    ensures
        r == is_ordered(line@),
{
    let t = text::trim(line);
    match text::find(t, ". ") {
        Some(dot) => {
            let prefix = slice_subrange(t, 0, dot);
            assert(prefix@ =~= t@.take(dot as int));
            dot > 0 && text::are_digits(prefix)
        },
        None => false,
    }
}

/// Whether a line is an ordered list item: `1. `, `2. `, `10. ` and so on.
pub fn is_ordered_list_start(line: &str) -> (r: bool)
    ensures
        r == is_ordered(line@),
{
    let chars = text::to_chars(line);
    ordered_in(chars.as_slice())
}

fn ordered_text_in<'a>(line: &'a [char]) -> (r: &'a [char])
    ensures
        r@ == ordered_text(line@),
{
    let t = text::trim(line);
    match text::find(t, ". ") {
        Some(dot) => {
            if !ordered_in(line) {
                return t;
            }
            proof {
                reveal_strlit(". ");
            }
            let n: usize = t.len();
            assert(t@.skip(dot + 2) =~= t@.subrange(dot + 2, n as int));
            slice_subrange(t, dot + 2, n)
        },
        None => t,
    }
}

/// The text of an ordered list line.
pub fn extract_ordered_list_text(line: &str) -> (r: String)
    ensures
        r@ == ordered_text(line@),
{
    let chars = text::to_chars(line);
    text::to_text(ordered_text_in(chars.as_slice()))
}

fn quote_text_in<'a>(line: &'a [char]) -> (r: &'a [char])
    ensures
        r@ == quote_text(line@),
{
    let t = text::trim(line);
    if let Some(rest) = text::strip_prefix(t, "> ") {
        return rest;
    }
    if let Some(rest) = text::strip_prefix(t, ">") {
        return rest;
    }
    t
}

fn further_quote_text_in<'a>(line: &'a [char]) -> (r: &'a [char])
    ensures
        r@ == further_quote_text(line@),
{
    let t = text::trim(line);
    match text::strip_prefix(t, "> ") {
        Some(rest) => rest,
        None => {
            let nothing = slice_subrange(t, 0, 0);
            assert(nothing@ =~= seq![]);
            nothing
        },
    }
}

fn lone_image_in<'a>(line: &'a [char]) -> (r: Option<(&'a [char], &'a [char])>)
    ensures
        crate::markdown::segment::pair_view(r) == lone_image(line@),
{
    let t = text::trim(line);
    match text::strip_prefix(t, "![") {
        None => None,
        Some(rest) => match text::find(rest, "](") {
            None => None,
            Some(close) => {
                proof {
                    reveal_strlit("](");
                }
                let n: usize = rest.len();
                let alt = slice_subrange(rest, 0, close);
                let tail = slice_subrange(rest, close + 2, n);
                assert(alt@ =~= rest@.take(close as int));
                assert(tail@ =~= rest@.skip(close + 2));
                let m: usize = tail.len();
                if m == 0 || tail[m - 1] != ')' {
                    return None;
                }
                let src = slice_subrange(tail, 0, m - 1);
                assert(src@ =~= tail@.drop_last());
                if text::contains_char(alt, '[') || text::contains_char(alt, ']') || src.len() == 0
                    || text::contains_char(src, ')') || text::contains_char(src, '(') {
                    return None;
                }
                Some((alt, src))
            },
        },
    }
}

/// A line that is exactly one markdown image `![alt](src)`. Gives `(alt, src)`.
pub fn try_parse_standalone_image(line: &str) -> (r: Option<(String, String)>)
    ensures
        match r {
            Some((alt, src)) => lone_image(line@) == Some((alt@, src@)),
            None => lone_image(line@) is None,
        },
{
    let chars = text::to_chars(line);
    match lone_image_in(chars.as_slice()) {
        Some((alt, src)) => Some((text::to_text(alt), text::to_text(src))),
        None => None,
    }
}

// ---------------------------------------------------------------------------
// Building blocks
// ---------------------------------------------------------------------------

fn paragraph_of(s: &[char], resolver: Option<ItemResolver<'_>>) -> (r: XmlNode)
    ensures
        r@ == paragraph(s@, content::resolver_view(resolver)),
{
    if s.len() > 0 {
        rich_text::bare_element("paragraph", content::line_nodes(s, resolver))
    } else {
        let none: Vec<XmlNode> = Vec::new();
        assert(rich_text::nodes_tree(none@) =~= seq![]);
        rich_text::bare_element("paragraph", none)
    }
}

fn list_item_of(s: &[char], resolver: Option<ItemResolver<'_>>) -> (r: XmlNode)
    ensures
        r@ == list_item(s@, content::resolver_view(resolver)),
{
    rich_text::bare_element("listItem", rich_text::one_node(paragraph_of(s, resolver)))
}

fn task_item_of(line: &[char], resolver: Option<ItemResolver<'_>>) -> (r: XmlNode)
    ensures
        r@ == task_node(task_item(line@), content::resolver_view(resolver)),
{
    let (s, checked) = task_item_in(line);
    let value = if checked {
        "true".to_owned()
    } else {
        "false".to_owned()
    };
    let inner = rich_text::one_node(paragraph_of(s, resolver));
    rich_text::element_with_attr("taskItem", "checked", value, inner)
}

fn row_of(
    cells: &Vec<String>,
    cols: usize,
    header: bool,
    resolver: Option<ItemResolver<'_>>,
) -> (r: XmlNode)
    ensures
        r@ == row_node(
            text::texts(cells@),
            cols as int,
            header,
            content::resolver_view(resolver),
        ),
{
    let ghost items = content::resolver_view(resolver);
    let ghost texts = text::texts(cells@);
    let mut out: Vec<XmlNode> = Vec::new();
    let mut i: usize = 0;
    while i < cols
        invariant
            i <= cols,
            items == content::resolver_view(resolver),
            texts == text::texts(cells@),
            out@.len() == i,
            forall|k: int|
                0 <= k < i ==> (#[trigger] out@[k])@ == cell_node(
                    cell_text(texts, k),
                    header,
                    items,
                ),
        decreases cols - i,
    {
        let chars: Vec<char> = if i < cells.len() {
            text::to_chars(cells[i].as_str())
        } else {
            Vec::new()
        };
        let inner = rich_text::one_node(paragraph_of(chars.as_slice(), resolver));
        assert(i >= cells.len() ==> chars@ =~= seq![]);
        let tag = if header {
            "tableHeader"
        } else {
            "tableCell"
        };
        out.push(rich_text::bare_element(tag, inner));
        i = i + 1;
    }
    assert(rich_text::nodes_tree(out@) =~= row_node(texts, cols as int, header, items)->Element_children);
    rich_text::bare_element("tableRow", out)
}

/// The lines from `at` on.
pub open spec fn lines_from(lines: Seq<&[char]>, at: int) -> Seq<Seq<char>> {
    text::slices(lines).skip(at)
}

fn code_block(lines: &Vec<&[char]>, at: usize) -> (r: (XmlNode, usize))
    requires
        at < lines@.len(),
    ensures
        ({
            let rest = lines_from(lines@, at + 1);
            let k = code_len(rest);
            &&& r.0@ == code_node(code_language(lines@[at as int]@), rest.take(k))
            &&& r.1 == (if k < rest.len() {
                k + 2
            } else {
                k + 1
            })
            &&& at + r.1 <= lines@.len()
        }),
{
    let ghost all = text::slices(lines@);
    let ghost rest = lines_from(lines@, at + 1);
    let ghost p = |l: Seq<char>| !closes_code(l);
    let n: usize = lines.len();
    let language = match text::strip_prefix(text::trim(lines[at]), "```") {
        Some(tail) => text::to_text(text::trim(tail)),
        None => String::new(),
    };
    let mut body: Vec<&[char]> = Vec::new();
    let mut i: usize = at + 1;
    let mut closed = false;
    assert(all.subrange(at + 1, at + 1) =~= seq![]);
    assert(text::slices(body@) =~= seq![]);
    while i < n && !closed
        invariant
            at < i <= n,
            n == lines@.len(),
            all == text::slices(lines@),
            p == (|l: Seq<char>| !closes_code(l)),
            rest == all.skip(at + 1),
            text::slices(body@) == all.subrange(at + 1, i as int),
            code_len(rest) == (i - at - 1) + (if closed {
                0
            } else {
                while_len(all.skip(i as int), p)
            }),
            closed ==> i < n,
        decreases n - i,
            (if closed {
                0int
            } else {
                1
            }),
    {
        proof {
            lemma_while_step(all, i as int, p);
        }
        if text::equals(text::trim(lines[i]), "```") {
            closed = true;
        } else {
            let ghost before = text::slices(body@);
            body.push(lines[i]);
            assert(text::slices(body@) =~= before.push(all[i as int]));
            assert(all.subrange(at + 1, i + 1) =~= all.subrange(at + 1, i as int).push(
                all[i as int],
            ));
            i = i + 1;
        }
    }
    let code = text::join_slices(&body, "\n");
    proof {
        if !closed {
            assert(while_len(all.skip(n as int), p) == 0);
        }
        assert(rest.take(code_len(rest)) =~= all.subrange(at + 1, i as int));
    }
    let children = if code.as_str().is_empty() {
        let none: Vec<XmlNode> = Vec::new();
        assert(rich_text::nodes_tree(none@) =~= seq![]);
        none
    } else {
        rich_text::one_node(rich_text::plain_text(code))
    };
    let used: usize = if closed {
        i - at + 1
    } else {
        i - at
    };
    if language.as_str().is_empty() {
        (rich_text::bare_element("codeBlock", children), used)
    } else {
        (rich_text::element_with_attr("codeBlock", "language", language, children), used)
    }
}

fn task_list(lines: &Vec<&[char]>, at: usize, resolver: Option<ItemResolver<'_>>) -> (r: (
    XmlNode,
    usize,
))
    requires
        at < lines@.len(),
    ensures
        r.1 == 1 + tasks_len(lines_from(lines@, at + 1)),
        r.0@ == rich_text::bare(
            "taskList"@,
            task_nodes(
                lines_from(lines@, at as int).take(r.1 as int),
                content::resolver_view(resolver),
            ),
        ),
        at + r.1 <= lines@.len(),
{
    let ghost all = text::slices(lines@);
    let ghost items = content::resolver_view(resolver);
    let ghost p = |l: Seq<char>| is_task(l);
    let n: usize = lines.len();
    let mut out = rich_text::one_node(task_item_of(lines[at], resolver));
    let mut i: usize = at + 1;
    assert(task_nodes(all.subrange(at as int, i as int), items) =~= rich_text::nodes_tree(out@));
    while i < n && task_in(lines[i])
        invariant
            at < i <= n,
            n == lines@.len(),
            all == text::slices(lines@),
            items == content::resolver_view(resolver),
            p == (|l: Seq<char>| is_task(l)),
            rich_text::nodes_tree(out@) == task_nodes(all.subrange(at as int, i as int), items),
            tasks_len(all.skip(at + 1)) == (i - at - 1) + while_len(all.skip(i as int), p),
        decreases n - i,
    {
        proof {
            lemma_while_step(all, i as int, p);
        }
        let node = task_item_of(lines[i], resolver);
        proof {
            rich_text::lemma_nodes_push(out@, node);
        }
        out.push(node);
        i = i + 1;
        assert(task_nodes(all.subrange(at as int, i as int), items) =~= task_nodes(
            all.subrange(at as int, i - 1),
            items,
        ).push(node@));
    }
    proof {
        if i < n {
            lemma_while_step(all, i as int, p);
        }
        assert(lines_from(lines@, at as int).take(i - at) =~= all.subrange(at as int, i as int));
    }
    (rich_text::bare_element("taskList", out), i - at)
}

fn bullet_list(lines: &Vec<&[char]>, at: usize, resolver: Option<ItemResolver<'_>>) -> (r: (
    XmlNode,
    usize,
))
    requires
        at < lines@.len(),
    ensures
        r.1 == 1 + bullets_len(lines_from(lines@, at + 1)),
        r.0@ == rich_text::bare(
            "bulletList"@,
            bullet_nodes(
                lines_from(lines@, at as int).take(r.1 as int),
                content::resolver_view(resolver),
            ),
        ),
        at + r.1 <= lines@.len(),
{
    let ghost all = text::slices(lines@);
    let ghost items = content::resolver_view(resolver);
    let ghost p = |l: Seq<char>| continues_bullets(l);
    let n: usize = lines.len();
    let mut out = rich_text::one_node(list_item_of(bullet_text_in(lines[at]), resolver));
    let mut i: usize = at + 1;
    assert(bullet_nodes(all.subrange(at as int, i as int), items) =~= rich_text::nodes_tree(out@));
    while i < n && !task_in(lines[i]) && after_bullet_in(text::trim(lines[i])).is_some()
        invariant
            at < i <= n,
            n == lines@.len(),
            all == text::slices(lines@),
            items == content::resolver_view(resolver),
            p == (|l: Seq<char>| continues_bullets(l)),
            rich_text::nodes_tree(out@) == bullet_nodes(all.subrange(at as int, i as int), items),
            bullets_len(all.skip(at + 1)) == (i - at - 1) + while_len(all.skip(i as int), p),
        decreases n - i,
    {
        proof {
            lemma_while_step(all, i as int, p);
        }
        let node = list_item_of(bullet_text_in(lines[i]), resolver);
        proof {
            rich_text::lemma_nodes_push(out@, node);
        }
        out.push(node);
        i = i + 1;
        assert(bullet_nodes(all.subrange(at as int, i as int), items) =~= bullet_nodes(
            all.subrange(at as int, i - 1),
            items,
        ).push(node@));
    }
    proof {
        if i < n {
            lemma_while_step(all, i as int, p);
        }
        assert(lines_from(lines@, at as int).take(i - at) =~= all.subrange(at as int, i as int));
    }
    (rich_text::bare_element("bulletList", out), i - at)
}

fn ordered_list(lines: &Vec<&[char]>, at: usize, resolver: Option<ItemResolver<'_>>) -> (r: (
    XmlNode,
    usize,
))
    requires
        at < lines@.len(),
    ensures
        r.1 == 1 + ordered_len(lines_from(lines@, at + 1)),
        r.0@ == rich_text::with_attr(
            "orderedList"@,
            "start"@,
            "1"@,
            ordered_nodes(
                lines_from(lines@, at as int).take(r.1 as int),
                content::resolver_view(resolver),
            ),
        ),
        at + r.1 <= lines@.len(),
{
    let ghost all = text::slices(lines@);
    let ghost items = content::resolver_view(resolver);
    let ghost p = |l: Seq<char>| is_ordered(l);
    let n: usize = lines.len();
    let mut out = rich_text::one_node(list_item_of(ordered_text_in(lines[at]), resolver));
    let mut i: usize = at + 1;
    assert(ordered_nodes(all.subrange(at as int, i as int), items) =~= rich_text::nodes_tree(out@));
    while i < n && ordered_in(lines[i])
        invariant
            at < i <= n,
            n == lines@.len(),
            all == text::slices(lines@),
            items == content::resolver_view(resolver),
            p == (|l: Seq<char>| is_ordered(l)),
            rich_text::nodes_tree(out@) == ordered_nodes(all.subrange(at as int, i as int), items),
            ordered_len(all.skip(at + 1)) == (i - at - 1) + while_len(all.skip(i as int), p),
        decreases n - i,
    {
        proof {
            lemma_while_step(all, i as int, p);
        }
        let node = list_item_of(ordered_text_in(lines[i]), resolver);
        proof {
            rich_text::lemma_nodes_push(out@, node);
        }
        out.push(node);
        i = i + 1;
        assert(ordered_nodes(all.subrange(at as int, i as int), items) =~= ordered_nodes(
            all.subrange(at as int, i - 1),
            items,
        ).push(node@));
    }
    proof {
        if i < n {
            lemma_while_step(all, i as int, p);
        }
        assert(lines_from(lines@, at as int).take(i - at) =~= all.subrange(at as int, i as int));
    }
    (rich_text::element_with_attr("orderedList", "start", "1".to_owned(), out), i - at)
}

fn blockquote(lines: &Vec<&[char]>, at: usize, resolver: Option<ItemResolver<'_>>) -> (r: (
    XmlNode,
    usize,
))
    requires
        at < lines@.len(),
    ensures
        ({
            let rest = lines_from(lines@, at + 1);
            let items = content::resolver_view(resolver);
            &&& r.1 == 1 + quote_len(rest)
            &&& r.0@ == rich_text::bare(
                "blockquote"@,
                seq![paragraph(quote_text(lines@[at as int]@), items)] + quote_nodes(
                    rest.take(quote_len(rest)),
                    items,
                ),
            )
            &&& at + r.1 <= lines@.len()
        }),
{
    let ghost all = text::slices(lines@);
    let ghost items = content::resolver_view(resolver);
    let ghost p = |l: Seq<char>| continues_quote(l);
    let n: usize = lines.len();
    let first = paragraph_of(quote_text_in(lines[at]), resolver);
    let ghost head = seq![first@];
    let mut out = rich_text::one_node(first);
    let mut i: usize = at + 1;
    assert(head + quote_nodes(all.subrange(at + 1, i as int), items) =~= head);
    let mut more = true;
    while i < n && more
        invariant
            at < i <= n,
            n == lines@.len(),
            all == text::slices(lines@),
            items == content::resolver_view(resolver),
            p == (|l: Seq<char>| continues_quote(l)),
            rich_text::nodes_tree(out@) == head + quote_nodes(all.subrange(at + 1, i as int), items),
            quote_len(all.skip(at + 1)) == (i - at - 1) + (if more {
                while_len(all.skip(i as int), p)
            } else {
                0
            }),
        decreases n - i,
            (if more {
                1int
            } else {
                0
            }),
    {
        proof {
            lemma_while_step(all, i as int, p);
        }
        let t = text::trim(lines[i]);
        if t.len() > 0 && t[0] == '>' {
            let node = paragraph_of(further_quote_text_in(lines[i]), resolver);
            proof {
                rich_text::lemma_nodes_push(out@, node);
            }
            out.push(node);
            i = i + 1;
            assert(head + quote_nodes(all.subrange(at + 1, i as int), items) =~= (head
                + quote_nodes(all.subrange(at + 1, i - 1), items)).push(node@));
        } else {
            more = false;
        }
    }
    assert(lines_from(lines@, at + 1).take(i - at - 1) =~= all.subrange(at + 1, i as int));
    (rich_text::bare_element("blockquote", out), i - at)
}

fn table_block(
    lines: &Vec<&[char]>,
    at: usize,
    header: &Vec<String>,
    cols: usize,
    resolver: Option<ItemResolver<'_>>,
) -> (r: (XmlNode, usize))
    requires
        at + 2 <= lines@.len(),
    ensures
        ({
            let rest = lines_from(lines@, at + 2);
            let items = content::resolver_view(resolver);
            &&& r.1 == 2 + rows_len(rest)
            &&& r.0@ == rich_text::bare(
                "table"@,
                seq![row_node(text::texts(header@), cols as int, true, items)] + row_nodes(
                    rest.take(rows_len(rest)),
                    cols as int,
                    items,
                ),
            )
            &&& at + r.1 <= lines@.len()
        }),
{
    let ghost all = text::slices(lines@);
    let ghost items = content::resolver_view(resolver);
    let ghost p = |l: Seq<char>| is_row(l);
    let n: usize = lines.len();
    let first = row_of(header, cols, true, resolver);
    let ghost head = seq![first@];
    let mut out = rich_text::one_node(first);
    let mut i: usize = at + 2;
    assert(head + row_nodes(all.subrange(at + 2, i as int), cols as int, items) =~= head);
    while i < n && text::contains_char(text::trim(lines[i]), '|')
        invariant
            at + 2 <= i <= n,
            n == lines@.len(),
            all == text::slices(lines@),
            items == content::resolver_view(resolver),
            p == (|l: Seq<char>| is_row(l)),
            rich_text::nodes_tree(out@) == head + row_nodes(
                all.subrange(at + 2, i as int),
                cols as int,
                items,
            ),
            rows_len(all.skip(at + 2)) == (i - at - 2) + while_len(all.skip(i as int), p),
        decreases n - i,
    {
        proof {
            lemma_while_step(all, i as int, p);
        }
        let cells = table::split_row(lines[i]);
        let node = row_of(&cells, cols, false, resolver);
        proof {
            rich_text::lemma_nodes_push(out@, node);
        }
        out.push(node);
        i = i + 1;
        assert(head + row_nodes(all.subrange(at + 2, i as int), cols as int, items) =~= (head
            + row_nodes(all.subrange(at + 2, i - 1), cols as int, items)).push(node@));
    }
    proof {
        if i < n {
            lemma_while_step(all, i as int, p);
        }
        assert(lines_from(lines@, at + 2).take(i - at - 2) =~= all.subrange(at + 2, i as int));
    }
    (rich_text::bare_element("table", out), i - at)
}

fn block_at(lines: &Vec<&[char]>, at: usize, resolver: Option<ItemResolver<'_>>) -> (r: (
    XmlNode,
    usize,
))
    requires
        at < lines@.len(),
    ensures
        (r.0@, r.1 as int) == first_block(
            lines_from(lines@, at as int),
            content::resolver_view(resolver),
        ),
        0 < r.1,
        at + r.1 <= lines@.len(),
{
    let ghost all = lines_from(lines@, at as int);
    let line = lines[at];
    let n: usize = lines.len();
    proof {
        assert(all[0] == line@);
        assert(all.skip(1) =~= lines_from(lines@, at + 1));
        assert(at + 2 <= n ==> all.skip(2) =~= lines_from(lines@, at + 2));
        lemma_while_len(all.skip(1), |l: Seq<char>| !closes_code(l));
        lemma_while_len(all.skip(1), |l: Seq<char>| is_task(l));
        lemma_while_len(all.skip(1), |l: Seq<char>| continues_bullets(l));
        lemma_while_len(all.skip(1), |l: Seq<char>| is_ordered(l));
        lemma_while_len(all.skip(1), |l: Seq<char>| continues_quote(l));
        lemma_while_len(all.skip(2), |l: Seq<char>| is_row(l));
    }
    if let Some((level, s)) = heading_in(line) {
        let value = text::nat_text(level as u64);
        let inner = content::line_nodes(s, resolver);
        return (rich_text::element_with_attr("heading", "level", value, inner), 1);
    }
    if text::starts_with(text::trim_start(line), "```") {
        return code_block(lines, at);
    }
    if task_in(line) {
        return task_list(lines, at, resolver);
    }
    let start = text::trim_start(line);
    if text::starts_with(start, "- ") || text::starts_with(start, "* ") {
        return bullet_list(lines, at, resolver);
    }
    if ordered_in(line) {
        return ordered_list(lines, at, resolver);
    }
    if text::starts_with(start, "> ") || text::equals(text::trim(line), ">") {
        return blockquote(lines, at, resolver);
    }
    if text::contains_char(line, '|') && at + 1 < n {
        assert(all[1] == lines@[at + 1]@);
        if let Some(cols) = table::separator_in(lines[at + 1]) {
            let header = table::split_row(line);
            if header.len() == cols {
                assert(text::texts(header@).len() == cols);
                return table_block(lines, at, &header, cols, resolver);
            }
            assert(text::texts(header@).len() != cols);
        }
    }
    assert(table_columns(all) is None);
    if let Some((alt, src)) = lone_image_in(line) {
        let alt_text = if alt.len() > 0 {
            Some(text::to_text(alt))
        } else {
            assert(alt@ =~= seq![]);
            None
        };
        return (content::image_node(text::to_text(src), alt_text), 1);
    }
    (rich_text::bare_element("paragraph", content::line_nodes(line, resolver)), 1)
}

/// Parses a Markdown text into its blocks.
pub fn parse_blocks(text: &str, resolver: Option<ItemResolver<'_>>) -> (r: Vec<XmlNode>)
    ensures
        rich_text::nodes_tree(r@) == markdown_blocks(text@, content::resolver_view(resolver)),
{
    let chars = text::to_chars(text);
    let lines = text::lines(chars.as_slice());
    let ghost items = content::resolver_view(resolver);
    let ghost all = text::slices(lines@);
    let mut out: Vec<XmlNode> = Vec::new();
    let mut i: usize = 0;
    proof {
        assert(lines_from(lines@, 0) =~= all);
        assert(rich_text::nodes_tree(out@) =~= seq![]);
        assert(seq![] + blocks_of(all, items) =~= blocks_of(all, items));
    }
    while i < lines.len()
        invariant
            i <= lines@.len(),
            items == content::resolver_view(resolver),
            all == text::slices(lines@),
            rich_text::nodes_tree(out@) + blocks_of(lines_from(lines@, i as int), items)
                == blocks_of(all, items),
        decreases lines@.len() - i,
    {
        let ghost rest = lines_from(lines@, i as int);
        assert(rest[0] == lines@[i as int]@);
        if text::trim(lines[i]).len() == 0 {
            assert(rest.skip(1) =~= lines_from(lines@, i + 1));
            i = i + 1;
        } else {
            let ghost before = rich_text::nodes_tree(out@);
            let (node, n) = block_at(&lines, i, resolver);
            let ghost tree = node@;
            proof {
                rich_text::lemma_nodes_push(out@, node);
                assert(rest.skip(n as int) =~= lines_from(lines@, i + n));
            }
            out.push(node);
            i = i + n;
            assert(before + (seq![tree] + blocks_of(lines_from(lines@, i as int), items))
                =~= before.push(tree) + blocks_of(lines_from(lines@, i as int), items));
        }
    }
    assert(rich_text::nodes_tree(out@) + blocks_of(lines_from(lines@, i as int), items)
        =~= rich_text::nodes_tree(out@));
    out
}

} // verus!
