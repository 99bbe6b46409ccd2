//! What holds of the blocks of Markdown.

use vstd::prelude::*;

use crate::markdown::block::{
    self, blocks_of, first_block, is_ordered, is_task, lone_image, opens_bullets, opens_code,
    opens_quote, while_len,
};
use crate::markdown::content::inline_nodes;
use crate::rich_text::{AnyTree, Glyph, XmlTree};
use crate::text;

verus! {

/// Whether a text is there and has no white space at its ends.
pub open spec fn is_trim(s: Seq<char>) -> bool {
    s.len() > 0 && !text::is_white(s[0]) && !text::is_white(s.last())
}

proof fn lemma_trim(s: Seq<char>)
    requires
        is_trim(s),
    ensures
        text::trim_of(s) == s,
        text::trim_start_of(s) == s,
{
}

/// An element without attributes.
pub open spec fn element(tag: Seq<char>, children: Seq<XmlTree>) -> XmlTree {
    XmlTree::Element { tag, attrs: Map::empty(), children }
}

/// A paragraph with the nodes of a line of text.
pub open spec fn paragraph_of(s: Seq<char>, items: Map<int, Seq<char>>) -> XmlTree {
    element("paragraph"@, inline_nodes(s, items))
}

/// Just the first `k` lines are such that `p` holds of them all.
pub(crate) proof fn lemma_while(lines: Seq<Seq<char>>, p: spec_fn(Seq<char>) -> bool, k: int)
    requires
        0 <= k <= lines.len(),
        forall|i: int| 0 <= i < k ==> p(#[trigger] lines[i]),
        k < lines.len() ==> !p(lines[k]),
    ensures
        while_len(lines, p) == k,
    decreases k,
{
    if k > 0 {
        assert(p(lines[0]));
        let rest = lines.skip(1);
        assert forall|i: int| 0 <= i < k - 1 implies p(#[trigger] rest[i]) by {
            assert(rest[i] == lines[i + 1]);
        }
        lemma_while(rest, p, k - 1);
    }
}

proof fn lemma_prefix(p: Seq<char>, s: Seq<char>)
    requires
        p.len() > 0,
        p.is_prefix_of(s),
    ensures
        s.len() > 0,
        p[0] == s[0],
{
    assert(s.subrange(0, p.len() as int)[0] == s[0]);
}

/// What the first character of a line rules out.
pub(crate) proof fn lemma_first_char(line: Seq<char>)
    requires
        is_trim(line),
    ensures
        line[0] != '#' ==> block::heading(line) is None,
        line[0] != '`' ==> !opens_code(line),
        line[0] != '-' ==> !is_task(line),
        line[0] != '-' && line[0] != '*' ==> !opens_bullets(line),
        !text::is_digit(line[0]) ==> !is_ordered(line),
        line[0] != '>' ==> !opens_quote(line) && !block::continues_quote(line),
        line[0] != '!' ==> lone_image(line) is None,
{
    lemma_trim(line);
    reveal_strlit("```");
    reveal_strlit("- [ ] ");
    reveal_strlit("- [x] ");
    reveal_strlit("- [X] ");
    reveal_strlit("- [ ]");
    reveal_strlit("- [x]");
    reveal_strlit("- [X]");
    reveal_strlit("- ");
    reveal_strlit("* ");
    reveal_strlit("> ");
    reveal_strlit(">");
    reveal_strlit("![");
    if "```"@.is_prefix_of(line) {
        lemma_prefix("```"@, line);
    }
    if "- [ ] "@.is_prefix_of(line) {
        lemma_prefix("- [ ] "@, line);
    }
    if "- [x] "@.is_prefix_of(line) {
        lemma_prefix("- [x] "@, line);
    }
    if "- [X] "@.is_prefix_of(line) {
        lemma_prefix("- [X] "@, line);
    }
    if "- "@.is_prefix_of(line) {
        lemma_prefix("- "@, line);
    }
    if "* "@.is_prefix_of(line) {
        lemma_prefix("* "@, line);
    }
    if "> "@.is_prefix_of(line) {
        lemma_prefix("> "@, line);
    }
    if "!["@.is_prefix_of(line) {
        lemma_prefix("!["@, line);
    }
    assert("- [ ]"@[0] == '-' && "- [x]"@[0] == '-' && "- [X]"@[0] == '-');
    assert(">"@[0] == '>');
    if let Some(dot) = text::find_of(line, ". "@) {
        text::lemma_find_from(line, ". "@, 0);
        if dot > 0 {
            assert(line.take(dot)[0] == line[0]);
        }
    }
}

/// No text of a quote is lost: lines that each hold a text behind `>` and a space become a
/// blockquote with one paragraph for each line, in order, which holds the text of that
/// line. A line that does not begin with `>` ends the quote.
pub proof fn lemma_quote_kept(
    lines: Seq<Seq<char>>,
    s: Seq<Seq<char>>,
    items: Map<int, Seq<char>>,
)
    requires
        0 < s.len() <= lines.len(),
        forall|i: int|
            0 <= i < s.len() ==> is_trim(#[trigger] s[i]) && lines[i] == "> "@ + s[i],
        s.len() < lines.len() ==> !text::starts_with_char(
            text::trim_of(lines[s.len() as int]),
            '>',
        ),
    ensures
        first_block(lines, items) == (
            element("blockquote"@, s.map_values(|t: Seq<char>| paragraph_of(t, items))),
            s.len() as int,
        ),
{
    reveal_strlit("> ");
    let line = lines[0];
    let rest = lines.skip(1);
    let k = s.len() - 1;
    assert forall|i: int| 0 <= i < s.len() implies is_trim(#[trigger] lines[i]) && lines[i][0]
        == '>' && "> "@.is_prefix_of(lines[i]) && lines[i].skip(2) == s[i] by {
        assert(is_trim(s[i]));
        assert(lines[i].subrange(0, 2) =~= "> "@);
        assert(lines[i].skip(2) =~= s[i]);
    }
    assert(is_trim(s[0]));
    lemma_trim(line);
    lemma_first_char(line);
    assert forall|i: int| 0 <= i < k implies block::continues_quote(#[trigger] rest[i]) by {
        assert(rest[i] == lines[i + 1]);
        lemma_trim(lines[i + 1]);
    }
    lemma_while(rest, |l: Seq<char>| block::continues_quote(l), k);
    let kids = seq![block::paragraph(block::quote_text(line), items)] + block::quote_nodes(
        rest.take(k),
        items,
    );
    let want = s.map_values(|t: Seq<char>| paragraph_of(t, items));
    assert forall|i: int| 0 <= i < s.len() implies #[trigger] kids[i] == want[i] by {
        assert(is_trim(s[i]));
        if i > 0 {
            assert(rest.take(k)[i - 1] == lines[i]);
            lemma_trim(lines[i]);
        }
    }
    assert(kids =~= want);
}

/// A heading line, from one to six number signs, a space and a text, becomes a heading of
/// that level with that text.
pub proof fn lemma_heading_kept(
    lines: Seq<Seq<char>>,
    level: nat,
    s: Seq<char>,
    items: Map<int, Seq<char>>,
)
    requires
        lines.len() > 0,
        1 <= level <= 6,
        is_trim(s),
        lines[0] == Seq::new(level, |i: int| '#') + " "@ + s,
    ensures
        first_block(lines, items) == (
            XmlTree::Element {
                tag: "heading"@,
                attrs: Map::empty().insert("level"@, text::decimal(level)),
                children: inline_nodes(s, items),
            },
            1int,
        ),
{
    reveal_strlit(" ");
    let line = lines[0];
    assert(line[0] == '#');
    lemma_trim(line);
    lemma_hashes(line, level as int);
    let rest = line.skip(level as int);
    assert(rest =~= " "@ + s);
    assert(rest.skip(1) =~= s);
    lemma_trim(s);
    assert(text::is_white(rest[0]));
    assert(text::trim_start_of(rest) == text::trim_start_of(rest.skip(1)));
}

proof fn lemma_hashes(line: Seq<char>, n: int)
    requires
        0 <= n < line.len(),
        forall|i: int| 0 <= i < n ==> #[trigger] line[i] == '#',
        line[n] != '#',
    ensures
        block::hashes(line) == n,
    decreases n,
{
    if n > 0 {
        assert(line[0] == '#');
        let rest = line.skip(1);
        assert forall|i: int| 0 <= i < n - 1 implies #[trigger] rest[i] == '#' by {
            assert(rest[i] == line[i + 1]);
        }
        lemma_hashes(rest, n - 1);
    }
}

/// The characters of a text, all with the same marks.
pub open spec fn marked_with(g: Seq<Glyph>, s: Seq<char>, marks: Map<Seq<char>, AnyTree>) -> bool {
    &&& g.len() == s.len()
    &&& forall|i: int| 0 <= i < g.len() ==> (#[trigger] g[i]).ch == s[i] && g[i].marks == marks
}

/// What stands between two fences becomes a code block: its lines as they are, with line
/// feeds between them and without marks, and the language that the first fence names.
pub proof fn lemma_code_kept(
    lines: Seq<Seq<char>>,
    language: Seq<char>,
    k: int,
    items: Map<int, Seq<char>>,
)
    requires
        0 <= k,
        k + 2 <= lines.len(),
        language.len() == 0 || is_trim(language),
        lines[0] == "```"@ + language,
        forall|i: int| 0 < i <= k ==> text::trim_of(#[trigger] lines[i]) != "```"@,
        lines[k + 1] == "```"@,
    ensures
        first_block(lines, items).1 == k + 2,
        ({
            let code = text::join_of(lines.subrange(1, k + 1), "\n"@);
            match first_block(lines, items).0 {
                XmlTree::Element { tag, attrs, children } => {
                    &&& tag == "codeBlock"@
                    &&& attrs == (if language.len() > 0 {
                        Map::empty().insert("language"@, language)
                    } else {
                        Map::empty()
                    })
                    &&& code.len() == 0 ==> children.len() == 0
                    &&& code.len() > 0 ==> children.len() == 1 && children[0] is Text
                        && marked_with(children[0]->Text_0, code, Map::empty())
                },
                _ => false,
            }
        }),
{
    reveal_strlit("```");
    let line = lines[0];
    let rest = lines.skip(1);
    assert(line[0] == '`');
    assert(is_trim(line));
    lemma_trim(line);
    lemma_first_char(line);
    assert(line.subrange(0, 3) =~= "```"@);
    assert(opens_code(line));
    assert(line.skip(3) =~= language);
    if language.len() > 0 {
        lemma_trim(language);
    }
    assert(block::code_language(line) =~= language);
    assert forall|i: int| 0 <= i < k implies !block::closes_code(#[trigger] rest[i]) by {
        assert(rest[i] == lines[i + 1]);
    }
    assert(rest[k] == lines[k + 1]);
    lemma_trim("```"@);
    lemma_while(rest, |l: Seq<char>| !block::closes_code(l), k);
    assert(rest.take(k) =~= lines.subrange(1, k + 1));
}

/// A list item with one paragraph.
pub open spec fn item_of(s: Seq<char>, items: Map<int, Seq<char>>) -> XmlTree {
    element("listItem"@, seq![paragraph_of(s, items)])
}

/// Lines that each hold a text behind a dash and a space become a bullet list with one
/// item for each line, in order, with the text of that line. A text that begins with a
/// bracket might make a task of the line.
pub proof fn lemma_bullets_kept(
    lines: Seq<Seq<char>>,
    s: Seq<Seq<char>>,
    items: Map<int, Seq<char>>,
)
    requires
        0 < s.len() <= lines.len(),
        forall|i: int|
            0 <= i < s.len() ==> is_trim(#[trigger] s[i]) && s[i][0] != '[' && (lines[i] == "- "@
                + s[i] || lines[i] == "* "@ + s[i]),
        s.len() < lines.len() ==> !block::continues_bullets(lines[s.len() as int]),
    ensures
        first_block(lines, items) == (
            element("bulletList"@, s.map_values(|t: Seq<char>| item_of(t, items))),
            s.len() as int,
        ),
{
    reveal_strlit("- ");
    reveal_strlit("* ");
    let line = lines[0];
    let rest = lines.skip(1);
    let k = s.len() - 1;
    assert forall|i: int| 0 <= i < s.len() implies is_trim(#[trigger] lines[i])
        && block::continues_bullets(lines[i]) && block::bullet_text(lines[i]) == s[i] by {
        lemma_bullet(lines[i], s[i]);
    }
    assert(is_trim(lines[0]));
    lemma_trim(line);
    assert(line[0] == '-' || line[0] == '*');
    lemma_first_char(line);
    assert(opens_bullets(line));
    assert forall|i: int| 0 <= i < k implies block::continues_bullets(#[trigger] rest[i]) by {
        assert(rest[i] == lines[i + 1]);
    }
    lemma_while(rest, |l: Seq<char>| block::continues_bullets(l), k);
    let kids = block::bullet_nodes(lines.take(k + 1), items);
    let want = s.map_values(|t: Seq<char>| item_of(t, items));
    assert forall|i: int| 0 <= i < s.len() implies #[trigger] kids[i] == want[i] by {
        assert(is_trim(lines[i]));
        assert(lines.take(k + 1)[i] == lines[i]);
        assert(is_trim(s[i]));
    }
    assert(kids =~= want);
}

proof fn lemma_bullet(line: Seq<char>, s: Seq<char>)
    requires
        is_trim(s),
        s[0] != '[',
        line == "- "@ + s || line == "* "@ + s,
    ensures
        is_trim(line),
        block::continues_bullets(line),
        block::bullet_text(line) == s,
{
    reveal_strlit("- ");
    reveal_strlit("* ");
    reveal_strlit("- [ ] ");
    reveal_strlit("- [x] ");
    reveal_strlit("- [X] ");
    reveal_strlit("- [ ]");
    reveal_strlit("- [x]");
    reveal_strlit("- [X]");
    lemma_trim(line);
    assert(line[2] == s[0]);
    if "- [ ] "@.is_prefix_of(line) {
        assert(line.subrange(0, 6)[2] == '[');
    }
    if "- [x] "@.is_prefix_of(line) {
        assert(line.subrange(0, 6)[2] == '[');
    }
    if "- [X] "@.is_prefix_of(line) {
        assert(line.subrange(0, 6)[2] == '[');
    }
    assert("- [ ]"@[2] == '[' && "- [x]"@[2] == '[' && "- [X]"@[2] == '[');
    assert(!is_task(line));
    assert(line.subrange(0, 2) =~= "- "@ || line.subrange(0, 2) =~= "* "@);
    assert(line.skip(2) =~= s);
}

/// Lines that each hold a text behind a box become a task list with one item for each
/// line, in order: done where the box is checked, with the text of that line.
pub proof fn lemma_tasks_kept(
    lines: Seq<Seq<char>>,
    s: Seq<Seq<char>>,
    done: Seq<bool>,
    items: Map<int, Seq<char>>,
)
    requires
        0 < s.len() <= lines.len(),
        done.len() == s.len(),
        forall|i: int|
            0 <= i < s.len() ==> is_trim(#[trigger] s[i]) && lines[i] == (if done[i] {
                "- [x] "@
            } else {
                "- [ ] "@
            }) + s[i],
        s.len() < lines.len() ==> !is_task(lines[s.len() as int]),
    ensures
        first_block(lines, items) == (
            element(
                "taskList"@,
                Seq::new(
                    s.len(),
                    |i: int|
                        XmlTree::Element {
                            tag: "taskItem"@,
                            attrs: Map::empty().insert(
                                "checked"@,
                                if done[i] {
                                    "true"@
                                } else {
                                    "false"@
                                },
                            ),
                            children: seq![paragraph_of(s[i], items)],
                        },
                ),
            ),
            s.len() as int,
        ),
{
    let line = lines[0];
    let rest = lines.skip(1);
    let k = s.len() - 1;
    assert forall|i: int| 0 <= i < s.len() implies is_trim(#[trigger] lines[i]) && is_task(lines[i])
        && block::task_item(lines[i]) == (s[i], done[i]) && lines[i][0] == '-' by {
        lemma_task(lines[i], s[i], done[i]);
    }
    assert(is_trim(lines[0]));
    lemma_first_char(line);
    assert forall|i: int| 0 <= i < k implies is_task(#[trigger] rest[i]) by {
        assert(rest[i] == lines[i + 1]);
    }
    lemma_while(rest, |l: Seq<char>| is_task(l), k);
    let kids = block::task_nodes(lines.take(k + 1), items);
    let want = Seq::new(
        s.len(),
        |i: int|
            XmlTree::Element {
                tag: "taskItem"@,
                attrs: Map::empty().insert(
                    "checked"@,
                    if done[i] {
                        "true"@
                    } else {
                        "false"@
                    },
                ),
                children: seq![paragraph_of(s[i], items)],
            },
    );
    assert forall|i: int| 0 <= i < s.len() implies #[trigger] kids[i] == want[i] by {
        assert(is_trim(lines[i]));
        assert(lines.take(k + 1)[i] == lines[i]);
        assert(is_trim(s[i]));
    }
    assert(kids =~= want);
}

proof fn lemma_task(line: Seq<char>, s: Seq<char>, done: bool)
    requires
        is_trim(s),
        line == (if done {
            "- [x] "@
        } else {
            "- [ ] "@
        }) + s,
    ensures
        is_trim(line),
        line[0] == '-',
        is_task(line),
        block::task_item(line) == (s, done),
{
    reveal_strlit("- [ ] ");
    reveal_strlit("- [x] ");
    lemma_trim(line);
    assert(line.skip(6) =~= s);
    if done {
        assert(line.subrange(0, 6) =~= "- [x] "@);
        if "- [ ] "@.is_prefix_of(line) {
            assert(line.subrange(0, 6)[3] == ' ');
        }
    } else {
        assert(line.subrange(0, 6) =~= "- [ ] "@);
    }
}

/// Lines that each hold a text behind a number, a dot and a space become an ordered list
/// with one item for each line, in order, with the text of that line.
pub proof fn lemma_ordered_kept(
    lines: Seq<Seq<char>>,
    numbers: Seq<nat>,
    s: Seq<Seq<char>>,
    items: Map<int, Seq<char>>,
)
    requires
        0 < s.len() <= lines.len(),
        numbers.len() == s.len(),
        forall|i: int|
            0 <= i < s.len() ==> is_trim(#[trigger] s[i]) && lines[i] == text::decimal(numbers[i])
                + ". "@ + s[i],
        s.len() < lines.len() ==> !is_ordered(lines[s.len() as int]),
    ensures
        first_block(lines, items) == (
            XmlTree::Element {
                tag: "orderedList"@,
                attrs: Map::empty().insert("start"@, "1"@),
                children: s.map_values(|t: Seq<char>| item_of(t, items)),
            },
            s.len() as int,
        ),
{
    let line = lines[0];
    let rest = lines.skip(1);
    let k = s.len() - 1;
    assert forall|i: int| 0 <= i < s.len() implies is_trim(#[trigger] lines[i]) && is_ordered(
        lines[i],
    ) && block::ordered_text(lines[i]) == s[i] && text::is_digit(lines[i][0]) by {
        lemma_ordered(lines[i], numbers[i], s[i]);
    }
    assert(is_trim(lines[0]));
    assert(text::is_digit(line[0]));
    lemma_first_char(line);
    assert forall|i: int| 0 <= i < k implies is_ordered(#[trigger] rest[i]) by {
        assert(rest[i] == lines[i + 1]);
    }
    lemma_while(rest, |l: Seq<char>| is_ordered(l), k);
    let kids = block::ordered_nodes(lines.take(k + 1), items);
    let want = s.map_values(|t: Seq<char>| item_of(t, items));
    assert forall|i: int| 0 <= i < s.len() implies #[trigger] kids[i] == want[i] by {
        assert(is_trim(lines[i]));
        assert(lines.take(k + 1)[i] == lines[i]);
        assert(is_trim(s[i]));
    }
    assert(kids =~= want);
}

proof fn lemma_ordered(line: Seq<char>, n: nat, s: Seq<char>)
    requires
        is_trim(s),
        line == text::decimal(n) + ". "@ + s,
    ensures
        is_trim(line),
        text::is_digit(line[0]),
        is_ordered(line),
        block::ordered_text(line) == s,
{
    reveal_strlit(". ");
    let d = text::decimal(n);
    text::lemma_decimal(n);
    assert(text::is_digit(d[0]));
    assert(line[0] == d[0]);
    lemma_trim(line);
    let dot = d.len() as int;
    text::lemma_find_from(line, ". "@, 0);
    assert(line.subrange(dot, dot + 2) =~= ". "@);
    assert(text::occurs_at(line, ". "@, dot));
    if let Some(at) = text::find_of(line, ". "@) {
        if at < dot {
            assert(line.subrange(at, at + 2)[0] == line[at]);
            assert(line[at] == d[at]);
            assert(text::is_digit(d[at]));
        }
    }
    assert(text::find_of(line, ". "@) == Some(dot));
    assert(line.take(dot) =~= d);
    assert(line.skip(dot + 2) =~= s);
}

/// A line that is an image becomes that image.
pub proof fn lemma_image_kept(
    lines: Seq<Seq<char>>,
    alt: Seq<char>,
    src: Seq<char>,
    items: Map<int, Seq<char>>,
)
    requires
        lines.len() > 0,
        lines[0] == "!["@ + alt + "]("@ + src + ")"@,
        !alt.contains('[') && !alt.contains(']'),
        src.len() > 0 && !src.contains('(') && !src.contains(')'),
        !lines[0].contains('|'),
    ensures
        first_block(lines, items) == (
            XmlTree::Element {
                tag: "image"@,
                attrs: if alt.len() > 0 {
                    Map::empty().insert("src"@, src).insert("alt"@, alt)
                } else {
                    Map::empty().insert("src"@, src)
                },
                children: seq![],
            },
            1int,
        ),
{
    reveal_strlit("![");
    reveal_strlit("](");
    reveal_strlit(")");
    let line = lines[0];
    assert(line[0] == '!');
    assert(line.last() == ')');
    lemma_trim(line);
    lemma_first_char(line);
    assert(line.subrange(0, 2) =~= "!["@);
    let rest = line.skip(2);
    let n = alt.len() as int;
    assert(rest =~= alt + "]("@ + src + ")"@);
    assert(rest.subrange(n, n + 2) =~= "]("@);
    text::lemma_find_from(rest, "]("@, 0);
    assert(text::occurs_at(rest, "]("@, n));
    if let Some(at) = text::find_of(rest, "]("@) {
        if at < n {
            assert(rest.subrange(at, at + 2)[0] == rest[at]);
            assert(alt[at] == ']');
        }
    }
    assert(text::find_of(rest, "]("@) == Some(n));
    assert(rest.take(n) =~= alt);
    assert(rest.skip(n + 2) =~= src + ")"@);
    assert(rest.skip(n + 2).drop_last() =~= src);
}

/// Whether a line is nothing but text: it begins with no sign that opens another block,
/// and holds no pipe.
pub open spec fn is_prose(s: Seq<char>) -> bool {
    &&& is_trim(s)
    &&& !text::is_digit(s[0])
    &&& s[0] != '#' && s[0] != '`' && s[0] != '-' && s[0] != '*' && s[0] != '>' && s[0] != '!'
    &&& !s.contains('|')
}

proof fn lemma_prose_block(lines: Seq<Seq<char>>, items: Map<int, Seq<char>>)
    requires
        lines.len() > 0,
        is_prose(lines[0]),
    ensures
        text::trim_of(lines[0]) == lines[0],
        first_block(lines, items) == (paragraph_of(lines[0], items), 1int),
{
    lemma_trim(lines[0]);
    lemma_first_char(lines[0]);
}

/// Lines of text become one paragraph each, in order, with blank lines between them or
/// not.
pub proof fn lemma_paragraphs_kept(lines: Seq<Seq<char>>, items: Map<int, Seq<char>>)
    requires
        forall|i: int| 0 <= i < lines.len() ==> (#[trigger] lines[i]).len() == 0 || is_prose(lines[i]),
    ensures
        blocks_of(lines, items) == lines.filter(|l: Seq<char>| l.len() > 0).map_values(
            |l: Seq<char>| paragraph_of(l, items),
        ),
    decreases lines.len(),
{
    let p = |l: Seq<char>| l.len() > 0;
    let f = |l: Seq<char>| paragraph_of(l, items);
    if lines.len() == 0 {
        reveal(Seq::filter);
        assert(blocks_of(lines, items) =~= lines.filter(p).map_values(f));
    } else {
        let rest = lines.skip(1);
        assert forall|i: int| 0 <= i < rest.len() implies (#[trigger] rest[i]).len() == 0
            || is_prose(rest[i]) by {
            assert(rest[i] == lines[i + 1]);
        }
        lemma_paragraphs_kept(rest, items);
        let line = lines[0];
        assert(lines =~= seq![line] + rest);
        Seq::filter_distributes_over_add(seq![line], rest, p);
        assert(seq![line].filter(p) =~= if line.len() > 0 {
            seq![line]
        } else {
            seq![]
        }) by {
            reveal(Seq::filter);
            let none = seq![line].drop_last();
            assert(none.len() == 0);
            assert(none.filter(p) == none);
            assert(p(line) == (line.len() > 0));
            assert(seq![line].last() == line);
            assert(none.push(line) =~= seq![line]);
        }
        if line.len() > 0 {
            lemma_prose_block(lines, items);
            assert(blocks_of(lines, items) =~= lines.filter(p).map_values(f));
        } else {
            assert(text::trim_of(line).len() == 0);
            assert(blocks_of(lines, items) =~= lines.filter(p).map_values(f));
        }
    }
}

} // verus!
