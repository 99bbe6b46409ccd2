//! Inline formatting: bold, italic, strike, code, links, images and item
//! references within a line of text.

use vstd::prelude::*;
use vstd::slice::slice_subrange;

use crate::text;

verus! {

/// A segment of text with optional formatting.
#[derive(Debug, PartialEq, Eq)]
pub enum TextSegment {
    Plain(String),
    Bold(String),
    Italic(String),
    Strike(String),
    Code(String),
    /// Hyperlink `[text](href)`, rendered as a `link` mark over `text`.
    Link { text: String, href: String },
    /// Image `![alt](src)`, rendered as an `image` element.
    Image { alt: String, src: String },
    /// Item reference by short id (`[[WDO-42]]` or `[[42]]`).
    ItemRef(i64),
}

/// What a [`TextSegment`] stands for.
pub enum Segment {
    Plain(Seq<char>),
    Bold(Seq<char>),
    Italic(Seq<char>),
    Strike(Seq<char>),
    Code(Seq<char>),
    Link { text: Seq<char>, href: Seq<char> },
    Image { alt: Seq<char>, src: Seq<char> },
    ItemRef(int),
}

impl View for TextSegment {
    type V = Segment;

    open spec fn view(&self) -> Segment {
        match *self {
            TextSegment::Plain(s) => Segment::Plain(s@),
            TextSegment::Bold(s) => Segment::Bold(s@),
            TextSegment::Italic(s) => Segment::Italic(s@),
            TextSegment::Strike(s) => Segment::Strike(s@),
            TextSegment::Code(s) => Segment::Code(s@),
            TextSegment::Link { text, href } => Segment::Link { text: text@, href: href@ },
            TextSegment::Image { alt, src } => Segment::Image { alt: alt@, src: src@ },
            TextSegment::ItemRef(n) => Segment::ItemRef(n as int),
        }
    }
}

/// The segments that a list stands for.
pub open spec fn segments_view(v: Seq<TextSegment>) -> Seq<Segment> {
    v.map_values(|s: TextSegment| s@)
}

// ---------------------------------------------------------------------------
// Item references
// ---------------------------------------------------------------------------

/// The positive number that `s` writes.
pub open spec fn positive(s: Seq<char>) -> Option<int> {
    match text::parse_int_of(s, i64::MIN as int, i64::MAX as int) {
        Some(n) => if n > 0 {
            Some(n)
        } else {
            None
        },
        None => None,
    }
}

/// The short id in the content of `[[...]]`: a positive number, alone or behind
/// a prefix and a dash.
pub open spec fn item_reference(content: Seq<char>) -> Option<int> {
    let t = text::trim_of(content);
    match positive(t) {
        Some(n) => Some(n),
        None => match text::rfind_char_of(t, '-') {
            Some(d) => if d > 0 {
                positive(t.skip(d + 1))
            } else {
                None
            },
            None => None,
        },
    }
}

fn parse_positive(s: &[char]) -> (r: Option<i64>)
    ensures
        text::opt_i64(r) == positive(s@),
{
    match text::parse_i64(s) {
        Some(n) => if n > 0 {
            Some(n)
        } else {
            None
        },
        None => None,
    }
}

fn item_reference_in(content: &[char]) -> (r: Option<i64>)
    ensures
        text::opt_i64(r) == item_reference(content@),
{
    let t = text::trim(content);
    match parse_positive(t) {
        Some(n) => Some(n),
        None => match text::rfind_char(t, '-') {
            Some(d) => if d > 0 {
                let n: usize = t.len();
                assert(t@.skip(d + 1) =~= t@.subrange(d + 1, n as int));
                parse_positive(slice_subrange(t, d + 1, n))
            } else {
                None
            },
            None => None,
        },
    }
}

/// Parses the content of `[[...]]`: `WDO-42`, `42` or `PREFIX-123`.
pub fn parse_item_reference(content: &str) -> (r: Option<i64>)
    ensures
        text::opt_i64(r) == item_reference(content@),
{
    let chars = text::to_chars(content);
    item_reference_in(chars.as_slice())
}

// ---------------------------------------------------------------------------
// Links
// ---------------------------------------------------------------------------

/// The label and the url of the `[label](url)` with which `s` begins. The first
/// `]` ends the label, the first `)` the url, and the url is not empty.
pub open spec fn link_like(s: Seq<char>) -> Option<(Seq<char>, Seq<char>)> {
    if !text::starts_with_char(s, '[') {
        None
    } else {
        let rest = s.skip(1);
        match text::find_char_of(rest, ']') {
            None => None,
            Some(close) => {
                let after = rest.skip(close + 1);
                if !text::starts_with_char(after, '(') {
                    None
                } else {
                    let url_on = after.skip(1);
                    match text::find_char_of(url_on, ')') {
                        None => None,
                        Some(end) => if end == 0 {
                            None
                        } else {
                            Some((rest.take(close), url_on.take(end)))
                        },
                    }
                }
            },
        }
    }
}

/// The length of the `[label](url)` span.
pub open spec fn link_span(label: Seq<char>, url: Seq<char>) -> int {
    label.len() + url.len() + 4int
}

/// The view of a parsed label and url.
pub open spec fn pair_view(o: Option<(&[char], &[char])>) -> Option<(Seq<char>, Seq<char>)> {
    match o {
        Some((a, b)) => Some((a@, b@)),
        None => None,
    }
}

fn link_like_in<'a>(s: &'a [char]) -> (r: Option<(&'a [char], &'a [char])>)
    ensures
        pair_view(r) == link_like(s@),
        r is Some ==> link_span((r->0).0@, (r->0).1@) <= s@.len(),
{
    if s.len() == 0 || s[0] != '[' {
        return None;
    }
    let rest = slice_subrange(s, 1, s.len());
    assert(rest@ =~= s@.skip(1));
    match text::find_char(rest, ']') {
        None => None,
        Some(close) => {
            let after = slice_subrange(rest, close + 1, rest.len());
            assert(after@ =~= rest@.skip(close + 1));
            if after.len() == 0 || after[0] != '(' {
                return None;
            }
            let url_on = slice_subrange(after, 1, after.len());
            assert(url_on@ =~= after@.skip(1));
            match text::find_char(url_on, ')') {
                None => None,
                Some(end) => {
                    if end == 0 {
                        return None;
                    }
                    Some((slice_subrange(rest, 0, close), slice_subrange(url_on, 0, end)))
                },
            }
        },
    }
}

/// Parses a markdown `[label](url)` at the beginning of `s`. Gives the label,
/// the url and the number of bytes that the whole span takes.
pub fn parse_link_like(s: &str) -> (r: Option<(String, String, usize)>)
    ensures
        match r {
            Some((label, url, consumed)) => link_like(s@) == Some((label@, url@)) && consumed
                == text::utf8_len(s@.take(link_span(label@, url@))),
            None => link_like(s@) is None,
        },
{
    let chars = text::to_chars(s);
    let total: usize = chars.len();
    match link_like_in(chars.as_slice()) {
        Some((label, url)) => {
            let n: usize = label.len() + url.len() + 4;
            let bytes: usize = text::byte_offset(s, n);
            assert(s@.take(n as int) =~= s@.take(link_span(label@, url@)));
            Some((text::to_text(label), text::to_text(url), bytes))
        },
        None => None,
    }
}

// ---------------------------------------------------------------------------
// Segments
// ---------------------------------------------------------------------------

/// The content between the `mark` with which `s` begins and the next one, if
/// there is any content.
pub open spec fn delimited(s: Seq<char>, mark: Seq<char>) -> Option<Seq<char>> {
    match text::after_prefix(s, mark) {
        None => None,
        Some(rest) => match text::find_of(rest, mark) {
            None => None,
            Some(end) => if end > 0 {
                Some(rest.take(end))
            } else {
                None
            },
        },
    }
}

/// The content of the `*italic*` with which `s` begins: neither star is one of
/// a pair.
pub open spec fn italic(s: Seq<char>) -> Option<Seq<char>> {
    if !text::starts_with_char(s, '*') || text::starts_with_char(s.skip(1), '*') {
        None
    } else {
        let rest = s.skip(1);
        match text::find_char_of(rest, '*') {
            None => None,
            Some(end) => if end > 0 && !"**"@.is_prefix_of(rest.skip(end)) {
                Some(rest.take(end))
            } else {
                None
            },
        }
    }
}

/// The content of the `[[...]]` with which `s` begins.
pub open spec fn bracketed(s: Seq<char>) -> Option<Seq<char>> {
    match text::after_prefix(s, "[["@) {
        None => None,
        Some(rest) => match text::find_of(rest, "]]"@) {
            None => None,
            Some(end) => Some(rest.take(end)),
        },
    }
}

/// The item that the `[[...]]` at the beginning of `s` refers to, and the length
/// of the reference.
pub open spec fn item_ref(s: Seq<char>) -> Option<(int, int)> {
    match bracketed(s) {
        None => None,
        Some(content) => match item_reference(content) {
            None => None,
            Some(n) => Some((n, content.len() + 4int)),
        },
    }
}

/// The image with which `s` begins.
pub open spec fn image(s: Seq<char>) -> Option<(Seq<char>, Seq<char>)> {
    if "!["@.is_prefix_of(s) {
        link_like(s.skip(1))
    } else {
        None
    }
}

/// The link with which `s` begins: one with a text.
pub open spec fn link(s: Seq<char>) -> Option<(Seq<char>, Seq<char>)> {
    match link_like(s) {
        None => None,
        Some((label, url)) => if label.len() > 0 {
            Some((label, url))
        } else {
            None
        },
    }
}

/// The length of the plain text with which `s` begins: up to the next character
/// that may open a marker, and one character where the first one is such.
pub open spec fn plain_len(s: Seq<char>) -> int {
    match text::find_any_of(s, "*~`[!"@) {
        None => s.len() as int,
        Some(i) => if i > 0 {
            i
        } else {
            1
        },
    }
}

/// The segment with which `s` begins, and its length in `s`. Code comes first,
/// then bold, strike, italic, images, item references, links and plain text.
pub open spec fn first_segment(s: Seq<char>) -> (Segment, int) {
    if let Some(c) = delimited(s, "`"@) {
        (Segment::Code(c), c.len() + 2int)
    } else if let Some(c) = delimited(s, "**"@) {
        (Segment::Bold(c), c.len() + 4int)
    } else if let Some(c) = delimited(s, "~~"@) {
        (Segment::Strike(c), c.len() + 4int)
    } else if let Some(c) = italic(s) {
        (Segment::Italic(c), c.len() + 2int)
    } else if let Some((alt, src)) = image(s) {
        (Segment::Image { alt, src }, 1 + link_span(alt, src))
    } else if let Some((n, len)) = item_ref(s) {
        (Segment::ItemRef(n), len)
    } else if let Some((text, href)) = link(s) {
        (Segment::Link { text, href }, link_span(text, href))
    } else {
        (Segment::Plain(s.take(plain_len(s))), plain_len(s))
    }
}

/// The segments of `s`, one after the other.
pub open spec fn inline_segments(s: Seq<char>) -> Seq<Segment>
    decreases s.len(),
{
    if s.len() == 0 {
        seq![]
    } else {
        let (seg, n) = first_segment(s);
        if 0 < n <= s.len() {
            seq![seg] + inline_segments(s.skip(n))
        } else {
            seq![seg]
        }
    }
}

fn delimited_in<'a>(s: &'a [char], mark: &str) -> (r: Option<&'a [char]>)
    ensures
        text::opt_slice(r) == delimited(s@, mark@),
        r is Some ==> r->0@.len() > 0 && r->0@.len() + 2 * mark@.len() <= s@.len(),
{
    match text::strip_prefix(s, mark) {
        None => None,
        Some(rest) => match text::find(rest, mark) {
            None => None,
            Some(end) => if end > 0 {
                Some(slice_subrange(rest, 0, end))
            } else {
                None
            },
        },
    }
}

fn italic_in<'a>(s: &'a [char]) -> (r: Option<&'a [char]>)
    ensures
        text::opt_slice(r) == italic(s@),
        r is Some ==> r->0@.len() > 0 && r->0@.len() + 2 <= s@.len(),
{
    if s.len() == 0 || s[0] != '*' {
        return None;
    }
    let rest = slice_subrange(s, 1, s.len());
    assert(rest@ =~= s@.skip(1));
    if rest.len() > 0 && rest[0] == '*' {
        return None;
    }
    match text::find_char(rest, '*') {
        None => None,
        Some(end) => {
            let close = slice_subrange(rest, end, rest.len());
            assert(close@ =~= rest@.skip(end as int));
            if end > 0 && !text::starts_with(close, "**") {
                Some(slice_subrange(rest, 0, end))
            } else {
                None
            }
        },
    }
}

fn item_ref_in(s: &[char]) -> (r: Option<(i64, usize)>)
    ensures
        match r {
            Some((n, len)) => item_ref(s@) == Some((n as int, len as int)) && 0 < len <= s@.len(),
            None => item_ref(s@) is None,
        },
{
    proof {
        reveal_strlit("[[");
        reveal_strlit("]]");
    }
    let total: usize = s.len();
    match text::strip_prefix(s, "[[") {
        None => None,
        Some(rest) => match text::find(rest, "]]") {
            None => None,
            Some(end) => match item_reference_in(slice_subrange(rest, 0, end)) {
                Some(n) => Some((n, end + 4)),
                None => None,
            },
        },
    }
}

fn first_segment_in(s: &[char]) -> (r: (TextSegment, usize))
    requires
        s@.len() > 0,
    ensures
        (r.0@, r.1 as int) == first_segment(s@),
        0 < r.1 <= s@.len(),
{
    let total: usize = s.len();
    proof {
        reveal_strlit("`");
        reveal_strlit("**");
        reveal_strlit("~~");
        reveal_strlit("![");
        text::lemma_find_any_from(s@, "*~`[!"@, 0);
    }
    if let Some(c) = delimited_in(s, "`") {
        return (TextSegment::Code(text::to_text(c)), c.len() + 2);
    }
    if let Some(c) = delimited_in(s, "**") {
        return (TextSegment::Bold(text::to_text(c)), c.len() + 4);
    }
    if let Some(c) = delimited_in(s, "~~") {
        return (TextSegment::Strike(text::to_text(c)), c.len() + 4);
    }
    if let Some(c) = italic_in(s) {
        return (TextSegment::Italic(text::to_text(c)), c.len() + 2);
    }
    if text::starts_with(s, "![") {
        let inner = slice_subrange(s, 1, s.len());
        assert(inner@ =~= s@.skip(1));
        if let Some((alt, src)) = link_like_in(inner) {
            return (
                TextSegment::Image { alt: text::to_text(alt), src: text::to_text(src) },
                alt.len() + src.len() + 5,
            );
        }
    }
    if let Some((n, len)) = item_ref_in(s) {
        return (TextSegment::ItemRef(n), len);
    }
    if let Some((label, url)) = link_like_in(s) {
        if label.len() > 0 {
            return (
                TextSegment::Link { text: text::to_text(label), href: text::to_text(url) },
                label.len() + url.len() + 4,
            );
        }
    }
    let n: usize = match text::find_any(s, "*~`[!") {
        None => total,
        Some(i) => if i > 0 {
            i
        } else {
            1
        },
    };
    assert(s@.take(n as int) =~= s@.subrange(0, n as int));
    (TextSegment::Plain(text::to_text(slice_subrange(s, 0, n))), n)
}

/// Parses the inline formatting of a line of text.
pub fn parse_inline_formatting(text: &str) -> (r: Vec<TextSegment>)
    ensures
        segments_view(r@) == inline_segments(text@),
{
    let chars = text::to_chars(text);
    inline_in(chars.as_slice())
}

pub(crate) fn inline_in(s: &[char]) -> (r: Vec<TextSegment>)
    ensures
        segments_view(r@) == inline_segments(s@),
{
    let mut out: Vec<TextSegment> = Vec::new();
    let mut rest = s;
    assert(segments_view(out@) =~= seq![]);
    assert(seq![] + inline_segments(s@) =~= inline_segments(s@));
    while rest.len() > 0
        invariant
            segments_view(out@) + inline_segments(rest@) == inline_segments(s@),
        decreases rest.len(),
    {
        let ghost before = segments_view(out@);
        let ghost tail = rest@;
        let (seg, n) = first_segment_in(rest);
        let ghost sv = seg@;
        rest = slice_subrange(rest, n, rest.len());
        assert(rest@ =~= tail.skip(n as int));
        out.push(seg);
        assert(segments_view(out@) =~= before.push(sv));
        assert(before + (seq![sv] + inline_segments(rest@)) =~= before.push(sv) + inline_segments(
            rest@,
        ));
    }
    assert(segments_view(out@) + inline_segments(rest@) =~= segments_view(out@));
    out
}

// ---------------------------------------------------------------------------
// Laws
// ---------------------------------------------------------------------------

/// Every step takes at least one character, and no more than there are: the whole
/// line is read, and each character once.
pub proof fn lemma_step(s: Seq<char>)
    requires
        s.len() > 0,
    ensures
        0 < first_segment(s).1 <= s.len(),
{
    reveal_strlit("`");
    reveal_strlit("**");
    reveal_strlit("~~");
    reveal_strlit("[[");
    reveal_strlit("]]");
    reveal_strlit("![");
    lemma_delimited(s, "`"@);
    lemma_delimited(s, "**"@);
    lemma_delimited(s, "~~"@);
    if italic(s) is Some {
        text::lemma_find_any_from(s.skip(1), seq!['*'], 0);
    }
    lemma_link_like(s);
    if image(s) is Some {
        lemma_link_like(s.skip(1));
    }
    if bracketed(s) is Some {
        text::lemma_find_from(s.skip(2), "]]"@, 0);
    }
    text::lemma_find_any_from(s, "*~`[!"@, 0);
}

proof fn lemma_delimited(s: Seq<char>, mark: Seq<char>)
    ensures
        delimited(s, mark) is Some ==> 0 < delimited(s, mark)->0.len() && delimited(s, mark)->0.len()
            + 2 * mark.len() <= s.len(),
{
    if delimited(s, mark) is Some {
        text::lemma_find_from(text::after_prefix(s, mark)->0, mark, 0);
    }
}

proof fn lemma_link_like(s: Seq<char>)
    ensures
        link_like(s) is Some ==> link_span((link_like(s)->0).0, (link_like(s)->0).1) <= s.len(),
{
    if link_like(s) is Some {
        let rest = s.skip(1);
        text::lemma_find_any_from(rest, seq![']'], 0);
        let close = text::find_char_of(rest, ']')->0;
        text::lemma_find_any_from(rest.skip(close + 1).skip(1), seq![')'], 0);
    }
}

/// Text without any character that may open a marker is one plain segment.
pub proof fn lemma_plain(s: Seq<char>)
    requires
        s.len() > 0,
        forall|i: int| 0 <= i < s.len() ==> !"*~`[!"@.contains(#[trigger] s[i]),
    ensures
        inline_segments(s) == seq![Segment::Plain(s)],
{
    reveal_strlit("*~`[!");
    reveal_strlit("`");
    reveal_strlit("**");
    reveal_strlit("~~");
    reveal_strlit("[[");
    reveal_strlit("![");
    assert(!"*~`[!"@.contains(s[0]));
    assert("*~`[!"@[0] == '*');
    assert("*~`[!"@[1] == '~');
    assert("*~`[!"@[2] == '`');
    assert("*~`[!"@[3] == '[');
    assert("*~`[!"@[4] == '!');
    text::lemma_find_any_from(s, "*~`[!"@, 0);
    assert(s.take(s.len() as int) =~= s);
    assert(first_segment(s) == (Segment::Plain(s), s.len() as int));
    assert(s.skip(s.len() as int) =~= seq![]);
    assert(seq![Segment::Plain(s)] + inline_segments(seq![]) =~= seq![Segment::Plain(s)]);
}

/// Whether a segment shows something: a mark, a link or a stretch of text that is
/// not empty.
pub open spec fn shows(g: Segment) -> bool {
    match g {
        Segment::Plain(t) | Segment::Bold(t) | Segment::Italic(t) | Segment::Strike(t)
        | Segment::Code(t) => t.len() > 0,
        Segment::Link { text, href } => text.len() > 0,
        Segment::Image { alt, src } => true,
        Segment::ItemRef(n) => n > 0,
    }
}

/// No segment is empty, and every item reference is to a positive number.
pub proof fn lemma_segments_show(s: Seq<char>)
    ensures
        forall|i: int| 0 <= i < inline_segments(s).len() ==> shows(#[trigger] inline_segments(s)[i]),
    decreases s.len(),
{
    if s.len() > 0 {
        let (seg, n) = first_segment(s);
        lemma_step(s);
        lemma_delimited(s, "`"@);
        lemma_delimited(s, "**"@);
        lemma_delimited(s, "~~"@);
        text::lemma_find_any_from(s.skip(1), seq!['*'], 0);
        text::lemma_find_any_from(s, "*~`[!"@, 0);
        assert(shows(seg));
        lemma_segments_show(s.skip(n));
        let rest = inline_segments(s.skip(n));
        assert forall|i: int| 0 <= i < inline_segments(s).len() implies shows(
            #[trigger] inline_segments(s)[i],
        ) by {
            if i > 0 {
                assert(inline_segments(s)[i] == rest[i - 1]);
            }
        }
    }
}

/// Whether `s` is how a segment is written. An item reference may be written with a
/// prefix and with white space.
pub open spec fn writes(g: Segment, s: Seq<char>) -> bool {
    match g {
        Segment::Plain(t) => s == t,
        Segment::Bold(t) => s == "**"@ + t + "**"@,
        Segment::Italic(t) => s == "*"@ + t + "*"@,
        Segment::Strike(t) => s == "~~"@ + t + "~~"@,
        Segment::Code(t) => s == "`"@ + t + "`"@,
        Segment::Link { text, href } => s == "["@ + text + "]("@ + href + ")"@,
        Segment::Image { alt, src } => s == "!["@ + alt + "]("@ + src + ")"@,
        Segment::ItemRef(n) => exists|c: Seq<char>|
            s == "[["@ + c + "]]"@ && #[trigger] item_reference(c) == Some(n),
    }
}

/// Whether `s` is how the segments are written, one after the other.
pub open spec fn writes_all(v: Seq<Segment>, s: Seq<char>) -> bool
    decreases v.len(),
{
    if v.len() == 0 {
        s.len() == 0
    } else {
        exists|n: int|
            0 <= n <= s.len() && writes(v[0], #[trigger] s.take(n)) && writes_all(
                v.skip(1),
                s.skip(n),
            )
    }
}

proof fn lemma_delimited_text(s: Seq<char>, mark: Seq<char>)
    requires
        delimited(s, mark) is Some,
    ensures
        s.take(delimited(s, mark)->0.len() + 2int * mark.len()) == mark + delimited(s, mark)->0 + mark,
{
    let rest = text::after_prefix(s, mark)->0;
    text::lemma_find_from(rest, mark, 0);
    let end = text::find_of(rest, mark)->0;
    let n = mark.len() as int;
    assert(rest =~= s.skip(n));
    assert(s.take(n) =~= mark);
    assert(rest.subrange(end, end + n) == mark);
    assert forall|i: int| 0 <= i < n implies s[n + end + i] == mark[i] by {
        assert(rest.subrange(end, end + n)[i] == rest[end + i]);
    }
    assert forall|i: int| 0 <= i < n implies s[i] == mark[i] by {
        assert(s.take(n)[i] == s[i]);
    }
    assert(s.take(end + 2 * n) =~= mark + rest.take(end) + mark);
}

proof fn lemma_italic_text(s: Seq<char>)
    requires
        italic(s) is Some,
    ensures
        s.take(italic(s)->0.len() + 2int) == "*"@ + italic(s)->0 + "*"@,
{
    reveal_strlit("*");
    text::lemma_find_any_from(s.skip(1), seq!['*'], 0);
    let end = text::find_char_of(s.skip(1), '*')->0;
    assert(seq!['*'][0] == '*');
    assert(s.skip(1)[end] == '*');
    assert(s.take(end + 2) =~= "*"@ + s.skip(1).take(end) + "*"@);
}

proof fn lemma_link_text(s: Seq<char>)
    requires
        link_like(s) is Some,
    ensures
        ({
            let (label, url) = link_like(s)->0;
            s.take(link_span(label, url)) == "["@ + label + "]("@ + url + ")"@
        }),
{
    reveal_strlit("[");
    reveal_strlit("](");
    reveal_strlit(")");
    let rest = s.skip(1);
    text::lemma_find_any_from(rest, seq![']'], 0);
    let close = text::find_char_of(rest, ']')->0;
    let after = rest.skip(close + 1);
    let url_on = after.skip(1);
    text::lemma_find_any_from(url_on, seq![')'], 0);
    let end = text::find_char_of(url_on, ')')->0;
    assert(seq![']'][0] == ']' && seq![')'][0] == ')');
    assert(rest[close] == ']');
    assert(after[0] == '(');
    assert(url_on[end] == ')');
    let (label, url) = (rest.take(close), url_on.take(end));
    assert(s.take(link_span(label, url)) =~= "["@ + label + "]("@ + url + ")"@);
}

proof fn lemma_bracketed_text(s: Seq<char>)
    requires
        bracketed(s) is Some,
    ensures
        s.take(bracketed(s)->0.len() + 4int) == "[["@ + bracketed(s)->0 + "]]"@,
{
    reveal_strlit("[[");
    reveal_strlit("]]");
    let rest = text::after_prefix(s, "[["@)->0;
    text::lemma_find_from(rest, "]]"@, 0);
    let end = text::find_of(rest, "]]"@)->0;
    assert(rest =~= s.skip(2));
    assert(s.take(2) =~= "[["@);
    assert(s.take(2)[0] == s[0] && s.take(2)[1] == s[1]);
    let close = rest.subrange(end, end + 2);
    assert(close == "]]"@);
    assert(close[0] == rest[end] && close[1] == rest[end + 1]);
    assert(s.take(end + 4) =~= "[["@ + rest.take(end) + "]]"@);
}

/// The first segment stands at the beginning of the line as it is written.
proof fn lemma_first_written(s: Seq<char>)
    requires
        s.len() > 0,
    ensures
        writes(first_segment(s).0, s.take(first_segment(s).1)),
{
    reveal_strlit("`");
    reveal_strlit("**");
    reveal_strlit("~~");
    if delimited(s, "`"@) is Some {
        lemma_delimited_text(s, "`"@);
    } else if delimited(s, "**"@) is Some {
        lemma_delimited_text(s, "**"@);
    } else if delimited(s, "~~"@) is Some {
        lemma_delimited_text(s, "~~"@);
    } else if italic(s) is Some {
        lemma_italic_text(s);
    } else if image(s) is Some {
        reveal_strlit("![");
        reveal_strlit("[");
        lemma_link_text(s.skip(1));
        lemma_link_like(s.skip(1));
        let (alt, src) = image(s)->0;
        let n = link_span(alt, src);
        assert(s.take(2) =~= "!["@);
        assert(s[0] == s.take(2)[0]);
        assert(s.take(1 + n) =~= seq!['!'] + s.skip(1).take(n));
        assert("!["@ + alt + "]("@ + src + ")"@ =~= seq!['!'] + ("["@ + alt + "]("@ + src + ")"@));
    } else if item_ref(s) is Some {
        lemma_bracketed_text(s);
        let c = bracketed(s)->0;
        assert(item_reference(c) is Some);
    } else if link(s) is Some {
        lemma_link_text(s);
    }
}

/// The segments of a line, written back, give the line.
pub proof fn lemma_written_back(s: Seq<char>)
    ensures
        writes_all(inline_segments(s), s),
    decreases s.len(),
{
    if s.len() > 0 {
        let (g, n) = first_segment(s);
        lemma_step(s);
        lemma_first_written(s);
        lemma_written_back(s.skip(n));
        let rest = inline_segments(s.skip(n));
        assert(inline_segments(s) =~= seq![g] + rest);
        assert(inline_segments(s).skip(1) =~= rest);
        assert(writes(inline_segments(s)[0], s.take(n)));
    }
}

} // verus!
