//! Markdown parsing and the rich text it becomes.

use wodo_interop::markdown::block::{
    extract_ordered_list_text, extract_task_item, is_ordered_list_start, is_task_list_start,
    try_parse_heading_line, try_parse_standalone_image,
};
use wodo_interop::markdown::segment::{
    parse_inline_formatting, parse_item_reference, parse_link_like, TextSegment,
};
use wodo_interop::markdown::table::{scan_table_separator, split_table_row};
use wodo_interop::markdown::write_markdown_to_fragment;
use yrs::Map as _;
use yrs::{Doc, GetString, Transact, WriteTxn, Xml, XmlFragment, XmlFragmentPrelim, XmlOut};

// ---------------------------------------------------------------------------
// Inline Formatting Parser
// ---------------------------------------------------------------------------

#[test]
fn test_parse_inline_formatting_plain_text() {
    let segments = parse_inline_formatting("Hello world");
    assert_eq!(segments.len(), 1);
    assert!(matches!(&segments[0], TextSegment::Plain(s) if s == "Hello world"));
}

#[test]
fn test_parse_inline_formatting_bold() {
    let segments = parse_inline_formatting("Hello **bold** world");
    assert_eq!(segments.len(), 3);
    assert!(matches!(&segments[0], TextSegment::Plain(s) if s == "Hello "));
    assert!(matches!(&segments[1], TextSegment::Bold(s) if s == "bold"));
    assert!(matches!(&segments[2], TextSegment::Plain(s) if s == " world"));
}

#[test]
fn test_parse_inline_formatting_italic() {
    let segments = parse_inline_formatting("Hello *italic* world");
    assert_eq!(segments.len(), 3);
    assert!(matches!(&segments[0], TextSegment::Plain(s) if s == "Hello "));
    assert!(matches!(&segments[1], TextSegment::Italic(s) if s == "italic"));
    assert!(matches!(&segments[2], TextSegment::Plain(s) if s == " world"));
}

#[test]
fn test_parse_inline_formatting_strikethrough() {
    let segments = parse_inline_formatting("Hello ~~strike~~ world");
    assert_eq!(segments.len(), 3);
    assert!(matches!(&segments[0], TextSegment::Plain(s) if s == "Hello "));
    assert!(matches!(&segments[1], TextSegment::Strike(s) if s == "strike"));
    assert!(matches!(&segments[2], TextSegment::Plain(s) if s == " world"));
}

#[test]
fn test_parse_inline_formatting_code() {
    let segments = parse_inline_formatting("Hello `code` world");
    assert_eq!(segments.len(), 3);
    assert!(matches!(&segments[0], TextSegment::Plain(s) if s == "Hello "));
    assert!(matches!(&segments[1], TextSegment::Code(s) if s == "code"));
    assert!(matches!(&segments[2], TextSegment::Plain(s) if s == " world"));
}

#[test]
fn test_parse_inline_formatting_multiple_formats() {
    let segments = parse_inline_formatting("**bold** and *italic* and `code`");
    assert_eq!(segments.len(), 5);
    assert!(matches!(&segments[0], TextSegment::Bold(s) if s == "bold"));
    assert!(matches!(&segments[1], TextSegment::Plain(s) if s == " and "));
    assert!(matches!(&segments[2], TextSegment::Italic(s) if s == "italic"));
    assert!(matches!(&segments[3], TextSegment::Plain(s) if s == " and "));
    assert!(matches!(&segments[4], TextSegment::Code(s) if s == "code"));
}

#[test]
fn test_parse_inline_formatting_unclosed_bold() {
    // Unclosed markers should be treated as plain text
    let segments = parse_inline_formatting("Hello **unclosed");
    // The ** doesn't match, so it gets treated character by character
    assert!(!segments.is_empty());
    // Should contain the original text as plain segments
}

#[test]
fn test_parse_inline_formatting_empty_markers_ignored() {
    // Empty markers like ** ** or `` should not create empty formatted segments
    let segments = parse_inline_formatting("test ** ** test");
    // The ** ** has space inside which IS content, so it creates a bold with space
    // But truly empty like **** would be plain
    assert!(!segments.is_empty());
}

#[test]
fn test_parse_inline_formatting_code_with_special_chars() {
    // Code blocks should preserve content literally
    let segments = parse_inline_formatting("Use `**not bold**` for emphasis");
    assert_eq!(segments.len(), 3);
    assert!(matches!(&segments[0], TextSegment::Plain(s) if s == "Use "));
    assert!(matches!(&segments[1], TextSegment::Code(s) if s == "**not bold**"));
    assert!(matches!(&segments[2], TextSegment::Plain(s) if s == " for emphasis"));
}

#[test]
fn test_parse_inline_formatting_adjacent_formats() {
    let segments = parse_inline_formatting("**bold***italic*");
    assert_eq!(segments.len(), 2);
    assert!(matches!(&segments[0], TextSegment::Bold(s) if s == "bold"));
    assert!(matches!(&segments[1], TextSegment::Italic(s) if s == "italic"));
}

#[test]
fn test_parse_inline_formatting_at_boundaries() {
    // Format at start
    let segments = parse_inline_formatting("**bold** text");
    assert_eq!(segments.len(), 2);
    assert!(matches!(&segments[0], TextSegment::Bold(s) if s == "bold"));

    // Format at end
    let segments = parse_inline_formatting("text **bold**");
    assert_eq!(segments.len(), 2);
    assert!(matches!(&segments[1], TextSegment::Bold(s) if s == "bold"));

    // Only format
    let segments = parse_inline_formatting("**only bold**");
    assert_eq!(segments.len(), 1);
    assert!(matches!(&segments[0], TextSegment::Bold(s) if s == "only bold"));
}

// ---------------------------------------------------------------------------
// XML serialization helpers
// ---------------------------------------------------------------------------

/// The XML of a fragment, as the editor shows it.
fn serialize_xml_fragment_to_string<R: yrs::ReadTxn>(
    txn: &R,
    frag: &yrs::XmlFragmentRef,
) -> String {
    let mut result = String::new();
    for child in frag.children(txn) {
        serialize_xml_node(txn, &child, &mut result);
    }
    result
}

fn serialize_xml_node<R: yrs::ReadTxn>(txn: &R, node: &yrs::XmlOut, result: &mut String) {
    match node {
        XmlOut::Element(elem) => {
            let tag = elem.tag();
            result.push('<');
            result.push_str(&tag);

            // Add attributes if any
            for (key, value) in elem.attributes(txn) {
                result.push(' ');
                result.push_str(key);
                result.push_str("=\"");
                result.push_str(&value);
                result.push('"');
            }
            result.push('>');

            // Serialize children
            for child in elem.children(txn) {
                serialize_xml_node(txn, &child, result);
            }

            result.push_str("</");
            result.push_str(&tag);
            result.push('>');
        }
        XmlOut::Text(text) => {
            result.push_str(&text.get_string(txn));
        }
        XmlOut::Fragment(frag) => {
            for child in frag.children(txn) {
                serialize_xml_node(txn, &child, result);
            }
        }
    }
}

/// The XML of the fragment that the Markdown becomes.
fn write_markdown_to_fragment_xml(markdown: &str) -> String {
    let doc = Doc::new();
    let mut txn = doc.transact_mut();

    let root = txn.get_or_insert_map("test");
    let frag: yrs::XmlFragmentRef =
        root.insert(&mut txn, "content", XmlFragmentPrelim::default());

    write_markdown_to_fragment(&mut txn, &frag, markdown, None);

    serialize_xml_fragment_to_string(&txn, &frag)
}

#[test]
fn test_write_markdown_to_fragment() {
    let markdown = "**Completed**: Fixed the issue.\n\nBoth `code1` and `code2` work.";

    let doc = Doc::new();
    let mut txn = doc.transact_mut();

    let root = txn.get_or_insert_map("test");
    let frag: yrs::XmlFragmentRef =
        root.insert(&mut txn, "content", XmlFragmentPrelim::default());

    write_markdown_to_fragment(&mut txn, &frag, markdown, None);

    // Check the output
    let result = frag.get_string(&txn);
    println!("write_markdown_to_fragment result: {}", result);

    // Should contain properly formatted marks
    assert!(
        result.contains("<bold>Completed</bold>"),
        "Expected <bold>Completed</bold>, got: {}",
        result
    );
    assert!(
        result.contains("<code>code1</code>"),
        "Expected <code>code1</code>, got: {}",
        result
    );
    assert!(
        result.contains("<code>code2</code>"),
        "Expected <code>code2</code>, got: {}",
        result
    );
}


// ---------------------------------------------------------------------------
// Item Reference Parsing
// ---------------------------------------------------------------------------

#[test]
fn test_parse_item_reference_plain_number() {
    assert_eq!(parse_item_reference("42"), Some(42));
    assert_eq!(parse_item_reference("1"), Some(1));
    assert_eq!(parse_item_reference("12345"), Some(12345));
}

#[test]
fn test_parse_item_reference_with_prefix() {
    assert_eq!(parse_item_reference("WDO-42"), Some(42));
    assert_eq!(parse_item_reference("ABC-123"), Some(123));
    assert_eq!(parse_item_reference("PROJECT-1"), Some(1));
}

#[test]
fn test_parse_item_reference_with_whitespace() {
    assert_eq!(parse_item_reference(" 42 "), Some(42));
    assert_eq!(parse_item_reference(" WDO-42 "), Some(42));
}

#[test]
fn test_parse_item_reference_invalid() {
    assert_eq!(parse_item_reference(""), None);
    assert_eq!(parse_item_reference("abc"), None);
    assert_eq!(parse_item_reference("0"), None);
    assert_eq!(parse_item_reference("-1"), None);
    assert_eq!(parse_item_reference("WDO-"), None);
    assert_eq!(parse_item_reference("WDO-abc"), None);
}

#[test]
fn test_parse_inline_formatting_item_ref() {
    let segments = parse_inline_formatting("See [[WDO-42]] for details");
    assert_eq!(segments.len(), 3);
    assert!(matches!(&segments[0], TextSegment::Plain(s) if s == "See "));
    assert!(matches!(segments[1], TextSegment::ItemRef(42)));
    assert!(matches!(&segments[2], TextSegment::Plain(s) if s == " for details"));
}

#[test]
fn test_parse_inline_formatting_item_ref_plain_number() {
    let segments = parse_inline_formatting("Check [[123]]");
    assert_eq!(segments.len(), 2);
    assert!(matches!(&segments[0], TextSegment::Plain(s) if s == "Check "));
    assert!(matches!(segments[1], TextSegment::ItemRef(123)));
}

#[test]
fn test_parse_inline_formatting_multiple_item_refs() {
    let segments = parse_inline_formatting("[[1]] and [[2]]");
    assert_eq!(segments.len(), 3);
    assert!(matches!(segments[0], TextSegment::ItemRef(1)));
    assert!(matches!(&segments[1], TextSegment::Plain(s) if s == " and "));
    assert!(matches!(segments[2], TextSegment::ItemRef(2)));
}

#[test]
fn test_parse_inline_formatting_item_ref_with_formatting() {
    let segments = parse_inline_formatting("**bold** and [[42]]");
    assert_eq!(segments.len(), 3);
    assert!(matches!(&segments[0], TextSegment::Bold(s) if s == "bold"));
    assert!(matches!(&segments[1], TextSegment::Plain(s) if s == " and "));
    assert!(matches!(segments[2], TextSegment::ItemRef(42)));
}

// ---------------------------------------------------------------------------
// Link & Image Parsing
// ---------------------------------------------------------------------------

#[test]
fn test_parse_inline_formatting_link() {
    let segments = parse_inline_formatting("See [Wodo](https://wodo.dev) now");
    assert_eq!(segments.len(), 3);
    assert!(matches!(&segments[0], TextSegment::Plain(s) if s == "See "));
    assert!(matches!(
        &segments[1],
        TextSegment::Link { text, href } if text == "Wodo" && href == "https://wodo.dev"
    ));
    assert!(matches!(&segments[2], TextSegment::Plain(s) if s == " now"));
}

#[test]
fn test_parse_inline_formatting_image() {
    let segments = parse_inline_formatting("![pic](/api/spaces/X/attachments/Y)");
    assert_eq!(segments.len(), 1);
    assert!(matches!(
        &segments[0],
        TextSegment::Image { alt, src } if alt == "pic" && src == "/api/spaces/X/attachments/Y"
    ));
}

#[test]
fn test_standalone_image_is_block_not_paragraph() {
    // The editor's `image` node is block-level (inline:false): a lone image
    // line must be a fragment sibling, NOT nested in a paragraph (ProseMirror
    // drops a schema-invalid inline image).
    let xml = write_markdown_to_fragment_xml("![pic](/api/spaces/X/attachments/Y)");
    assert!(xml.contains("<image"), "block image element present: {xml}");
    assert!(
        xml.contains("/api/spaces/X/attachments/Y"),
        "src carried: {xml}"
    );
    assert!(
        !xml.contains("paragraph"),
        "lone image must not be wrapped in a paragraph: {xml}"
    );
}

#[test]
fn test_parse_inline_formatting_image_inline_in_paragraph() {
    // An image embedded between text.
    let segments = parse_inline_formatting("Before ![pic](/img.png) after");
    assert_eq!(segments.len(), 3);
    assert!(matches!(&segments[0], TextSegment::Plain(s) if s == "Before "));
    assert!(matches!(
        &segments[1],
        TextSegment::Image { alt, src } if alt == "pic" && src == "/img.png"
    ));
    assert!(matches!(&segments[2], TextSegment::Plain(s) if s == " after"));
}

#[test]
fn test_parse_inline_formatting_image_not_mistaken_for_link() {
    // `![...]` must parse as an image, never as plain `!` + link.
    let segments = parse_inline_formatting("![alt](u)");
    assert_eq!(segments.len(), 1);
    assert!(matches!(segments[0], TextSegment::Image { .. }));
}

#[test]
fn test_parse_inline_formatting_item_ref_not_mistaken_for_link() {
    // `[[WDO-42]]` must parse as an item ref, never as a `[text](url)` link.
    let segments = parse_inline_formatting("[[WDO-42]]");
    assert_eq!(segments.len(), 1);
    assert!(matches!(segments[0], TextSegment::ItemRef(42)));
}

#[test]
fn test_parse_inline_formatting_lone_exclamation_is_plain() {
    // A bare `!` (not an image opener) stays plain text.
    let segments = parse_inline_formatting("Wow! Nice");
    assert_eq!(
        segments
            .iter()
            .filter(|s| matches!(s, TextSegment::Image { .. }))
            .count(),
        0,
        "no spurious image"
    );
    let joined: String = segments
        .iter()
        .map(|s| match s {
            TextSegment::Plain(p) => p.as_str(),
            _ => "",
        })
        .collect();
    assert_eq!(joined, "Wow! Nice");
}

#[test]
fn test_parse_link_like_basic() {
    assert_eq!(
        parse_link_like("[a](b)rest"),
        Some(("a".to_string(), "b".to_string(), 6)),
        "consumes only the link span"
    );
    // Empty url → no match.
    assert_eq!(parse_link_like("[a]()"), None);
    // No paren after `]` → no match.
    assert_eq!(parse_link_like("[a] (b)"), None);
    // Not a link at all.
    assert_eq!(parse_link_like("plain"), None);
}

// ---------------------------------------------------------------------------
// Extract Helper
// ---------------------------------------------------------------------------

#[test]
fn test_extract_ordered_list_text_basic() {
    assert_eq!(extract_ordered_list_text("1. First item"), "First item");
    assert_eq!(extract_ordered_list_text("2. Second item"), "Second item");
    assert_eq!(extract_ordered_list_text("10. Tenth item"), "Tenth item");
}

#[test]
fn test_extract_ordered_list_text_preserves_content() {
    assert_eq!(
        extract_ordered_list_text("1. Item with **bold** text"),
        "Item with **bold** text"
    );
}

#[test]
fn test_extract_ordered_list_text_no_number() {
    // When there's no number prefix, returns original text
    assert_eq!(
        extract_ordered_list_text("No number here"),
        "No number here"
    );
}

#[test]
fn test_extract_task_item_unchecked() {
    let (text, checked) = extract_task_item("- [ ] Task to do");
    assert_eq!(text, "Task to do");
    assert!(!checked, "Unchecked task should return false");
}

#[test]
fn test_extract_task_item_checked() {
    let (text, checked) = extract_task_item("- [x] Done task");
    assert_eq!(text, "Done task");
    assert!(checked, "Checked task should return true");

    // Also test uppercase X
    let (text2, checked2) = extract_task_item("- [X] Also done");
    assert_eq!(text2, "Also done");
    assert!(checked2, "Uppercase X should also be checked");
}

#[test]
fn test_extract_task_item_no_checkbox() {
    // When there's no checkbox pattern, returns original text
    let (text, checked) = extract_task_item("Regular list item");
    assert_eq!(text, "Regular list item");
    assert!(!checked, "No checkbox should default to unchecked");
}

#[test]
fn test_extract_task_item_preserves_formatting() {
    let (text, checked) = extract_task_item("- [x] Task with `code` and **bold**");
    assert_eq!(text, "Task with `code` and **bold**");
    assert!(checked);
}

// ---------------------------------------------------------------------------
// write_markdown_to_fragment
// ---------------------------------------------------------------------------

#[test]
fn test_write_markdown_fragment_heading() {
    let xml = write_markdown_to_fragment_xml("# Heading 1");
    assert_eq!(xml, "<heading level=\"1\">Heading 1</heading>");

    let xml = write_markdown_to_fragment_xml("## Heading 2");
    assert_eq!(xml, "<heading level=\"2\">Heading 2</heading>");

    let xml = write_markdown_to_fragment_xml("### Heading 3");
    assert_eq!(xml, "<heading level=\"3\">Heading 3</heading>");
}

#[test]
fn test_write_markdown_fragment_heading_with_formatting() {
    let xml = write_markdown_to_fragment_xml("## **Important** heading");
    assert!(
        xml.contains("<heading level=\"2\">"),
        "Expected heading, got: {}",
        xml
    );
    assert!(
        xml.contains("<bold>Important</bold>"),
        "Expected bold, got: {}",
        xml
    );
}

#[test]
fn test_write_markdown_fragment_code_block() {
    let markdown = "```rust\nfn main() {\n    println!(\"Hello\");\n}\n```";
    let xml = write_markdown_to_fragment_xml(markdown);

    assert!(
        xml.contains("<codeBlock language=\"rust\">"),
        "Expected codeBlock with language, got: {}",
        xml
    );
    assert!(
        xml.contains("fn main()"),
        "Expected code content, got: {}",
        xml
    );
}

#[test]
fn test_write_markdown_fragment_code_block_no_language() {
    let markdown = "```\nsome code\n```";
    let xml = write_markdown_to_fragment_xml(markdown);

    assert!(
        xml.contains("<codeBlock>"),
        "Expected codeBlock without language attr, got: {}",
        xml
    );
}

#[test]
fn test_write_markdown_fragment_bullet_list() {
    let markdown = "- Item 1\n- Item 2\n- Item 3";
    let xml = write_markdown_to_fragment_xml(markdown);

    assert!(
        xml.contains("<bulletList>"),
        "Expected bulletList, got: {}",
        xml
    );
    assert!(
        xml.contains("<listItem>"),
        "Expected listItem, got: {}",
        xml
    );
    assert!(
        xml.contains("<paragraph>Item 1</paragraph>"),
        "Expected Item 1, got: {}",
        xml
    );
    assert!(
        xml.contains("<paragraph>Item 2</paragraph>"),
        "Expected Item 2, got: {}",
        xml
    );
}

#[test]
fn test_write_markdown_fragment_bullet_list_with_formatting() {
    let xml = write_markdown_to_fragment_xml("- Item with **bold** text");
    assert!(
        xml.contains("<bold>bold</bold>"),
        "Expected bold in list item, got: {}",
        xml
    );
}

#[test]
fn test_write_markdown_fragment_ordered_list() {
    let markdown = "1. First\n2. Second\n3. Third";
    let xml = write_markdown_to_fragment_xml(markdown);

    assert!(
        xml.contains("<orderedList start=\"1\">"),
        "Expected orderedList with start attr, got: {}",
        xml
    );
    assert!(
        xml.contains("<listItem>"),
        "Expected listItem, got: {}",
        xml
    );
    assert!(
        xml.contains("<paragraph>First</paragraph>"),
        "Expected First, got: {}",
        xml
    );
}

#[test]
fn test_write_markdown_fragment_task_list() {
    let markdown = "- [ ] Unchecked task\n- [x] Checked task";
    let xml = write_markdown_to_fragment_xml(markdown);

    assert!(
        xml.contains("<taskList>"),
        "Expected taskList, got: {}",
        xml
    );
    assert!(
        xml.contains("<taskItem checked=\"false\">"),
        "Expected unchecked task, got: {}",
        xml
    );
    assert!(
        xml.contains("<taskItem checked=\"true\">"),
        "Expected checked task, got: {}",
        xml
    );
    assert!(
        xml.contains("Unchecked task"),
        "Expected task text, got: {}",
        xml
    );
}

#[test]
fn test_write_markdown_fragment_blockquote() {
    let markdown = "> This is a quote\n> Second line";
    let xml = write_markdown_to_fragment_xml(markdown);

    assert!(
        xml.contains("<blockquote>"),
        "Expected blockquote, got: {}",
        xml
    );
    assert!(
        xml.contains("<paragraph>This is a quote</paragraph>"),
        "Expected quote text, got: {}",
        xml
    );
}

#[test]
fn test_write_markdown_fragment_blockquote_with_formatting() {
    let xml = write_markdown_to_fragment_xml("> Quote with *italic*");
    assert!(
        xml.contains("<italic>italic</italic>"),
        "Expected italic in blockquote, got: {}",
        xml
    );
}

#[test]
fn test_write_markdown_fragment_paragraph() {
    let xml = write_markdown_to_fragment_xml("Simple paragraph text");
    assert_eq!(xml, "<paragraph>Simple paragraph text</paragraph>");
}

#[test]
fn test_write_markdown_fragment_inline_formatting() {
    let xml = write_markdown_to_fragment_xml("Text with **bold** and *italic* and `code`");
    assert!(
        xml.contains("<bold>bold</bold>"),
        "Expected bold, got: {}",
        xml
    );
    assert!(
        xml.contains("<italic>italic</italic>"),
        "Expected italic, got: {}",
        xml
    );
    assert!(
        xml.contains("<code>code</code>"),
        "Expected code, got: {}",
        xml
    );
}

// ---------------------------------------------------------------------------
// Link & Image
// ---------------------------------------------------------------------------

#[test]
fn test_write_markdown_fragment_link() {
    // "Wodo" carries a `link` mark with href https://wodo.dev.
    let xml = write_markdown_to_fragment_xml("[Wodo](https://wodo.dev)");
    assert!(
        xml.contains("<link href=\"https://wodo.dev\">Wodo</link>"),
        "Expected link mark with href, got: {}",
        xml
    );
}

#[test]
fn test_write_markdown_fragment_link_inline() {
    // A link surrounded by other text in the same paragraph.
    let xml = write_markdown_to_fragment_xml("Visit [Wodo](https://wodo.dev) today");
    assert!(
        xml.contains("Visit "),
        "Expected leading text, got: {}",
        xml
    );
    assert!(
        xml.contains("<link href=\"https://wodo.dev\">Wodo</link>"),
        "Expected link mark, got: {}",
        xml
    );
    assert!(
        xml.contains(" today"),
        "Expected trailing text, got: {}",
        xml
    );
}

#[test]
fn test_write_markdown_fragment_image() {
    // An `image` element node with the src attribute.
    let xml = write_markdown_to_fragment_xml("![pic](/api/spaces/X/attachments/Y)");
    assert!(
        xml.contains("<image"),
        "Expected image element, got: {}",
        xml
    );
    assert!(
        xml.contains("src=\"/api/spaces/X/attachments/Y\""),
        "Expected image src, got: {}",
        xml
    );
    assert!(
        xml.contains("alt=\"pic\""),
        "Expected image alt, got: {}",
        xml
    );
}

#[test]
fn test_write_markdown_fragment_image_inline_in_paragraph() {
    // An image inline within a paragraph (text before + after).
    let xml = write_markdown_to_fragment_xml("Before ![pic](/img.png) after");
    assert!(
        xml.contains("<paragraph>"),
        "Expected paragraph, got: {}",
        xml
    );
    assert!(
        xml.contains("<image") && xml.contains("src=\"/img.png\""),
        "Expected inline image node, got: {}",
        xml
    );
    // Surrounding text preserved.
    assert!(
        xml.contains("Before ") && xml.contains(" after"),
        "Expected surrounding text, got: {}",
        xml
    );
}

#[test]
fn test_write_markdown_fragment_image_no_alt() {
    // Empty alt → no alt attribute emitted.
    let xml = write_markdown_to_fragment_xml("![](/img.png)");
    assert!(
        xml.contains("src=\"/img.png\""),
        "Expected image src, got: {}",
        xml
    );
    assert!(!xml.contains("alt="), "Expected no alt attr, got: {}", xml);
}

// ---------------------------------------------------------------------------
// Table
// ---------------------------------------------------------------------------

#[test]
fn test_write_markdown_fragment_table_basic() {
    let markdown = "| Name | Age |\n| --- | --- |\n| Alice | 30 |\n| Bob | 25 |";
    let xml = write_markdown_to_fragment_xml(markdown);

    assert!(xml.contains("<table>"), "Expected table, got: {}", xml);
    assert!(
        xml.contains("<tableHeader"),
        "Expected tableHeader, got: {}",
        xml
    );
    assert!(
        xml.contains("<tableCell"),
        "Expected tableCell, got: {}",
        xml
    );
    assert!(xml.contains("Alice"), "Expected Alice, got: {}", xml);
    assert!(xml.contains("Bob"), "Expected Bob, got: {}", xml);
    // No colspan/rowspan attributes — omitted so tiptap uses numeric defaults
    assert!(
        !xml.contains("colspan"),
        "Should NOT have colspan attr (yrs stores as string, breaks tiptap), got: {}",
        xml
    );
}

#[test]
fn test_write_markdown_fragment_consecutive_tables() {
    let markdown = "| A | B |\n| --- | --- |\n| 1 | 2 |\n\n| X | Y |\n| --- | --- |\n| 3 | 4 |";
    let xml = write_markdown_to_fragment_xml(markdown);

    let table_count = xml.matches("<table>").count();
    assert_eq!(
        table_count, 2,
        "Expected 2 separate tables, got {}: {}",
        table_count, xml
    );
    assert!(
        xml.contains("<paragraph>1</paragraph>"),
        "First table cell, got: {}",
        xml
    );
    assert!(
        xml.contains("<paragraph>3</paragraph>"),
        "Second table cell, got: {}",
        xml
    );
}

#[test]
fn test_write_markdown_fragment_table_with_formatting() {
    let markdown = "| Feature | Status |\n| --- | --- |\n| **Tables** | `done` |";
    let xml = write_markdown_to_fragment_xml(markdown);

    assert!(
        xml.contains("<bold>Tables</bold>"),
        "Expected bold, got: {}",
        xml
    );
    assert!(
        xml.contains("<code>done</code>"),
        "Expected code, got: {}",
        xml
    );
}

#[test]
fn test_write_markdown_fragment_table_header_only() {
    let markdown = "| Col A | Col B |\n| --- | --- |";
    let xml = write_markdown_to_fragment_xml(markdown);

    assert!(xml.contains("<table>"), "Expected table, got: {}", xml);
    assert!(
        xml.contains("<tableHeader"),
        "Expected headers, got: {}",
        xml
    );
    assert!(
        !xml.contains("<tableCell"),
        "No data cells expected, got: {}",
        xml
    );
}

#[test]
fn test_write_markdown_fragment_table_padding() {
    let markdown = "| A | B | C |\n| --- | --- | --- |\n| x |";
    let xml = write_markdown_to_fragment_xml(markdown);

    let header_count = xml.matches("<tableHeader").count();
    let cell_count = xml.matches("<tableCell").count();
    assert_eq!(header_count, 3, "Expected 3 headers, got: {}", xml);
    assert_eq!(cell_count, 3, "Expected 3 cells (2 padded), got: {}", xml);
}

#[test]
fn test_write_markdown_fragment_table_escaped_pipe() {
    let markdown = "| A | B |\n| --- | --- |\n| hello \\| world | ok |";
    let xml = write_markdown_to_fragment_xml(markdown);

    assert!(
        xml.contains("hello | world"),
        "Expected unescaped pipe in cell, got: {}",
        xml
    );
}

#[test]
fn test_write_markdown_fragment_table_in_document() {
    let markdown = "# Report\n\nSome intro text.\n\n| Metric | Value |\n| --- | --- |\n| Speed | Fast |\n\nConclusion paragraph.";
    let xml = write_markdown_to_fragment_xml(markdown);

    assert!(
        xml.contains("<heading level=\"1\">Report</heading>"),
        "Expected heading, got: {}",
        xml
    );
    assert!(
        xml.contains("<paragraph>Some intro text.</paragraph>"),
        "Expected intro, got: {}",
        xml
    );
    assert!(xml.contains("<table>"), "Expected table, got: {}", xml);
    assert!(
        xml.contains("<paragraph>Conclusion paragraph.</paragraph>"),
        "Expected conclusion, got: {}",
        xml
    );
}

// ---------------------------------------------------------------------------
// Table helper unit
// ---------------------------------------------------------------------------

#[test]
fn test_scan_table_separator_valid() {
    assert_eq!(scan_table_separator("| --- | --- |"), Some(2));
    assert_eq!(scan_table_separator("| :--- | ---: |"), Some(2));
    assert_eq!(scan_table_separator("| :---: | --- |"), Some(2));
    assert_eq!(scan_table_separator("--- | ---"), Some(2));
    assert_eq!(scan_table_separator("| - | - |"), Some(2));
    assert_eq!(scan_table_separator("| --- | --- | --- |"), Some(3));
}

#[test]
fn test_scan_table_separator_invalid() {
    assert_eq!(scan_table_separator("| abc | def |"), None);
    assert_eq!(scan_table_separator("no pipes here"), None);
    assert_eq!(scan_table_separator("| | |"), None); // no dashes
    assert_eq!(scan_table_separator(""), None);
}

#[test]
fn test_split_table_row_basic() {
    assert_eq!(split_table_row("| a | b | c |"), vec!["a", "b", "c"]);
    assert_eq!(split_table_row("a | b | c"), vec!["a", "b", "c"]);
    assert_eq!(split_table_row("| a | b"), vec!["a", "b"]);
}

#[test]
fn test_split_table_row_escaped() {
    assert_eq!(split_table_row("| a \\| b | c |"), vec!["a | b", "c"]);
}

#[test]
fn test_split_table_row_empty_cells() {
    assert_eq!(split_table_row("| | b |"), vec!["", "b"]);
    assert_eq!(split_table_row("| a | |"), vec!["a", ""]);
}

#[test]
fn test_write_markdown_fragment_comprehensive() {
    // All block types together.
    let markdown = r#"# Heading 1

## Heading 2 with **bold**

Regular paragraph with `code` and *italic*.

- Bullet item 1
- Bullet item with **bold**

1. Ordered item 1
2. Ordered item 2

- [ ] Unchecked task
- [x] Checked task

```rust
fn main() {
    println!("Hello");
}
```

> Blockquote with *italic*

| Col A | Col B |
| --- | --- |
| val 1 | val 2 |"#;

    let xml = write_markdown_to_fragment_xml(markdown);

    // Verify all block types are present
    assert!(
        xml.contains("<heading level=\"1\">Heading 1</heading>"),
        "Expected heading 1, got: {}",
        xml
    );
    assert!(
        xml.contains("<heading level=\"2\">"),
        "Expected heading 2, got: {}",
        xml
    );
    assert!(
        xml.contains("<bulletList>"),
        "Expected bulletList, got: {}",
        xml
    );
    assert!(
        xml.contains("<orderedList"),
        "Expected orderedList, got: {}",
        xml
    );
    assert!(
        xml.contains("<taskList>"),
        "Expected taskList, got: {}",
        xml
    );
    assert!(
        xml.contains("<taskItem checked=\"false\">"),
        "Expected unchecked task, got: {}",
        xml
    );
    assert!(
        xml.contains("<taskItem checked=\"true\">"),
        "Expected checked task, got: {}",
        xml
    );
    assert!(
        xml.contains("<codeBlock"),
        "Expected codeBlock, got: {}",
        xml
    );
    assert!(
        xml.contains("<blockquote>"),
        "Expected blockquote, got: {}",
        xml
    );
    assert!(
        xml.contains("<code>code</code>"),
        "Expected inline code, got: {}",
        xml
    );
    assert!(
        xml.contains("<italic>italic</italic>"),
        "Expected italic, got: {}",
        xml
    );
    assert!(
        xml.contains("<bold>bold</bold>"),
        "Expected bold, got: {}",
        xml
    );
    assert!(xml.contains("<table>"), "Expected table, got: {}", xml);
    assert!(
        xml.contains("<tableHeader"),
        "Expected tableHeader, got: {}",
        xml
    );
    assert!(
        xml.contains("<paragraph>val 1</paragraph>"),
        "Expected table cell content, got: {}",
        xml
    );
}

// ---------------------------------------------------------------------------
// write_markdown_to_fragment (whole documents)
// ---------------------------------------------------------------------------

#[test]
fn test_write_markdown_fragment_research_document() {
    let markdown = r#"## Research Findings

### Tools by Technology

**Rust (Cargo)**
- **cargo-about** - Generates license reports

```bash
cargo about init
```

> Note: This is recommended"#;

    let xml = write_markdown_to_fragment_xml(markdown);

    // Headings must NOT be rendered as paragraphs with literal markdown
    assert!(
        !xml.contains("<paragraph>## Research"),
        "Heading should not be in paragraph: {}",
        xml
    );
    assert!(
        xml.contains("<heading level=\"2\">Research Findings</heading>"),
        "Expected heading 2, got: {}",
        xml
    );
    assert!(
        xml.contains("<heading level=\"3\">Tools by Technology</heading>"),
        "Expected heading 3, got: {}",
        xml
    );
    assert!(
        xml.contains("<bold>Rust (Cargo)</bold>"),
        "Expected bold paragraph, got: {}",
        xml
    );
    assert!(
        xml.contains("<bulletList>"),
        "Expected bulletList, got: {}",
        xml
    );
    assert!(
        xml.contains("<codeBlock language=\"bash\">"),
        "Expected codeBlock, got: {}",
        xml
    );
    assert!(
        xml.contains("<blockquote>"),
        "Expected blockquote, got: {}",
        xml
    );
}

// ---------------------------------------------------------------------------
// Lines
// ---------------------------------------------------------------------------

#[test]
fn headings_have_one_to_six_marks() {
    assert_eq!(try_parse_heading_line("# One"), Some((1, "One".to_string())));
    assert_eq!(try_parse_heading_line("###### Six"), Some((6, "Six".to_string())));
    assert_eq!(try_parse_heading_line("####### Seven"), None);
    assert_eq!(try_parse_heading_line("#tag"), None);
    assert_eq!(try_parse_heading_line("plain"), None);
}

#[test]
fn lists_are_told_by_their_first_line() {
    assert!(is_task_list_start("- [ ] open"));
    assert!(is_task_list_start("- [x] done"));
    assert!(!is_task_list_start("- plain"));
    assert!(is_ordered_list_start("12. twelfth"));
    assert!(!is_ordered_list_start("v1. no"));
    assert!(!is_ordered_list_start("1.no space"));
}

#[test]
fn an_image_alone_on_its_line_stands_alone() {
    assert_eq!(
        try_parse_standalone_image("  ![alt](/a.png) "),
        Some(("alt".to_string(), "/a.png".to_string()))
    );
    assert_eq!(try_parse_standalone_image("![alt](/a.png) and text"), None);
    assert_eq!(try_parse_standalone_image("text"), None);
}

#[test]
fn marks_after_an_image_stay_on_their_text() {
    let xml = write_markdown_to_fragment_xml("a ![p](/p.png) **b** c");
    assert!(xml.contains("<bold>b</bold>"), "{xml}");
}

#[test]
fn a_line_without_a_number_is_its_own_text() {
    assert_eq!(extract_ordered_list_text("Note. See below"), "Note. See below");
    assert_eq!(extract_ordered_list_text("  . odd "), ". odd");
    assert_eq!(extract_ordered_list_text(" 3. a. b "), "a. b");
}
