//! ADF rich text as Markdown.

use serde_json::Value;
use wodo_interop::import::convert::adf::adf_to_markdown;
use wodo_interop::json::Json;

fn json_of(v: &Value) -> Json {
    match v {
        Value::Null => Json::Null,
        Value::Bool(b) => Json::Bool(*b),
        Value::Number(n) => match n.as_u64() {
            Some(u) => Json::Unsigned(u),
            None => match n.as_i64() {
                Some(i) => Json::Negative(i),
                None => Json::Decimal(n.to_string()),
            },
        },
        Value::String(s) => Json::Str(s.clone()),
        Value::Array(items) => Json::Array(items.iter().map(json_of).collect()),
        Value::Object(fields) => {
            Json::Object(fields.iter().map(|(k, v)| (k.clone(), json_of(v))).collect())
        }
    }
}

fn json(text: &str) -> Json {
    let value: Value = serde_json::from_str(text).unwrap();
    json_of(&value)
}

/// A document with the given content.
fn doc(content: &str) -> Json {
    json(&format!(r#"{{"type": "doc", "version": 1, "content": {}}}"#, content))
}

#[test]
fn test_heading() {
    let adf = doc(
        r#"[
        {"type": "heading", "attrs": {"level": 2}, "content": [{"type": "text", "text": "Title"}]}
    ]"#,
    );
    assert_eq!(adf_to_markdown(&adf), "## Title");
}

#[test]
fn test_paragraph_plain() {
    let adf = doc(
        r#"[
        {"type": "paragraph", "content": [{"type": "text", "text": "Hello world"}]}
    ]"#,
    );
    assert_eq!(adf_to_markdown(&adf), "Hello world");
}

#[test]
fn test_marks_strong_em_strike_code() {
    let adf = doc(
        r#"[{"type": "paragraph", "content": [
        {"type": "text", "text": "b", "marks": [{"type": "strong"}]},
        {"type": "text", "text": " "},
        {"type": "text", "text": "i", "marks": [{"type": "em"}]},
        {"type": "text", "text": " "},
        {"type": "text", "text": "s", "marks": [{"type": "strike"}]},
        {"type": "text", "text": " "},
        {"type": "text", "text": "c", "marks": [{"type": "code"}]}
    ]}]"#,
    );
    assert_eq!(adf_to_markdown(&adf), "**b** *i* ~~s~~ `c`");
}

#[test]
fn test_link_mark() {
    let adf = doc(
        r#"[{"type": "paragraph", "content": [
        {"type": "text", "text": "See "},
        {"type": "text", "text": "wodo.dev", "marks": [
            {"type": "link", "attrs": {"href": "https://wodo.dev"}}
        ]},
        {"type": "text", "text": " now"}
    ]}]"#,
    );
    assert_eq!(
        adf_to_markdown(&adf),
        "See [wodo.dev](https://wodo.dev) now"
    );
}

#[test]
fn test_mention() {
    let adf = doc(
        r#"[{"type": "paragraph", "content": [
        {"type": "text", "text": "Owner: "},
        {"type": "mention", "attrs": {"id": "acc-1", "text": "@Timo"}}
    ]}]"#,
    );
    assert_eq!(adf_to_markdown(&adf), "Owner: @Timo");
}

#[test]
fn test_mention_without_leading_at() {
    let adf = doc(
        r#"[{"type": "paragraph", "content": [
        {"type": "mention", "attrs": {"id": "acc-1", "text": "Timo"}}
    ]}]"#,
    );
    assert_eq!(adf_to_markdown(&adf), "@Timo");
}

#[test]
fn test_bullet_list() {
    let adf = doc(
        r#"[{"type": "bulletList", "content": [
        {"type": "listItem", "content": [{"type": "paragraph", "content": [{"type": "text", "text": "one"}]}]},
        {"type": "listItem", "content": [{"type": "paragraph", "content": [{"type": "text", "text": "two"}]}]}
    ]}]"#,
    );
    assert_eq!(adf_to_markdown(&adf), "- one\n- two");
}

#[test]
fn test_ordered_list() {
    let adf = doc(
        r#"[{"type": "orderedList", "content": [
        {"type": "listItem", "content": [{"type": "paragraph", "content": [{"type": "text", "text": "a"}]}]},
        {"type": "listItem", "content": [{"type": "paragraph", "content": [{"type": "text", "text": "b"}]}]}
    ]}]"#,
    );
    assert_eq!(adf_to_markdown(&adf), "1. a\n2. b");
}

#[test]
fn test_code_block() {
    let adf = doc(
        r#"[{"type": "codeBlock", "attrs": {"language": "rust"},
        "content": [{"type": "text", "text": "fn main() {}"}]}]"#,
    );
    assert_eq!(adf_to_markdown(&adf), "```rust\nfn main() {}\n```");
}

#[test]
fn test_code_block_no_language() {
    let adf = doc(r#"[{"type": "codeBlock", "content": [{"type": "text", "text": "plain"}]}]"#);
    assert_eq!(adf_to_markdown(&adf), "```\nplain\n```");
}

#[test]
fn test_panel_to_blockquote() {
    let adf = doc(
        r#"[{"type": "panel", "attrs": {"panelType": "info"},
        "content": [{"type": "paragraph", "content": [{"type": "text", "text": "Heads up"}]}]}]"#,
    );
    assert_eq!(adf_to_markdown(&adf), "> Heads up");
}

#[test]
fn test_blockquote() {
    let adf = doc(
        r#"[{"type": "blockquote",
        "content": [{"type": "paragraph", "content": [{"type": "text", "text": "quoted"}]}]}]"#,
    );
    assert_eq!(adf_to_markdown(&adf), "> quoted");
}

#[test]
fn test_table_to_gfm() {
    let adf = doc(
        r#"[{"type": "table", "content": [
        {"type": "tableRow", "content": [
            {"type": "tableHeader", "content": [{"type": "paragraph", "content": [{"type": "text", "text": "Stage"}]}]},
            {"type": "tableHeader", "content": [{"type": "paragraph", "content": [{"type": "text", "text": "Duration"}]}]}
        ]},
        {"type": "tableRow", "content": [
            {"type": "tableCell", "content": [{"type": "paragraph", "content": [{"type": "text", "text": "Build"}]}]},
            {"type": "tableCell", "content": [{"type": "paragraph", "content": [{"type": "text", "text": "3m"}]}]}
        ]}
    ]}]"#,
    );
    let md = adf_to_markdown(&adf);
    assert_eq!(md, "| Stage | Duration |\n| --- | --- |\n| Build | 3m |");
}

#[test]
fn test_rule() {
    let adf = doc(
        r#"[
        {"type": "paragraph", "content": [{"type": "text", "text": "a"}]},
        {"type": "rule"},
        {"type": "paragraph", "content": [{"type": "text", "text": "b"}]}
    ]"#,
    );
    assert_eq!(adf_to_markdown(&adf), "a\n\n---\n\nb");
}

#[test]
fn test_hard_break() {
    let adf = doc(
        r#"[{"type": "paragraph", "content": [
        {"type": "text", "text": "line1"},
        {"type": "hardBreak"},
        {"type": "text", "text": "line2"}
    ]}]"#,
    );
    assert_eq!(adf_to_markdown(&adf), "line1\nline2");
}

#[test]
fn test_inline_card() {
    let adf = doc(
        r#"[{"type": "paragraph", "content": [
        {"type": "inlineCard", "attrs": {"url": "https://example.com"}}
    ]}]"#,
    );
    assert_eq!(
        adf_to_markdown(&adf),
        "[https://example.com](https://example.com)"
    );
}

#[test]
fn test_block_card() {
    let adf = doc(r#"[{"type": "blockCard", "attrs": {"url": "https://x.test"}}]"#);
    assert_eq!(adf_to_markdown(&adf), "[https://x.test](https://x.test)");
}

#[test]
fn test_emoji_and_status_and_date() {
    let adf = doc(
        r#"[{"type": "paragraph", "content": [
        {"type": "emoji", "attrs": {"shortName": ":smile:", "text": "🙂"}},
        {"type": "text", "text": " "},
        {"type": "status", "attrs": {"text": "DONE"}},
        {"type": "text", "text": " "},
        {"type": "date", "attrs": {"timestamp": "2026-06-20"}}
    ]}]"#,
    );
    assert_eq!(adf_to_markdown(&adf), "🙂 DONE 2026-06-20");
}

#[test]
fn test_media_sentinel() {
    let adf = doc(
        r#"[{"type": "mediaSingle", "content": [
        {"type": "media", "attrs": {"id": "media-123", "type": "file",
            "collection": "c", "alt": "diagram"}}
    ]}]"#,
    );
    assert_eq!(adf_to_markdown(&adf), "![diagram](jira-media:media-123)");
}

#[test]
fn test_media_no_alt() {
    let adf = doc(
        r#"[{"type": "mediaGroup", "content": [
        {"type": "media", "attrs": {"id": "m-1", "type": "file"}}
    ]}]"#,
    );
    assert_eq!(adf_to_markdown(&adf), "![](jira-media:m-1)");
}

#[test]
fn test_unknown_node_recurses() {
    // An unknown wrapper still yields its text.
    let adf = doc(
        r#"[
        {"type": "expand", "attrs": {"title": "x"}, "content": [
            {"type": "paragraph", "content": [{"type": "text", "text": "inside expand"}]}
        ]}
    ]"#,
    );
    assert_eq!(adf_to_markdown(&adf), "inside expand");
}

#[test]
fn test_empty_doc() {
    let adf = doc(r#"[]"#);
    assert_eq!(adf_to_markdown(&adf), "");
}

#[test]
fn test_multiple_blocks_blank_separated() {
    let adf = doc(
        r#"[
        {"type": "heading", "attrs": {"level": 1}, "content": [{"type": "text", "text": "H"}]},
        {"type": "paragraph", "content": [{"type": "text", "text": "p1"}]},
        {"type": "paragraph", "content": [{"type": "text", "text": "p2"}]}
    ]"#,
    );
    assert_eq!(adf_to_markdown(&adf), "# H\n\np1\n\np2");
}

#[test]
fn markdown_ends_with_no_white_space() {
    let adf = doc(
        r#"[
            {"type": "paragraph", "content": [{"type": "text", "text": "a  "}]},
            {"type": "paragraph", "content": []}
        ]"#,
    );
    assert_eq!(adf_to_markdown(&adf), "a");
}

#[test]
fn heading_levels_are_clamped() {
    let adf = doc(
        r#"[
            {"type": "heading", "attrs": {"level": 9}, "content": [{"type": "text", "text": "x"}]},
            {"type": "heading", "content": [{"type": "text", "text": "y"}]}
        ]"#,
    );
    assert_eq!(adf_to_markdown(&adf), "###### x\n\n# y");
}

#[test]
fn what_is_no_node_is_empty() {
    assert_eq!(adf_to_markdown(&json("null")), "");
    assert_eq!(adf_to_markdown(&json("{}")), "");
    assert_eq!(adf_to_markdown(&json("[1, 2]")), "");
}

#[test]
fn nested_lists_are_flattened_with_a_space() {
    let text = |t: &str| {
        format!(r#"{{"type": "paragraph", "content": [{{"type": "text", "text": "{t}"}}]}}"#)
    };
    let item = |blocks: &str| format!(r#"{{"type": "listItem", "content": [{blocks}]}}"#);
    let list = |kind: &str, items: &str| format!(r#"{{"type": "{kind}", "content": [{items}]}}"#);
    let inner = list("bulletList", &format!("{}, {}", item(&text("b")), item(&text("c"))));
    let outer = list("bulletList", &item(&format!("{}, {}", text("a"), inner)));
    assert_eq!(adf_to_markdown(&doc(&format!("[{outer}]"))), "- a b c");
    // And deeper.
    let deep = list("orderedList", &item(&format!("{}, {}", text("x"), outer)));
    assert_eq!(adf_to_markdown(&doc(&format!("[{deep}]"))), "1. x a b c");
}
