//! Jira projects as space exports.

use serde_json::Value;
use uuid::Uuid;
use wodo_interop::import::convert::jira::conversion::short_id_from_key;
use wodo_interop::import::convert::jira::{
    jira_to_space_export, JiraAttachment, JiraComment, JiraComments, JiraComponent, JiraFields,
    JiraIssue, JiraIssueLink, JiraIssueType, JiraLinkType, JiraLinkedIssue, JiraParent,
    JiraPriority, JiraProject, JiraSprint, JiraStatus, JiraStatusCategory, JiraUser, JiraVersion,
    StoryPoints, NS_JIRA,
};
use wodo_interop::import::{build_space_from_export, ImportMaps};
use wodo_interop::json::Json;
use yrs::{ReadTxn, Transact};

const NEW_SPACE: &str = "bbbbbbbb-0000-0000-0000-000000000002";
const IMPORTER: &str = "cccccccc-0000-0000-0000-000000000003";

fn det_id(kind: &str, id: &str) -> String {
    Uuid::new_v5(&Uuid::from_u128(NS_JIRA), format!("{kind}:{id}").as_bytes()).to_string()
}

fn json_of(v: &Value) -> Json {
    match v {
        Value::Null => Json::Null,
        Value::Bool(b) => Json::Bool(*b),
        Value::Number(n) => match n.as_u64() {
            Some(u) => Json::Unsigned(u),
            None => match n.as_i64() {
                Some(i) => Json::Negative(i),
                None => Json::Decimal(n.to_string()),
            },
        },
        Value::String(s) => Json::Str(s.clone()),
        Value::Array(items) => Json::Array(items.iter().map(json_of).collect()),
        Value::Object(fields) => {
            Json::Object(fields.iter().map(|(k, v)| (k.clone(), json_of(v))).collect())
        }
    }
}

fn json(text: &str) -> Json {
    let value: Value = serde_json::from_str(text).unwrap();
    json_of(&value)
}

fn points(n: i64) -> StoryPoints {
    StoryPoints { rank: n, text: n.to_string() }
}

fn user(acc: &str, name: &str) -> JiraUser {
    JiraUser {
        account_id: acc.to_string(),
        display_name: name.to_string(),
        email_address: None,
    }
}

fn status(id: &str, name: &str, cat: &str) -> JiraStatus {
    JiraStatus {
        id: id.to_string(),
        name: name.to_string(),
        status_category: JiraStatusCategory {
            key: cat.to_string(),
            name: cat.to_string(),
            id: 0,
        },
    }
}

fn issue(key: &str, id: &str, summary: &str) -> JiraIssue {
    JiraIssue {
        id: id.to_string(),
        key: key.to_string(),
        fields: JiraFields {
            summary: summary.to_string(),
            ..Default::default()
        },
    }
}

fn project() -> JiraProject {
    JiraProject {
        id: "10001".into(),
        key: "MTR".into(),
        name: "My test RFP".into(),
    }
}

#[test]
fn test_short_id_from_key() {
    assert_eq!(short_id_from_key("MTR-12"), Some(12));
    assert_eq!(short_id_from_key("SCRUM-1"), Some(1));
    assert_eq!(short_id_from_key("nodash"), None);
}


#[test]
fn media_correlates_by_filename_not_id() {
    // Real Jira shape: the ADF media id is a
    // media-services UUID that does NOT equal the REST attachment id, but
    // media.attrs.alt == attachment.filename.
    let mut iss = issue("MTR-5", "10005", "Has image");
    iss.fields.status = status("1", "To Do", "new");
    iss.fields.description = Some(json(
        r#"{
        "version": 1, "type": "doc",
        "content": [
            {"type":"paragraph","content":[{"type":"text","text":"See this image."}]},
            {"type":"mediaSingle","content":[
                {"type":"media","attrs":{"type":"file","id":"533c764f-media-uuid","alt":"pic.png"}}
            ]}
        ]
    }"#,
    ));
    iss.fields.attachment = vec![JiraAttachment {
        id: "10001".into(),
        filename: "pic.png".into(),
        mime_type: Some("image/png".into()),
        size: 123,
        content: Some("https://jira/rest/api/3/attachment/content/10001".into()),
        ..Default::default()
    }];

    let conv = jira_to_space_export(&project(), &[iss]);

    assert!(
        !conv
            .warnings
            .iter()
            .any(|w| w.contains("no matching attachment")),
        "inline media should resolve by filename, not id: {:?}",
        conv.warnings
    );
    let att_id = det_id("attachment", "10001");
    let att = conv
        .export
        .attachments
        .iter()
        .find(|a| a.id == att_id)
        .expect("attachment minted");
    assert_eq!(att.content_type, "image/png");
    assert_eq!(att.size_bytes, 123);
    assert_eq!(
        conv.attachment_urls.get(&att_id).map(String::as_str),
        Some("https://jira/rest/api/3/attachment/content/10001")
    );
    // Description references the rewritten attachment route, not a degraded src.
    let space = conv.export.space.id.clone();
    let dtext = conv.export.items[0]
        .description_text
        .clone()
        .unwrap_or_default();
    assert!(
        dtext.contains(&format!("/api/spaces/{space}/attachments/{att_id}")),
        "image rewritten in description: {dtext}"
    );
}

/// Every branch of the mapping, and an import of the export.
#[test]
fn jira_test_inline_conversion_and_import() {
    // Statuses: a "done"-category status NAMED "Decided" (not "Done")
    let st_decided = status("10008", "Decided", "done");
    let st_preparing = status("10004", "Preparing", "indeterminate");
    let st_todo = status("10005", "RFP creation", "new");

    // Rich ADF description with table, panel, mention, link, code, list.
    let rich = json(
        r#"{
        "type": "doc", "version": 1, "content": [
            {"type": "heading", "attrs": {"level": 2}, "content": [
                {"type": "text", "text": "CI setup"}]},
            {"type": "paragraph", "content": [
                {"type": "text", "text": "Need a "},
                {"type": "text", "text": "robust", "marks": [{"type": "strong"}]},
                {"type": "text", "text": " pipeline. See "},
                {"type": "text", "text": "wodo.dev", "marks": [
                    {"type": "link", "attrs": {"href": "https://wodo.dev"}}]},
                {"type": "text", "text": ". Owner: "},
                {"type": "mention", "attrs": {"id": "acc-1", "text": "@Timo"}},
                {"type": "text", "text": "."}]},
            {"type": "bulletList", "content": [
                {"type": "listItem", "content": [{"type": "paragraph", "content": [
                    {"type": "text", "text": "Lint"}]}]}]},
            {"type": "codeBlock", "attrs": {"language": "rust"}, "content": [
                {"type": "text", "text": "fn main() {}"}]},
            {"type": "panel", "attrs": {"panelType": "info"}, "content": [
                {"type": "paragraph", "content": [{"type": "text", "text": "4 GB RAM"}]}]},
            {"type": "table", "content": [
                {"type": "tableRow", "content": [
                    {"type": "tableHeader", "content": [{"type": "paragraph",
                        "content": [{"type": "text", "text": "Stage"}]}]},
                    {"type": "tableHeader", "content": [{"type": "paragraph",
                        "content": [{"type": "text", "text": "Time"}]}]}]},
                {"type": "tableRow", "content": [
                    {"type": "tableCell", "content": [{"type": "paragraph",
                        "content": [{"type": "text", "text": "Build"}]}]},
                    {"type": "tableCell", "content": [{"type": "paragraph",
                        "content": [{"type": "text", "text": "3m"}]}]}]}]}
        ]
    }"#,
    );

    // MTR-1: done-by-category, story points 5.0, fixVersion, attachment,
    // a comment, a Duplicate link to MTR-3, priority Medium.
    let mut mtr1 = issue("MTR-1", "10004", "Set up CI pipeline");
    mtr1.fields.status = st_decided.clone();
    mtr1.fields.priority = Some(JiraPriority {
        id: "3".into(),
        name: "Medium".into(),
    });
    mtr1.fields.issuetype = JiraIssueType {
        name: "Task".into(),
        subtask: false,
    };
    mtr1.fields.description = Some(rich);
    mtr1.fields.story_points = Some(points(5));
    mtr1.fields.components = vec![JiraComponent {
        id: "10000".into(),
        name: "Backend".into(),
    }];
    mtr1.fields.fix_versions = vec![JiraVersion {
        id: "10000".into(),
        name: "v1.0".into(),
        description: Some("First release".into()),
        release_date: Some("2026-09-30".into()),
    }];
    mtr1.fields.assignee = Some(user("acc-1", "Timo"));
    mtr1.fields.reporter = Some(user("acc-1", "Timo"));
    mtr1.fields.created = Some("2026-06-22T23:39:41.764+0200".into());
    mtr1.fields.updated = Some("2026-06-22T23:43:14.287+0200".into());
    mtr1.fields.duedate = Some("2026-07-15".into());
    mtr1.fields.attachment = vec![JiraAttachment {
        id: "10000".into(),
        filename: "rfp-notes.txt".into(),
        mime_type: Some("text/plain".into()),
        size: 62,
        content: Some("https://jira.example/attachment/content/10000".into()),
        created: Some("2026-06-22T23:43:13.793+0200".into()),
        author: Some(user("acc-1", "Timo")),
    }];
    // Duplicate link: MTR-1 duplicates MTR-3 (outward)
    mtr1.fields.issue_links = vec![JiraIssueLink {
        link_type: JiraLinkType {
            name: "Duplicate".into(),
        },
        outward_issue: Some(JiraLinkedIssue {
            id: "10006".into(),
            key: "MTR-3".into(),
        }),
        inward_issue: None,
    }];
    mtr1.fields.comment = JiraComments {
        comments: vec![JiraComment {
            id: "10000".into(),
            author: Some(user("acc-1", "Timo")),
            body: Some(json(
        r#"{"type": "doc", "version": 1, "content": [
                {"type": "paragraph", "content": [
                    {"type": "text", "text": "Pipeline draft is up."}]}]}"#,
    )),
            created: Some("2026-06-22T23:42:18.996+0200".into()),
            updated: Some("2026-06-22T23:42:18.996+0200".into()),
        }],
    };

    // MTR-2: null description, null priority, TWO components + TWO labels
    // (first-wins + warn), points 8.0, an Epic via parent (covers parent),
    // and a Blocks link from MTR-3 lands here.
    let mut mtr2 = issue("MTR-2", "10005", "Implement RFP API");
    mtr2.fields.status = st_preparing.clone();
    mtr2.fields.priority = None; // null priority
    mtr2.fields.issuetype = JiraIssueType {
        name: "Task".into(),
        subtask: false,
    };
    mtr2.fields.description = None;
    mtr2.fields.story_points = Some(points(8));
    mtr2.fields.components = vec![
        JiraComponent {
            id: "10000".into(),
            name: "Backend".into(),
        },
        JiraComponent {
            id: "10001".into(),
            name: "Frontend".into(),
        },
    ];
    mtr2.fields.labels = vec!["api".into(), "backend".into()];

    // MTR-3: To Do, Blocks MTR-2 (outward) + Relates to MTR-1 (dropped).
    let mut mtr3 = issue("MTR-3", "10006", "PDF export crashes");
    mtr3.fields.status = st_todo.clone();
    mtr3.fields.priority = Some(JiraPriority {
        id: "4".into(),
        name: "Low".into(),
    });
    mtr3.fields.issuetype = JiraIssueType {
        name: "Task".into(),
        subtask: false,
    };
    mtr3.fields.issue_links = vec![
        JiraIssueLink {
            link_type: JiraLinkType {
                name: "Blocks".into(),
            },
            outward_issue: Some(JiraLinkedIssue {
                id: "10005".into(),
                key: "MTR-2".into(),
            }),
            inward_issue: None,
        },
        JiraIssueLink {
            link_type: JiraLinkType {
                name: "Relates".into(),
            },
            outward_issue: Some(JiraLinkedIssue {
                id: "10005".into(),
                key: "MTR-2".into(),
            }),
            inward_issue: None,
        },
    ];

    // MTR-6: a SUBTASK whose parent is MTR-2 (parent covers subtasks too),
    // plus an inline sprint → cycle, exercising By Sprint view.
    let mut mtr6 = issue("MTR-6", "10009", "Write integration tests");
    mtr6.fields.status = st_todo.clone();
    mtr6.fields.issuetype = JiraIssueType {
        name: "Sub-task".into(),
        subtask: true,
    };
    mtr6.fields.parent = Some(JiraParent {
        id: "10005".into(),
        key: "MTR-2".into(),
    });
    mtr6.fields.sprints = Some(vec![JiraSprint {
        id: 3,
        name: "Importer Fixture Sprint".into(),
        state: "future".into(),
        start_date: Some("2026-06-22T09:00:00.000Z".into()),
        end_date: Some("2026-07-06T17:00:00.000Z".into()),
    }]);

    let issues = vec![mtr1, mtr2, mtr3, mtr6];
    let conv = jira_to_space_export(&project(), &issues);
    let export = &conv.export;

    // done-by-category: "Decided" is a completion state
    let status_label = export.labels.definitions.get(&det_id("label", "status")).unwrap();
    let decided_v = status_label.values.get(&det_id("status_value", "10008")).unwrap();
    assert_eq!(decided_v.name, "Decided");
    assert!(
        decided_v.is_completion_state,
        "done-category status (named Decided) is completion"
    );
    let todo_v = status_label.values.get(&det_id("status_value", "10005")).unwrap();
    assert!(
        !todo_v.is_completion_state,
        "new-category is not completion"
    );

    // Items
    let i1 = export
        .items
        .iter()
        .find(|i| i.id == det_id("item", "10004"))
        .unwrap();
    let i2 = export
        .items
        .iter()
        .find(|i| i.id == det_id("item", "10005"))
        .unwrap();
    let i6 = export
        .items
        .iter()
        .find(|i| i.id == det_id("item", "10009"))
        .unwrap();

    // short_id from key
    assert_eq!(i1.short_id, Some(1));
    assert_eq!(i6.short_id, Some(6));

    // null priority on MTR-2 → no priority value
    assert!(
        !i2.labels.contains_key(&det_id("label", "priority")),
        "null priority → no value"
    );
    assert_eq!(
        i1.labels.get(&det_id("label", "priority")),
        Some(&det_id("priority_value", "3")),
        "Medium priority value set"
    );

    // Type label set
    assert_eq!(
        i1.labels.get(&det_id("label", "type")),
        Some(&det_id("type_value", "Task"))
    );
    assert_eq!(
        i6.labels.get(&det_id("label", "type")),
        Some(&det_id("type_value", "Sub-task"))
    );

    // Component first-wins + warning (MTR-2 had 2)
    assert_eq!(
        i2.labels.get(&det_id("label", "component")),
        Some(&det_id("component_value", "10000")),
        "first component wins"
    );
    assert!(
        conv.warnings.iter().any(|w| w.contains("components")),
        "component first-wins warning: {:?}",
        conv.warnings
    );
    // Tags first-wins + warning (MTR-2 had 2 labels)
    assert_eq!(
        i2.labels.get(&det_id("label", "tags")),
        Some(&det_id("tag_value", "api")),
        "first label wins (api < backend)"
    );
    assert!(
        conv.warnings.iter().any(|w| w.contains("labels")),
        "tags first-wins warning: {:?}",
        conv.warnings
    );

    // story-points → Estimate (5.0 → "5", 8.0 → "8")
    let est_label = export.labels.definitions.get(&det_id("label", "estimate")).unwrap();
    assert_eq!(est_label.values.get(&det_id("estimate_value", "5")).unwrap().name, "5");
    assert_eq!(
        i1.labels.get(&det_id("label", "estimate")),
        Some(&det_id("estimate_value", "5"))
    );
    assert_eq!(
        i2.labels.get(&det_id("label", "estimate")),
        Some(&det_id("estimate_value", "8"))
    );

    // fixVersion → milestone (deadline = releaseDate)
    assert_eq!(i1.milestone_id, Some(det_id("milestone", "10000")));
    assert_eq!(
        export.milestones.definitions.get(&det_id("milestone", "10000")).unwrap()
            .deadline
            .as_deref(),
        Some("2026-09-30")
    );

    // sprint → cycle, item.cycle_id set, By Sprint view seeded
    assert_eq!(i6.cycle_id, Some(det_id("cycle", "3")));
    assert_eq!(export.cycles.len(), 1);
    assert_eq!(export.cycles[0].name, "Importer Fixture Sprint");
    assert!(
        export
            .views
            .definitions
            .entries()
            .iter()
            .any(|(_, v)| v.name == "By Sprint"),
        "By Sprint view seeded when sprints exist"
    );
    assert!(export
        .views
        .definitions
        .entries()
        .iter()
        .any(|(_, v)| v.name == "By Status"));

    // parent: subtask MTR-6 → MTR-2
    assert_eq!(i6.parent_id, Some(det_id("item", "10005")));

    // Links: MTR-3 Blocks MTR-2 ⇒ MTR-2.blocked_by has MTR-3
    assert_eq!(i2.blocked_by, vec![det_id("item", "10006")]);
    // MTR-1 Duplicate MTR-3 ⇒ MTR-1.duplicate_of = MTR-3
    assert_eq!(i1.duplicate_of, Some(det_id("item", "10006")));
    // Relates was dropped (no analog) and not counted as dangling (endpoint present)
    assert!(
        !conv
            .warnings
            .iter()
            .any(|w| w.contains("outside the import")),
        "no dangling-link warning: {:?}",
        conv.warnings
    );

    // assignee / created_by / dates
    assert_eq!(i1.assignee_user_ids, vec![det_id("user", "acc-1")]);
    assert_eq!(i1.created_by, Some(det_id("user", "acc-1")));
    assert_eq!(i1.due_date.as_deref(), Some("2026-07-15"));
    assert_eq!(
        i1.created_at.as_deref(),
        Some("2026-06-22T23:39:41.764+0200")
    );

    // Rich ADF description converted (table/panel/mention/link/code)
    let dtext = i1.description_text.as_deref().unwrap();
    assert!(dtext.contains("## CI setup"), "heading: {dtext}");
    assert!(dtext.contains("**robust**"), "bold: {dtext}");
    assert!(
        dtext.contains("[wodo.dev](https://wodo.dev)"),
        "link: {dtext}"
    );
    assert!(dtext.contains("@Timo"), "mention: {dtext}");
    assert!(dtext.contains("```rust"), "code fence: {dtext}");
    assert!(dtext.contains("> 4 GB RAM"), "panel→blockquote: {dtext}");
    assert!(dtext.contains("| Stage | Time |"), "table header: {dtext}");
    assert!(dtext.contains("- Lint"), "bullet: {dtext}");
    assert!(i1.description_yjs.is_some(), "description yjs encoded");

    // Comment (flat, no parent)
    assert_eq!(i1.comments.len(), 1);
    let c = &i1.comments[0];
    assert_eq!(c.id, det_id("comment", "10000"));
    assert_eq!(c.author_id, det_id("user", "acc-1"));
    assert_eq!(c.author_name.as_deref(), Some("Timo"));
    assert_eq!(c.parent_id, None, "Jira comments are flat");
    assert!(c
        .content_text
        .as_deref()
        .unwrap()
        .contains("Pipeline draft"));

    // Attachment (size + mime set, content URL recorded)
    let att = export
        .attachments
        .iter()
        .find(|a| a.id == det_id("attachment", "10000"))
        .unwrap();
    assert_eq!(att.filename, "rfp-notes.txt");
    assert_eq!(att.content_type, "text/plain");
    assert_eq!(att.size_bytes, 62);
    assert_eq!(
        conv.attachment_urls.get(&att.id).map(String::as_str),
        Some("https://jira.example/attachment/content/10000")
    );

    // Space + users
    assert_eq!(export.space.short_id_prefix.as_deref(), Some("MTR"));
    assert_eq!(export.space.name, "My test RFP");
    assert_eq!(export.space.region, "eu");
    assert!(export.users.iter().any(|u| u.id == det_id("user", "acc-1")));

    // The export imports.
    let result = build_space_from_export(export, NEW_SPACE, IMPORTER, &ImportMaps::default());
    assert!(
        result.space_doc.transact().get_map("config").is_some(),
        "imported space doc has config"
    );
    assert!(result.max_short_id >= 6, "short_ids carried through import");
}
