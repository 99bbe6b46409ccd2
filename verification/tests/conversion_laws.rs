//! What holds of every conversion, on concrete sources.

use wodo_interop::export::types::SpaceExport;
use wodo_interop::import::convert::common::{slugify, Attachments};
use wodo_interop::import::convert::linear::uploads::rewrite_inline_images;
use wodo_interop::import::convert::jira::{
    self, JiraComment, JiraComments, JiraFields, JiraIssue, JiraIssueLink, JiraLinkType,
    JiraLinkedIssue, JiraProject, JiraStatus, JiraStatusCategory, JiraUser,
};
use wodo_interop::import::convert::linear::{
    self, LinearComment, LinearEstimate, LinearIssue, LinearLabelNodes, LinearLabelParent,
    LinearLabelRef, LinearRef, LinearRelation, LinearTeam, LinearWorkflowState, LinearWorkspace,
};
use wodo_interop::json::Json;

fn s(text: &str) -> String {
    text.to_string()
}

fn reference(id: &str) -> Option<LinearRef> {
    Some(LinearRef { id: s(id) })
}

fn relation(kind: &str, from: &str, to: &str) -> LinearRelation {
    LinearRelation {
        id: format!("{from}-{to}"),
        relation_type: s(kind),
        issue: reference(from),
        related_issue: reference(to),
    }
}

fn workspace() -> LinearWorkspace {
    let label = |id: &str, group: Option<&str>| LinearLabelRef {
        id: s(id),
        name: s(id),
        color: None,
        parent: group.map(|g| LinearLabelParent { id: s(g), name: Some(s("Group")) }),
    };
    let issue = |id: &str, number: i64| LinearIssue {
        id: s(id),
        number,
        title: format!("Title of {id}"),
        created_at: Some(s("2026-01-01T00:00:00Z")),
        state: reference("done"),
        priority: 1,
        estimate: Some(LinearEstimate { is_zero: false, units: 3 }),
        labels: LinearLabelNodes { nodes: vec![label("low", Some("complexity")), label("bug", None)] },
        ..Default::default()
    };
    LinearWorkspace {
        team: LinearTeam { id: s("t"), key: s("WMT"), name: s("Web"), ..Default::default() },
        issues: vec![issue("a", 13), issue("b", 2)],
        comments: vec![LinearComment {
            id: s("c"),
            body: s("Hello"),
            issue: reference("b"),
            ..Default::default()
        }],
        workflow_states: vec![
            LinearWorkflowState {
                id: s("done"),
                name: s("Done"),
                state_type: s("completed"),
                position: 2,
                color: None,
            },
            LinearWorkflowState {
                id: s("todo"),
                name: s("Todo"),
                state_type: s("unstarted"),
                position: 1,
                color: None,
            },
        ],
        issue_relations: vec![
            relation("blocks", "a", "b"),
            relation("duplicate", "b", "a"),
            relation("blocks", "a", "elsewhere"),
        ],
        ..Default::default()
    }
}

fn labels_are_defined(export: &SpaceExport) {
    for item in &export.items {
        for (label, value) in item.labels.entries() {
            let def = export.labels.definitions.get(label).expect("label is defined");
            assert!(def.values.contains_key(value), "value is defined");
        }
    }
}

fn links_meet(export: &SpaceExport) {
    let has = |id: &String| export.items.iter().any(|i| i.id == *id);
    for item in &export.items {
        assert!(item.blocked_by.iter().all(has));
        assert!(item.duplicate_of.iter().all(has));
    }
}

#[test]
fn linear_conversions_are_repeatable() {
    let ws = workspace();
    let a = linear::conversion::convert_at(&ws, "2026-06-01T00:00:00Z");
    let b = linear::conversion::convert_at(&ws, "2027-06-01T00:00:00Z");
    assert_eq!(a.export.space.id, b.export.space.id);
    assert_eq!(a.export.labels.order, b.export.labels.order);
    assert_eq!(a.warnings, b.warnings);
    for (x, y) in a.export.items.iter().zip(&b.export.items) {
        assert_eq!(x.id, y.id);
        assert_eq!(x.labels.entries(), y.labels.entries());
        assert_eq!(x.blocked_by, y.blocked_by);
    }
    assert_eq!(a.export.exported_at, "2026-06-01T00:00:00Z");
}

#[test]
fn linear_labels_are_defined_and_links_meet() {
    let (export, warnings) = linear::linear_to_space_export(&workspace());
    labels_are_defined(&export);
    links_meet(&export);
    assert_eq!(export.items[1].blocked_by, vec![export.items[0].id.clone()]);
    assert_eq!(export.items[1].duplicate_of, Some(export.items[0].id.clone()));
    assert_eq!(
        warnings,
        vec!["1 issue relation(s) referenced an issue outside the import and were dropped"]
    );
}

#[test]
fn linear_issues_and_comments_are_kept() {
    let (export, _) = linear::linear_to_space_export(&workspace());
    assert_eq!(export.items[0].short_id, Some(13));
    assert_eq!(export.items[1].short_id, Some(2));
    assert_eq!(export.items[0].title, "Title of a");
    assert_eq!(export.items[0].created_at.as_deref(), Some("2026-01-01T00:00:00Z"));
    assert_eq!(export.items[1].comments.len(), 1);
    assert!(export.items[0].comments.is_empty());
    let status = export.labels.definitions.get(&export.labels.order[0]).unwrap();
    let names: Vec<&str> =
        status.values_order.iter().map(|v| status.values.get(v).unwrap().name.as_str()).collect();
    assert_eq!(names, vec!["Todo", "Done"]);
    assert!(status.values.get(&status.values_order[1]).unwrap().is_completion_state);
    assert!(!status.values.get(&status.values_order[0]).unwrap().is_completion_state);
}

#[test]
fn linear_files_are_attached_once() {
    let mut ws = workspace();
    let link = "![p](https://uploads.linear.app/x/p.png)";
    ws.issues[0].description = Some(format!("{link} and again {link}"));
    ws.comments[0].body = s(link);
    let c = linear::convert(&ws);
    assert_eq!(c.export.attachments.len(), 1);
    assert_eq!(c.attachment_urls.len(), 1);
    ws.issues[0].description = Some(s("[plain](https://example.com/a.png)"));
    ws.comments[0].body = s("nothing");
    let c = linear::convert(&ws);
    assert!(c.export.attachments.is_empty());
    assert_eq!(
        c.export.items[0].description_text.as_deref(),
        Some("[plain](https://example.com/a.png)")
    );
}

fn paragraph(text: &str) -> Json {
    let text = Json::Object(vec![
        (s("type"), Json::Str(s("text"))),
        (s("text"), Json::Str(s(text))),
    ]);
    let paragraph = Json::Object(vec![
        (s("type"), Json::Str(s("paragraph"))),
        (s("content"), Json::Array(vec![text])),
    ]);
    Json::Object(vec![
        (s("type"), Json::Str(s("doc"))),
        (s("content"), Json::Array(vec![paragraph])),
    ])
}

fn issues() -> Vec<JiraIssue> {
    let issue = |id: &str, key: &str, category: &str| JiraIssue {
        id: s(id),
        key: s(key),
        fields: JiraFields {
            summary: format!("Summary of {key}"),
            status: JiraStatus {
                id: format!("s-{category}"),
                name: s(category),
                status_category: JiraStatusCategory { key: s(category), ..Default::default() },
            },
            labels: vec![s("one"), s("two")],
            updated: Some(s("2026-02-01T00:00:00Z")),
            ..Default::default()
        },
    };
    let mut first = issue("1", "MTR-7", "done");
    first.fields.issue_links = vec![
        JiraIssueLink {
            link_type: JiraLinkType { name: s("Blocks") },
            outward_issue: Some(JiraLinkedIssue { id: s("2"), key: s("MTR-9") }),
            inward_issue: None,
        },
        JiraIssueLink {
            link_type: JiraLinkType { name: s("Blocks") },
            outward_issue: Some(JiraLinkedIssue { id: s("77"), key: s("ELSE-1") }),
            inward_issue: None,
        },
    ];
    let mut second = issue("2", "MTR-9", "new");
    second.fields.comment = JiraComments {
        comments: vec![JiraComment {
            id: s("c"),
            author: Some(JiraUser {
                account_id: s("acc"),
                display_name: s("Timo"),
                email_address: None,
            }),
            body: Some(paragraph("Hello")),
            ..Default::default()
        }],
    };
    vec![first, second]
}

fn project() -> JiraProject {
    JiraProject { id: s("p"), key: s("MTR"), name: s("Project") }
}

#[test]
fn jira_conversions_are_repeatable() {
    let v = issues();
    let a = jira::conversion::convert_at(&project(), &v, "2026-06-01T00:00:00Z");
    let b = jira::conversion::convert_at(&project(), &v, "2027-06-01T00:00:00Z");
    assert_eq!(a.export.space.id, b.export.space.id);
    assert_eq!(a.export.labels.order, b.export.labels.order);
    assert_eq!(a.warnings, b.warnings);
    for (x, y) in a.export.items.iter().zip(&b.export.items) {
        assert_eq!(x.id, y.id);
        assert_eq!(x.labels.entries(), y.labels.entries());
        assert_eq!(x.blocked_by, y.blocked_by);
    }
}

#[test]
fn jira_labels_are_defined_and_links_meet() {
    let c = jira::jira_to_space_export(&project(), &issues());
    labels_are_defined(&c.export);
    links_meet(&c.export);
    assert_eq!(c.export.items[1].blocked_by, vec![c.export.items[0].id.clone()]);
    assert!(c.warnings.iter().any(|w| w.contains("outside the import")), "{:?}", c.warnings);
    assert_eq!(c.warnings.iter().filter(|w| w.contains("labels")).count(), 2);
}

#[test]
fn jira_issues_and_comments_are_kept() {
    let c = jira::jira_to_space_export(&project(), &issues());
    assert_eq!(c.export.items[0].short_id, Some(7));
    assert_eq!(c.export.items[1].short_id, Some(9));
    assert_eq!(c.export.items[1].title, "Summary of MTR-9");
    assert_eq!(c.export.items[0].updated_at.as_deref(), Some("2026-02-01T00:00:00Z"));
    assert_eq!(c.export.items[1].comments.len(), 1);
    assert_eq!(c.export.items[1].comments[0].content_text.as_deref(), Some("Hello"));
    assert!(c.export.items[0].comments.is_empty());
    let status = c.export.labels.definitions.get(&c.export.labels.order[0]).unwrap();
    let last = status.values.get(status.values_order.last().unwrap()).unwrap();
    assert_eq!(last.name, "done");
    assert!(last.is_completion_state);
}

#[test]
fn slugs_hold_letters_digits_and_single_dashes() {
    assert_eq!(slugify("My Web Team"), "my-web-team");
    assert_eq!(slugify("  --Ünïcode & more!! "), "n-code-more");
    assert_eq!(slugify("already-fine-9"), "already-fine-9");
}

#[test]
fn a_slug_is_its_own_slug() {
    for name in ["My Web Team", "  --x-- y", "", "---", "A1"] {
        let slug = slugify(name);
        assert_eq!(slugify(&slug), slug);
    }
}

#[test]
fn uploads_stay_in_step_with_their_urls() {
    let mut atts = Attachments::new();
    let one = "https://uploads.linear.app/a/one.png";
    let two = "https://uploads.linear.app/a/two.pdf";
    let text = format!("![x]({one}) and {two} and [again]({one})");
    let first = rewrite_inline_images(&text, "space", &mut atts, "u", "t");
    assert!(!first.contains("uploads.linear.app"));
    assert_eq!(atts.list.len(), 2);
    assert_eq!(atts.list[0].size_bytes, 0);
    let id = atts.list[0].id.clone();
    rewrite_inline_images(&format!("{two} {one}?v=2"), "space", &mut atts, "u", "t");
    assert_eq!(atts.list.len(), 3);
    assert_eq!(atts.list[0].id, id);
    for a in &atts.list {
        assert!(atts.urls.contains_key(&a.id));
    }
    assert_eq!(atts.urls.get(&id).map(String::as_str), Some(one));
    assert_eq!(rewrite_inline_images("plain", "space", &mut atts, "u", "t"), "plain");
    assert_eq!(atts.list.len(), 3);
}
