//! Linear teams as space exports.

use base64::Engine;
use uuid::Uuid;
use wodo_interop::import::convert::linear::uploads::{
    filename_for_url, guess_content_type, has_usable_extension, preceding_label,
};
use wodo_interop::import::convert::linear::{
    convert, LinearComment, LinearCycle, LinearDocument, LinearEstimate, LinearIssue,
    LinearLabelNodes, LinearLabelParent, LinearLabelRef, LinearProject, LinearProjectMilestone,
    LinearProjectMilestoneNodes, LinearRef, LinearRelation, LinearTeam, LinearUser,
    LinearWorkflowState, LinearWorkspace, NS_LINEAR,
};
use wodo_interop::import::{build_space_from_export, ImportMaps};
use yrs::{ReadTxn, Transact};

const NEW_SPACE: &str = "bbbbbbbb-0000-0000-0000-000000000002";
const IMPORTER: &str = "cccccccc-0000-0000-0000-000000000003";

fn det_id(kind: &str, id: &str) -> String {
    Uuid::new_v5(&Uuid::from_u128(NS_LINEAR), format!("{kind}:{id}").as_bytes()).to_string()
}

fn st(id: &str, name: &str, ty: &str, pos: i64) -> LinearWorkflowState {
    LinearWorkflowState {
        id: id.to_string(),
        name: name.to_string(),
        state_type: ty.to_string(),
        position: pos,
        color: Some("#abcdef".to_string()),
    }
}

fn issue(id: &str, number: i64, title: &str) -> LinearIssue {
    LinearIssue {
        id: id.to_string(),
        identifier: Some(format!("WMT-{number}")),
        number,
        title: title.to_string(),
        ..Default::default()
    }
}

#[test]
fn test_filename_for_url_prefers_url_segment_with_extension() {
    // URL ends in a real filename → use it, ignore the label.
    assert_eq!(
        filename_for_url("https://uploads.linear.app/t/x/arch.png", Some("ignored")),
        "arch.png"
    );
}

#[test]
fn test_filename_for_url_falls_back_to_label_when_url_has_no_extension() {
    // Bare UUID segment (no extension) + a `name.ext` link label → use the
    // label, and the MIME is guessed from it.
    let url = "https://uploads.linear.app/t/x/3f0c1a2b-4d5e-6789-abcd-ef0123456789";
    let filename = filename_for_url(url, Some("kom.m4v"));
    assert_eq!(filename, "kom.m4v");
    assert_eq!(guess_content_type(&filename), "video/quicktime");
}

#[test]
fn test_filename_for_url_no_label_no_extension() {
    // No usable extension and no label → keep the bare segment.
    let url = "https://uploads.linear.app/t/x/3f0c1a2b-4d5e-6789-abcd-ef0123456789";
    assert_eq!(
        filename_for_url(url, None),
        "3f0c1a2b-4d5e-6789-abcd-ef0123456789"
    );
}

#[test]
fn test_has_usable_extension() {
    assert!(has_usable_extension("arch.png"));
    assert!(has_usable_extension("kom.m4v"));
    assert!(!has_usable_extension(
        "3f0c1a2b-4d5e-6789-abcd-ef0123456789"
    ));
    assert!(!has_usable_extension("noext"));
    assert!(!has_usable_extension(".hidden")); // empty stem
    assert!(!has_usable_extension("a.toolongext")); // ext too long → not usable
}

#[test]
fn test_preceding_label_recovers_image_and_link() {
    assert_eq!(
        preceding_label("foo ![kom.m4v]("),
        Some("kom.m4v".to_string())
    );
    assert_eq!(
        preceding_label("foo [kom.m4v]("),
        Some("kom.m4v".to_string())
    );
    assert_eq!(preceding_label("no opener here"), None);
    // An item-ref-looking `[[..](` is not a simple label.
    assert_eq!(preceding_label("see [[42]("), None);
}

/// A file link whose URL ends
/// in a bare UUID gets its filename + MIME from the `[name.ext]` link text.
#[test]
fn test_convert_linear_file_link_no_extension_uses_link_text() {
    let mut iss = issue("iss-vid", 99, "Has a video link");
    iss.description = Some(
        "Watch [kom.m4v](https://uploads.linear.app/team/x/3f0c1a2b-4d5e-6789-abcd-ef0123456789) here.".into(),
    );
    let ws = LinearWorkspace {
        team: LinearTeam {
            id: "team-1".into(),
            key: "WMT".into(),
            name: "Web".into(),
            ..Default::default()
        },
        issues: vec![iss],
        users: vec![LinearUser {
            id: "u1".into(),
            name: "Timo".into(),
            active: true,
            ..Default::default()
        }],
        ..Default::default()
    };
    let conv = convert(&ws);
    assert_eq!(conv.export.attachments.len(), 1);
    let att = &conv.export.attachments[0];
    assert_eq!(att.filename, "kom.m4v", "filename from link text");
    assert_eq!(
        att.content_type, "video/quicktime",
        "MIME from link-text ext"
    );
}

/// Every branch of the mapping, and an import of the export.
#[test]
fn linear_test_inline_conversion_and_import() {
    let team = LinearTeam {
        id: "team-1".into(),
        key: "WMT".into(),
        name: "My Web Team".into(),
        description: None,
        issue_estimation_type: Some("tShirt".into()),
    };

    // Workflow states: completed + canceled + duplicate (all completion),
    // plus started.
    let states = vec![
        st("s-backlog", "Backlog", "backlog", 0),
        st("s-started", "In Progress", "started", 1),
        st("s-done", "Done", "completed", 2),
        st("s-cancel", "Canceled", "canceled", 3),
        st("s-dup", "Duplicate", "duplicate", 4),
    ];

    // A group label "Type" with child "Chore", plus 2 standalone labels.
    let group_child = LinearLabelRef {
        id: "lbl-chore".into(),
        name: "Chore".into(),
        color: Some("#111111".into()),
        parent: Some(LinearLabelParent {
            id: "lbl-type".into(),
            name: Some("Type".into()),
        }),
    };
    let tag_a = LinearLabelRef {
        id: "lbl-bug".into(),
        name: "Bug".into(),
        color: Some("#EB5757".into()),
        parent: None,
    };
    let tag_b = LinearLabelRef {
        id: "lbl-feature".into(),
        name: "Feature".into(),
        color: Some("#BB87FC".into()),
        parent: None,
    };
    let issue_labels = vec![
        group_child.clone(),
        tag_a.clone(),
        tag_b.clone(),
        LinearLabelRef {
            id: "lbl-type".into(),
            name: "Type".into(),
            color: None,
            parent: None,
        },
    ];

    // Parent issue.
    let mut parent = issue("iss-parent", 10, "Parent");
    parent.state = Some(LinearRef {
        id: "s-started".into(),
    });
    parent.priority = 0; // none → no priority value

    // Child issue with: completed state, tShirt estimate 8 → "XL",
    // priority 2 (High), a group label + two standalone labels, an inline
    // image, a project + milestone + cycle, and parent link.
    let mut child = issue("iss-child", 11, "Child with everything");
    child.state = Some(LinearRef {
        id: "s-done".into(),
    });
    child.priority = 2;
    child.estimate = Some(LinearEstimate { is_zero: false, units: 8 });
    child.parent = Some(LinearRef {
        id: "iss-parent".into(),
    });
    child.project = Some(LinearRef {
        id: "proj-1".into(),
    });
    child.project_milestone = Some(LinearRef { id: "ms-1".into() });
    child.cycle = Some(LinearRef { id: "cyc-1".into() });
    child.assignee = Some(LinearRef {
        id: "user-1".into(),
    });
    child.creator = Some(LinearRef {
        id: "user-1".into(),
    });
    child.created_at = Some("2026-02-01T10:00:00.000Z".into());
    child.updated_at = Some("2026-03-01T11:00:00.000Z".into());
    child.labels = LinearLabelNodes {
        nodes: vec![group_child.clone(), tag_a.clone(), tag_b.clone()],
    };
    child.description = Some(
        "See the diagram below.\n\n![arch.png](https://uploads.linear.app/team/x/arch.png)\n\nDone.".into(),
    );

    // A canceled issue and a duplicate-state issue to assert completion.
    let mut canceled = issue("iss-cancel", 12, "Canceled one");
    canceled.state = Some(LinearRef {
        id: "s-cancel".into(),
    });
    let mut dup_state = issue("iss-dupstate", 13, "Dup state");
    dup_state.state = Some(LinearRef { id: "s-dup".into() });

    // Relations: blocks, duplicate, related, and one dangling.
    let relations = vec![
        LinearRelation {
            id: "rel-1".into(),
            relation_type: "blocks".into(),
            issue: Some(LinearRef {
                id: "iss-parent".into(),
            }),
            related_issue: Some(LinearRef {
                id: "iss-child".into(),
            }),
        },
        LinearRelation {
            id: "rel-2".into(),
            relation_type: "duplicate".into(),
            issue: Some(LinearRef {
                id: "iss-child".into(),
            }),
            related_issue: Some(LinearRef {
                id: "iss-parent".into(),
            }),
        },
        LinearRelation {
            id: "rel-3".into(),
            relation_type: "related".into(),
            issue: Some(LinearRef {
                id: "iss-parent".into(),
            }),
            related_issue: Some(LinearRef {
                id: "iss-child".into(),
            }),
        },
        LinearRelation {
            id: "rel-4".into(),
            relation_type: "blocks".into(),
            issue: Some(LinearRef {
                id: "iss-parent".into(),
            }),
            related_issue: Some(LinearRef {
                id: "iss-missing".into(),
            }),
        },
    ];

    // Threaded comments on the child.
    let comments = vec![
        LinearComment {
            id: "cmt-root".into(),
            body: "Root comment".into(),
            created_at: Some("2026-03-02T08:00:00.000Z".into()),
            edited_at: None,
            user: Some(LinearRef {
                id: "user-1".into(),
            }),
            parent: None,
            issue: Some(LinearRef {
                id: "iss-child".into(),
            }),
        },
        LinearComment {
            id: "cmt-reply".into(),
            body: "A reply".into(),
            created_at: Some("2026-03-02T09:00:00.000Z".into()),
            edited_at: None,
            user: Some(LinearRef {
                id: "user-1".into(),
            }),
            parent: Some(LinearRef {
                id: "cmt-root".into(),
            }),
            issue: Some(LinearRef {
                id: "iss-child".into(),
            }),
        },
    ];

    let projects = vec![LinearProject {
        id: "proj-1".into(),
        name: "Workflow Docs".into(),
        description: None,
        project_milestones: LinearProjectMilestoneNodes {
            nodes: vec![LinearProjectMilestone {
                id: "ms-1".into(),
                name: "Definitions".into(),
                target_date: Some("2026-07-01".into()),
            }],
        },
    }];

    let cycles = vec![LinearCycle {
        id: "cyc-1".into(),
        number: Some(1),
        name: Some("Cycle 1".into()),
        starts_at: Some("2026-06-22T11:49:27.000Z".into()),
        ends_at: Some("2026-07-06T11:49:27.000Z".into()),
        completed_at: None,
    }];

    let documents = vec![LinearDocument {
        id: "doc-1".into(),
        title: "Project doc".into(),
        content: Some("# Heading\n\nSome body.".into()),
        created_at: Some("2026-01-01T00:00:00.000Z".into()),
        updated_at: Some("2026-02-01T00:00:00.000Z".into()),
        creator: Some(LinearRef {
            id: "user-1".into(),
        }),
    }];

    let users = vec![LinearUser {
        id: "user-1".into(),
        name: "Timo".into(),
        email: Some("timo@example.com".into()),
        active: true,
        admin: true,
    }];

    let ws = LinearWorkspace {
        team,
        issues: vec![parent, child, canceled, dup_state],
        comments,
        issue_labels,
        workflow_states: states,
        cycles,
        projects,
        documents,
        users,
        issue_relations: relations,
    };

    let conv = convert(&ws);
    let export = &conv.export;

    // Completion states: all three flagged
    let status = export.labels.definitions.get(&det_id("label", "status")).unwrap();
    let done_v = status.values.get(&det_id("status_value", "s-done")).unwrap();
    let cancel_v = status.values.get(&det_id("status_value", "s-cancel")).unwrap();
    let dup_v = status.values.get(&det_id("status_value", "s-dup")).unwrap();
    let started_v = status.values.get(&det_id("status_value", "s-started")).unwrap();
    assert!(done_v.is_completion_state, "completed → completion");
    assert!(cancel_v.is_completion_state, "canceled → completion");
    assert!(dup_v.is_completion_state, "duplicate → completion");
    assert!(!started_v.is_completion_state, "started → not completion");

    // tShirt estimate 8 → XL
    let est_label = export.labels.definitions.get(&det_id("label", "estimate")).unwrap();
    let est_v = est_label.values.get(&det_id("estimate_value", "8")).unwrap();
    assert_eq!(est_v.name, "XL");

    // Items by id
    let child_item = export
        .items
        .iter()
        .find(|i| i.id == det_id("item", "iss-child"))
        .unwrap();
    let parent_item = export
        .items
        .iter()
        .find(|i| i.id == det_id("item", "iss-parent"))
        .unwrap();

    // Priority: 0 on parent → no priority value; 2 on child → High value set
    assert!(
        !parent_item
            .labels
            .contains_key(&det_id("label", "priority")),
        "priority 0 sets no value"
    );
    assert_eq!(
        child_item.labels.get(&det_id("label", "priority")),
        Some(&det_id("priority_value", "2"))
    );

    // Group label value set + Tags first-wins + warning
    assert_eq!(
        child_item.labels.get(&det_id("group_label", "lbl-type")),
        Some(&det_id("group_value", "lbl-chore")),
        "group child value set"
    );
    let tags_val = child_item.labels.get(&det_id("label", "tags"));
    assert!(
        tags_val.is_some(),
        "Tags value set (first of two standalone)"
    );
    // first-wins: exactly one of bug/feature
    let bug_v = det_id("tag_value", "lbl-bug");
    let feat_v = det_id("tag_value", "lbl-feature");
    assert!(
        tags_val == Some(&bug_v) || tags_val == Some(&feat_v),
        "Tags holds one standalone value"
    );
    assert!(
        conv.warnings
            .iter()
            .any(|w| w.contains("standalone labels")),
        "first-wins warning emitted: {:?}",
        conv.warnings
    );

    // Sub-issue parent_id
    assert_eq!(
        child_item.parent_id,
        Some(det_id("item", "iss-parent")),
        "parent_id set"
    );

    // Relations: blocks → child.blocked_by has parent; duplicate →
    // child.duplicate_of = parent; related dropped; dangling dropped + warn
    assert_eq!(child_item.blocked_by, vec![det_id("item", "iss-parent")]);
    assert_eq!(child_item.duplicate_of, Some(det_id("item", "iss-parent")));
    assert!(
        conv.warnings.iter().any(|w| w.contains("relation")),
        "dangling-relation warning emitted: {:?}",
        conv.warnings
    );

    // Cycle + milestone + project + assignee + provenance on child
    assert_eq!(child_item.cycle_id, Some(det_id("cycle", "cyc-1")));
    assert_eq!(child_item.milestone_id, Some(det_id("milestone", "ms-1")));
    assert_eq!(
        child_item.labels.get(&det_id("label", "project")),
        Some(&det_id("project_value", "proj-1"))
    );
    assert_eq!(child_item.assignee_user_ids, vec![det_id("user", "user-1")]);
    assert_eq!(child_item.created_by, Some(det_id("user", "user-1")));
    assert_eq!(
        child_item.created_at.as_deref(),
        Some("2026-02-01T10:00:00.000Z")
    );

    // Inline image: attachment minted, URL rewritten, url map entry
    assert_eq!(export.attachments.len(), 1, "one inline image attachment");
    let att = &export.attachments[0];
    assert_eq!(att.filename, "arch.png");
    assert_eq!(att.content_type, "image/png");
    assert_eq!(att.size_bytes, 0);
    assert!(!att.orphaned);
    // URL map has the original Linear URL
    assert_eq!(
        conv.attachment_urls.get(&att.id).map(String::as_str),
        Some("https://uploads.linear.app/team/x/arch.png")
    );
    // Rewritten in description_text
    let dtext = child_item.description_text.as_deref().unwrap();
    assert!(
        dtext.contains(&format!(
            "/api/spaces/{}/attachments/{}",
            export.space.id, att.id
        )),
        "URL rewritten in text: {dtext}"
    );
    assert!(
        !dtext.contains("uploads.linear.app"),
        "original URL gone from text"
    );
    // Rewritten in the encoded yjs blob too
    let dyjs = child_item.description_yjs.as_deref().unwrap();
    let decoded = base64::engine::general_purpose::STANDARD
        .decode(dyjs)
        .unwrap();
    let blob = String::from_utf8_lossy(&decoded);
    assert!(
        blob.contains(&format!("attachments/{}", att.id)),
        "rewritten URL present in yjs blob"
    );
    assert!(
        !blob.contains("uploads.linear.app"),
        "original URL gone from yjs blob"
    );

    // Threaded comment
    assert_eq!(child_item.comments.len(), 2);
    let reply = child_item
        .comments
        .iter()
        .find(|c| c.id == det_id("comment", "cmt-reply"))
        .unwrap();
    assert_eq!(reply.parent_id, Some(det_id("comment", "cmt-root")));
    assert_eq!(reply.author_id, det_id("user", "user-1"));
    assert_eq!(reply.author_name.as_deref(), Some("Timo"));

    // By Cycle view seeded (cycles exist)
    let by_cycle = export
        .views
        .definitions
        .entries()
        .iter()
        .find(|(_, v)| v.name == "By Cycle");
    assert!(by_cycle.is_some(), "By Cycle view seeded when cycles exist");
    assert!(
        export
            .views
            .definitions
            .entries()
            .iter()
            .any(|(_, v)| v.name == "By Status"),
        "By Status view always seeded"
    );

    // Space metadata
    assert_eq!(export.space.short_id_prefix.as_deref(), Some("WMT"));
    assert_eq!(export.space.name, "My Web Team");
    assert_eq!(export.space.region, "eu");
    assert!(export.space.short_id_visible);

    // Documents + milestones + cycles + users
    assert_eq!(export.documents.len(), 1);
    assert_eq!(export.documents[0].title, "Project doc");
    assert!(export.documents[0].content_yjs.is_some());
    assert_eq!(
        export.milestones.definitions.get(&det_id("milestone", "ms-1")).unwrap()
            .deadline
            .as_deref(),
        Some("2026-07-01")
    );
    assert_eq!(export.cycles.len(), 1);
    assert_eq!(export.cycles[0].name, "Cycle 1");
    assert_eq!(export.users.len(), 1);

    // The export imports.
    let result = build_space_from_export(export, NEW_SPACE, IMPORTER, &ImportMaps::default());
    assert!(
        result.space_doc.transact().get_map("config").is_some(),
        "imported space doc has config"
    );
    // 4 items: at least one carried a short_id, so max > 0
    assert!(
        result.max_short_id >= 13,
        "short_ids carried through import"
    );
}
