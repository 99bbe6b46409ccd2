//! Spaces made from exports.

use base64::Engine;
use wodo_interop::export::types::{
    ExportAttachment, ExportComment, ExportCycle, ExportDocument, ExportItem, ExportMilestoneDef,
    ExportMilestones, ExportSpaceMetadata, ExportTeam, ExportUser, SpaceExport,
};
use wodo_interop::filter_token::encode_filter_uuid;
use wodo_interop::import::convert::common::markdown_to_content_yjs;
use wodo_interop::import::losses::{count_losses, loss_warnings};
use wodo_interop::import::space::build_space_with;
use wodo_interop::import::space_config::trailing_number;
use wodo_interop::import::{
    build_space_from_export, try_build_space_from_export, ImportBuildResult, ImportMaps,
};
use wodo_interop::str_map::StrMap;
use wodo_interop::template::types::{
    TemplateArchiveConfig, TemplateCycleConfig, TemplateLabelDef, TemplateLabelValue,
    TemplateLabels, TemplateViewDef, TemplateViews,
};
use yrs::Map as _;
use yrs::{Any, Array, Doc, GetString, MapRef, Out, ReadTxn, Transact, Transaction};

const OLD_SPACE: &str = "66666666-6666-6666-6666-666666666666";
const NEW_SPACE: &str = "bbbbbbbb-0000-0000-0000-000000000002";
const IMPORTER: &str = "cccccccc-0000-0000-0000-000000000003";
const ALICE: &str = "dddddddd-0000-0000-0000-000000000004";
const ALICE_HERE: &str = "eeeeeeee-0000-0000-0000-000000000005";
const STRANGER: &str = "ffffffff-0000-0000-0000-000000000006";
const DOC: &str = "11111111-1111-1111-1111-111111111111";
const FORK: &str = "22222222-2222-2222-2222-222222222222";
const ATT: &str = "77777777-7777-7777-7777-777777777777";

fn s(text: &str) -> String {
    text.to_string()
}

fn empty_export() -> SpaceExport {
    SpaceExport {
        format: s("wodo-space-export-v2"),
        exported_at: s("2026-06-11T00:00:00Z"),
        space: ExportSpaceMetadata {
            id: s(OLD_SPACE),
            name: s("Demo"),
            slug: s("demo"),
            region: s("eu"),
            short_id_prefix: Some(s("DMO")),
            short_id_visible: true,
            created_at: s("2026-01-01T00:00:00Z"),
        },
        labels: TemplateLabels { order: vec![], primary_label_id: None, definitions: StrMap::new() },
        milestones: ExportMilestones { order: vec![], definitions: StrMap::new() },
        cycle_config: None,
        cycles: vec![],
        archive_config: None,
        views: TemplateViews { order: vec![], definitions: StrMap::new() },
        items: vec![],
        documents: vec![],
        attachments: vec![],
        users: vec![],
        teams: vec![],
        overview_text: None,
        overview_yjs: None,
    }
}

fn item(id: &str, short_id: Option<i64>) -> ExportItem {
    ExportItem { id: s(id), short_id, title: s("Title"), ..Default::default() }
}

fn comment(id: &str, author: &str, parent: Option<&str>) -> ExportComment {
    ExportComment {
        id: s(id),
        author_id: s(author),
        author_name: Some(s("Named")),
        content_text: Some(s("text")),
        content_yjs: markdown_to_content_yjs("Hello"),
        created_at: Some(s("2026-02-01T00:00:00Z")),
        edited_at: None,
        deleted: false,
        deleted_at: None,
        parent_id: parent.map(s),
    }
}

fn alice_mapped() -> ImportMaps {
    let mut maps = ImportMaps::default();
    maps.user_map.insert(s(ALICE), s(ALICE_HERE));
    maps
}

fn import(export: &SpaceExport, maps: &ImportMaps) -> ImportBuildResult {
    build_space_from_export(export, NEW_SPACE, IMPORTER, maps)
}

fn map_at(txn: &Transaction<'_>, m: &MapRef, key: &str) -> MapRef {
    match m.get(txn, key) {
        Some(Out::YMap(m)) => m,
        other => panic!("{key} is no map: {other:?}"),
    }
}

fn root(txn: &Transaction<'_>, name: &str) -> MapRef {
    txn.get_map(name).unwrap_or_else(|| panic!("no root {name}"))
}

fn text_at(txn: &Transaction<'_>, m: &MapRef, key: &str) -> Option<String> {
    match m.get(txn, key) {
        Some(Out::Any(Any::String(t))) => Some(t.to_string()),
        _ => None,
    }
}

fn list_at(txn: &Transaction<'_>, m: &MapRef, key: &str) -> Vec<String> {
    match m.get(txn, key) {
        Some(Out::YArray(a)) => strings(txn, &a),
        other => panic!("{key} is no array: {other:?}"),
    }
}

fn strings(txn: &Transaction<'_>, a: &yrs::ArrayRef) -> Vec<String> {
    a.iter(txn)
        .filter_map(|v| match v {
            Out::Any(Any::String(t)) => Some(t.to_string()),
            _ => None,
        })
        .collect()
}

fn root_list(doc: &Doc, name: &str) -> Vec<String> {
    let txn = doc.transact();
    match txn.get_array(name) {
        Some(a) => strings(&txn, &a),
        None => vec![],
    }
}

#[test]
fn items_stand_in_the_document_that_their_flag_calls_for() {
    let mut export = empty_export();
    let mut deep = item("deep", Some(40));
    deep.deep_archived = true;
    export.items = vec![item("a", Some(7)), deep, item("b", None)];
    let r = import(&export, &ImportMaps::default());
    assert_eq!(root_list(&r.space_doc, "items_order"), vec!["a", "b"]);
    let archive = r.archive_doc.as_ref().expect("archive document");
    assert_eq!(root_list(archive, "items_order"), vec!["deep"]);
    let txn = r.space_doc.transact();
    assert!(root(&txn, "items").get(&txn, "deep").is_none());
    assert_eq!(r.max_short_id, 40);
    assert!(r.comments_doc.is_none());
}

#[test]
fn nothing_is_archived_without_a_deep_item() {
    let mut export = empty_export();
    export.items = vec![item("a", None)];
    let r = import(&export, &ImportMaps::default());
    assert!(r.archive_doc.is_none());
    assert_eq!(r.max_short_id, 0);
    assert!(r.warnings.is_empty());
}

#[test]
fn people_are_mapped_or_dropped() {
    let mut export = empty_export();
    let mut i = item("a", Some(1));
    i.assignee_user_ids = vec![s(ALICE), s(STRANGER)];
    i.assignee_team_ids = vec![s("team")];
    i.created_by = Some(s(ALICE));
    let mut j = item("b", Some(2));
    j.created_by = Some(s(STRANGER));
    export.items = vec![i, j];
    let r = import(&export, &alice_mapped());
    let txn = r.space_doc.transact();
    let items = root(&txn, "items");
    let a = map_at(&txn, &items, "a");
    let assignees = map_at(&txn, &a, "assignees");
    assert_eq!(list_at(&txn, &assignees, "users"), vec![ALICE_HERE]);
    assert_eq!(text_at(&txn, &a, "created_by").as_deref(), Some(ALICE_HERE));
    let b = map_at(&txn, &items, "b");
    assert_eq!(text_at(&txn, &b, "created_by").as_deref(), Some(IMPORTER));
    assert_eq!(
        r.warnings,
        vec![
            "1 item assignments referenced users with no match in this organization and were dropped",
            "1 team assignments referenced teams with no match in this organization and were dropped",
            "1 items or documents were created by users with no match in this organization; the importer is recorded as creator",
        ]
    );
}

#[test]
fn every_kind_of_loss_is_warned_of_once() {
    let mut export = empty_export();
    let mut i = item("a", Some(1));
    i.assignee_user_ids = vec![s(STRANGER)];
    i.assignee_team_ids = vec![s("team")];
    i.created_by = Some(s(STRANGER));
    i.comments = vec![comment("c1", STRANGER, None), comment("c2", STRANGER, Some("c1"))];
    export.items = vec![i];
    export.documents = vec![ExportDocument {
        id: s(DOC),
        title: s("Doc"),
        owner_user_ids: vec![s(STRANGER)],
        parent_item_id: Some(s("nowhere")),
        ..Default::default()
    }];
    export.views.order = vec![s("v")];
    export.views.definitions.insert(
        s("v"),
        TemplateViewDef {
            id: s("v"),
            name: s("View"),
            content_type: s("items"),
            view_type: s("list"),
            column_grouping: None,
            row_grouping: None,
            sort_order: s("0"),
            show_archived: false,
            filters: Some(format!("d:week,u:{}", encode_filter_uuid(STRANGER).unwrap())),
            zoom_level: None,
        },
    );
    let none = StrMap::new();
    let counters = count_losses(&export, &none, &none);
    assert_eq!(counters.dropped_assignees, 1);
    assert_eq!(counters.dropped_teams, 1);
    assert_eq!(counters.unmapped_authors, 1);
    assert_eq!(counters.fallback_creators, 1);
    assert_eq!(counters.dropped_doc_owners, 1);
    assert_eq!(counters.dropped_doc_parents, 1);
    assert_eq!(counters.dropped_filter_tokens, 1);
    let r = import(&export, &ImportMaps::default());
    assert_eq!(r.warnings.len(), 7);
    assert_eq!(r.warnings, loss_warnings(&counters));
    let txn = r.space_doc.transact();
    let config = root(&txn, "config");
    let view = map_at(&txn, &map_at(&txn, &config, "shared_views"), "v");
    assert_eq!(text_at(&txn, &view, "filters").as_deref(), Some("d:week"));
}

#[test]
fn comments_keep_their_threads_and_names() {
    let mut export = empty_export();
    let mut i = item("a", Some(1));
    i.comments = vec![
        comment("root", ALICE, None),
        comment("reply", STRANGER, Some("root")),
        comment("other", STRANGER, None),
    ];
    export.items = vec![i];
    let r = import(&export, &alice_mapped());
    let doc = r.comments_doc.expect("comments document");
    let txn = doc.transact();
    let thread = map_at(&txn, &root(&txn, "threads"), "a");
    let first = map_at(&txn, &thread, "root");
    assert_eq!(text_at(&txn, &first, "author_id").as_deref(), Some(ALICE_HERE));
    let reply = map_at(&txn, &thread, "reply");
    assert_eq!(text_at(&txn, &reply, "parent_id").as_deref(), Some("root"));
    assert_eq!(text_at(&txn, &reply, "author_name").as_deref(), Some("Named"));
    assert_eq!(list_at(&txn, &root(&txn, "threads_order"), "a"), vec!["root", "other"]);
    match reply.get(&txn, "content") {
        Some(Out::YXmlFragment(f)) => assert!(f.get_string(&txn).contains("Hello")),
        other => panic!("content missing: {other:?}"),
    }
}

#[test]
fn blobs_follow_the_new_ids() {
    let mut export = empty_export();
    let mut i = item("a", Some(1));
    i.description_yjs =
        markdown_to_content_yjs(&format!("![x](/api/spaces/{OLD_SPACE}/attachments/{ATT})"));
    export.items = vec![i];
    export.attachments = vec![ExportAttachment {
        id: s(ATT),
        filename: s("x.png"),
        content_type: s("image/png"),
        size_bytes: 1,
        uploaded_by: s(ALICE),
        uploaded_at: s("2026-01-01T00:00:00Z"),
        document_id: None,
        orphaned: false,
    }];
    let r = import(&export, &ImportMaps::default());
    let fresh = r.attachment_id_map.get(ATT).expect("fresh attachment id").clone();
    assert_ne!(fresh, ATT);
    let txn = r.space_doc.transact();
    let a = map_at(&txn, &root(&txn, "items"), "a");
    let xml = match a.get(&txn, "description") {
        Some(Out::YXmlFragment(f)) => f.get_string(&txn),
        other => panic!("description missing: {other:?}"),
    };
    assert!(xml.contains(&format!("/api/spaces/{NEW_SPACE}/attachments/{fresh}")), "{xml}");
    assert!(!xml.contains(OLD_SPACE), "{xml}");
}

#[test]
fn documents_get_fresh_ids_and_keep_their_anchors() {
    let mut export = empty_export();
    export.items = vec![item("a", Some(1))];
    export.documents = vec![
        ExportDocument {
            id: s(DOC),
            title: s("First"),
            content_yjs: markdown_to_content_yjs("# Heading"),
            parent_item_id: Some(s("a")),
            ..Default::default()
        },
        ExportDocument {
            id: s(FORK),
            title: s("Second"),
            forked_from: Some(s(DOC)),
            ..Default::default()
        },
    ];
    let r = import(&export, &ImportMaps::default());
    assert_eq!(r.document_manifest.len(), 2);
    let first = r.document_manifest[0].new_id.clone();
    assert_ne!(first, DOC);
    assert_eq!(root_list(&r.space_doc, "documents_order")[0], first);
    let txn = r.space_doc.transact();
    let documents = root(&txn, "documents");
    let d = map_at(&txn, &documents, &first);
    assert_eq!(text_at(&txn, &d, "parent_item_id").as_deref(), Some("a"));
    let fork = map_at(&txn, &documents, &r.document_manifest[1].new_id);
    assert_eq!(text_at(&txn, &fork, "forked_from"), Some(first.clone()));
    let (id, content) = &r.document_docs[0];
    assert_eq!(*id, first);
    let txn = content.transact();
    let xml = txn.get_xml_fragment("content").unwrap().get_string(&txn);
    assert!(xml.contains("Heading"), "{xml}");
}

#[test]
fn cycles_count_on_past_their_names() {
    assert_eq!(trailing_number("Sprint 12"), Some(12));
    assert_eq!(trailing_number("Sprint"), None);
    assert_eq!(trailing_number("007"), Some(7));
    assert_eq!(trailing_number("x99999999999999999999"), None);
    let mut export = empty_export();
    export.cycle_config = Some(TemplateCycleConfig {
        enabled: true,
        pattern: s("weekly"),
        start_day: s("monday"),
        prefix: s("Sprint"),
        generate_ahead: 2,
        retain_past: 1,
    });
    export.archive_config = Some(TemplateArchiveConfig { migration_days: 30 });
    for name in ["Sprint 9", "Sprint 12", "Break"] {
        export.cycles.push(ExportCycle {
            id: s(name),
            name: s(name),
            start_date: s("2026-01-01"),
            end_date: s("2026-01-08"),
            archived: false,
        });
    }
    let r = import(&export, &ImportMaps::default());
    let txn = r.space_doc.transact();
    let config = root(&txn, "config");
    let cycles = map_at(&txn, &config, "cycle_config");
    match cycles.get(&txn, "next_number") {
        Some(Out::Any(Any::Number(n))) => assert_eq!(n as i64, 13),
        other => panic!("next_number missing: {other:?}"),
    }
}

#[test]
fn configuration_is_carried_over() {
    let mut export = empty_export();
    let mut values = StrMap::new();
    values.insert(
        s("v1"),
        TemplateLabelValue {
            id: s("v1"),
            name: s("Done"),
            color: s("#22C55E"),
            is_completion_state: true,
            ..Default::default()
        },
    );
    export.labels.order = vec![s("l1")];
    export.labels.primary_label_id = Some(s("l1"));
    export.labels.definitions.insert(
        s("l1"),
        TemplateLabelDef {
            id: s("l1"),
            name: s("Status"),
            values_order: vec![s("v1")],
            values,
            ..Default::default()
        },
    );
    export.milestones.order = vec![s("m1")];
    export.milestones.definitions.insert(
        s("m1"),
        ExportMilestoneDef {
            id: s("m1"),
            name: s("Alpha"),
            description: None,
            deadline: Some(s("2026-07-01")),
            deprecated: false,
        },
    );
    export.users =
        vec![ExportUser { id: s(ALICE), display_name: s("Alice"), email: None }];
    export.teams = vec![ExportTeam { id: s("team"), name: s("Team") }];
    let r = import(&export, &alice_mapped());
    let txn = r.space_doc.transact();
    let config = root(&txn, "config");
    assert_eq!(text_at(&txn, &config, "primary_label_id").as_deref(), Some("l1"));
    assert_eq!(text_at(&txn, &config, "short_id_prefix").as_deref(), Some("DMO"));
    let milestone = map_at(&txn, &map_at(&txn, &config, "milestones"), "m1");
    assert_eq!(text_at(&txn, &milestone, "deadline").as_deref(), Some("2026-07-01"));
    let label = map_at(&txn, &map_at(&txn, &config, "labels"), "l1");
    assert_eq!(text_at(&txn, &label, "name").as_deref(), Some("Status"));
}

#[test]
fn an_import_is_fixed_by_its_ids_and_its_time() {
    let mut export = empty_export();
    let mut i = item("a", Some(3));
    i.archived = true;
    i.archived_at = Some(s("2026-02-01T00:00:01Z"));
    export.items = vec![i, item("b", Some(4))];
    let maps = ImportMaps::default();
    let r = build_space_with(
        &export,
        NEW_SPACE,
        IMPORTER,
        &maps,
        "2026-06-12T00:00:00Z",
        1_781_222_400_000,
        &StrMap::new(),
        StrMap::new(),
    );
    let txn = r.space_doc.transact();
    let items = root(&txn, "items");
    let a = map_at(&txn, &items, "a");
    match a.get(&txn, "archived_at") {
        Some(Out::Any(Any::BigInt(n))) => assert_eq!(n, 1_769_904_001_000),
        other => panic!("archived_at missing: {other:?}"),
    }
    let b = map_at(&txn, &items, "b");
    assert_eq!(text_at(&txn, &b, "created_at").as_deref(), Some("2026-06-12T00:00:00Z"));
}

#[test]
fn the_overview_is_rich_text() {
    let mut export = empty_export();
    export.overview_yjs = markdown_to_content_yjs("**Overview** here");
    let r = import(&export, &ImportMaps::default());
    let txn = r.space_doc.transact();
    let xml = txn.get_xml_fragment("description").unwrap().get_string(&txn);
    assert!(xml.contains("<bold>Overview</bold>"), "{xml}");
}

#[test]
fn blank_markdown_has_no_blob() {
    assert_eq!(markdown_to_content_yjs("  \n\t"), None);
    let blob = markdown_to_content_yjs("x").unwrap();
    assert!(base64::engine::general_purpose::STANDARD.decode(blob).is_ok());
}

#[test]
fn a_broken_blob_is_left_out() {
    let mut export = empty_export();
    let mut i = item("a", Some(1));
    i.description_yjs = Some(s("not base64!"));
    export.items = vec![i];
    let r = import(&export, &ImportMaps::default());
    assert_eq!(root_list(&r.space_doc, "items_order"), vec!["a"]);
}

#[test]
fn a_space_id_of_another_length_matters_only_for_blobs() {
    let mut export = empty_export();
    let maps = alice_mapped();
    assert!(try_build_space_from_export(&export, "short", IMPORTER, &maps).is_some());
    export.overview_yjs = Some(s("not base64!"));
    assert!(try_build_space_from_export(&export, "short", IMPORTER, &maps).is_some());
    export.overview_yjs = Some(s("AAAA"));
    assert!(try_build_space_from_export(&export, "short", IMPORTER, &maps).is_none());
    assert!(try_build_space_from_export(&export, NEW_SPACE, IMPORTER, &maps).is_some());
}
