//! Templates and the spaces made from them.

use base64::Engine;
use wodo_interop::calendar::Date;
use wodo_interop::str_map::StrMap;
use wodo_interop::template::config::clean_filters;
use wodo_interop::template::instantiator::{
    dates_exist, instantiate_template, try_instantiate_template, InstantiationResult,
};
use wodo_interop::template::types::{
    is_default_owners, TemplateArchiveConfig, TemplateAttachment, TemplateComment, TemplateContent,
    TemplateCycleConfig, TemplateDocument, TemplateItem, TemplateLabelDef, TemplateLabelValue,
    TemplateLabels, TemplateMilestoneDef, TemplateMilestones, TemplateOwnersDefault,
    TemplateShortIdConfig, TemplateViewDef, TemplateViews,
};
use yrs::types::xml::{XmlElementPrelim, XmlTextPrelim};
use yrs::Map as _;
use yrs::{Array, Doc, GetString, ReadTxn, StateVector, Transact, WriteTxn, Xml, XmlFragment};

fn day(year: i32, month: u32, day: u32) -> Date {
    Date { year, month, day }
}

/// Create a base64-encoded Yjs blob containing an XmlFragment under "content".
fn make_xml_blob(build: impl FnOnce(&mut yrs::TransactionMut, &yrs::XmlFragmentRef)) -> String {
    let doc = Doc::new();
    {
        let mut txn = doc.transact_mut();
        let frag: yrs::XmlFragmentRef = txn.get_or_insert_xml_fragment("content");
        build(&mut txn, &frag);
    }
    let bytes = {
        let txn = doc.transact();
        txn.encode_state_as_update_v1(&StateVector::default())
    };
    base64::engine::general_purpose::STANDARD.encode(&bytes)
}

/// Create a base64-encoded Yjs blob for a standalone document.
fn make_doc_blob(build: impl FnOnce(&mut yrs::TransactionMut, &yrs::XmlFragmentRef)) -> String {
    make_xml_blob(build)
}

fn make_test_content() -> TemplateContent {
    let mut label_values = StrMap::new();
    label_values.insert(
        "val-1".into(),
        TemplateLabelValue {
            id: "val-1".into(),
            name: "Ready".into(),
            color: "#3B82F6".into(),
            is_completion_state: false,
            ..Default::default()
        },
    );
    label_values.insert(
        "val-2".into(),
        TemplateLabelValue {
            id: "val-2".into(),
            name: "Done".into(),
            color: "#22C55E".into(),
            is_completion_state: true,
            completion_prompt: Some("What shipped?".into()),
            ..Default::default()
        },
    );

    let mut label_defs = StrMap::new();
    label_defs.insert(
        "label-1".into(),
        TemplateLabelDef {
            id: "label-1".into(),
            name: "Status".into(),
            description: "Track progress".into(),
            icon: "circle".into(),
            values_order: vec!["val-1".into(), "val-2".into()],
            values: label_values,
            ..Default::default()
        },
    );

    let mut ms_defs = StrMap::new();
    ms_defs.insert(
        "ms-1".into(),
        TemplateMilestoneDef {
            id: "ms-1".into(),
            name: "Alpha".into(),
            description: Some("First release".into()),
            offset_days: Some(14),
        },
    );

    let mut view_defs = StrMap::new();
    view_defs.insert(
        "view-1".into(),
        TemplateViewDef {
            id: "view-1".into(),
            name: "Board".into(),
            content_type: "items".into(),
            view_type: "board".into(),
            column_grouping: Some("label-1".into()),
            row_grouping: Some("label-1".into()),
            sort_order: "0".into(),
            show_archived: false,
            filters: Some("label-1.val-1,ms:ms-1,d:week".into()),
            zoom_level: Some("w".into()),
        },
    );

    TemplateContent {
        schema_version: 1,
        source_space_id: None,
        attachments: vec![],
        labels: TemplateLabels {
            order: vec!["label-1".into()],
            primary_label_id: Some("label-1".into()),
            definitions: label_defs,
        },
        milestones: TemplateMilestones {
            order: vec!["ms-1".into()],
            definitions: ms_defs,
        },
        cycle_config: Some(TemplateCycleConfig {
            enabled: true,
            pattern: "biweekly".into(),
            start_day: "monday".into(),
            prefix: "Sprint".into(),
            generate_ahead: 4,
            retain_past: 1,
        }),
        short_id_config: Some(TemplateShortIdConfig {
            prefix: "PRJ".into(),
            visible: true,
        }),
        archive_config: Some(TemplateArchiveConfig { migration_days: 30 }),
        views: TemplateViews {
            order: vec!["view-1".into()],
            definitions: view_defs,
        },
        items: vec![
            TemplateItem {
                id: "item-1".into(),
                title: "Setup project".into(),
                labels: {
                    let mut m = StrMap::new();
                    m.insert("label-1".into(), "val-1".into());
                    m
                },
                due_date_offset_days: Some(7),
                start_date_offset_days: Some(0),
                milestone_id: Some("ms-1".into()),
                cycle_id: Some("cycle-1".into()),
                parent_id: None,
                blocked_by: vec![],
                description_yjs: Some(make_xml_blob(|txn, frag| {
                    let p: yrs::XmlElementRef =
                        frag.push_back(txn, XmlElementPrelim::empty("paragraph"));
                    let _: yrs::XmlTextRef =
                        p.push_back(txn, XmlTextPrelim::new("First step."));
                })),
                attachment_ids: vec![],
                comments: vec![],
            },
            TemplateItem {
                id: "item-2".into(),
                title: "Write docs".into(),
                labels: StrMap::new(),
                due_date_offset_days: Some(14),
                start_date_offset_days: None,
                milestone_id: None,
                cycle_id: None,
                parent_id: Some("item-1".into()),
                blocked_by: vec!["item-1".into()],
                description_yjs: None,
                attachment_ids: vec![],
                comments: vec![],
            },
        ],
        documents: vec![TemplateDocument {
            id: "11111111-1111-1111-1111-111111111111".into(),
            title: "Getting Started".into(),
            labels: StrMap::new(),
            parent_item_id: None,
            parent_milestone_id: None,
            content_yjs: Some(make_doc_blob(|txn, frag| {
                let h: yrs::XmlElementRef =
                    frag.push_back(txn, XmlElementPrelim::empty("heading"));
                h.insert_attribute(txn, "level", "1");
                let _: yrs::XmlTextRef = h.push_back(txn, XmlTextPrelim::new("Welcome"));
                let p: yrs::XmlElementRef =
                    frag.push_back(txn, XmlElementPrelim::empty("paragraph"));
                let _: yrs::XmlTextRef = p.push_back(txn, XmlTextPrelim::new("Hello world"));
            })),
            owners_default: Default::default(),
            review_cadence_days: None,
            is_template: false,
        }],
        overview_yjs: None,
    }
}

#[test]
fn test_instantiate_preserves_uuids() {
    let content = make_test_content();
    let start_date = day(2026, 3, 1);

    let result = instantiate_template(&content, start_date, None, "user-123", None);
    let txn = result.space_doc.transact();

    // All original UUIDs should be preserved exactly
    let items = txn.get_map("items").expect("items map");
    assert!(
        items.get(&txn, "item-1").is_some(),
        "item-1 should keep its UUID"
    );
    assert!(
        items.get(&txn, "item-2").is_some(),
        "item-2 should keep its UUID"
    );

    let config = txn.get_map("config").expect("config map");
    let labels = match config.get(&txn, "labels") {
        Some(yrs::Out::YMap(m)) => m,
        _ => panic!("labels map missing"),
    };
    assert!(
        labels.get(&txn, "label-1").is_some(),
        "label-1 should keep its UUID"
    );

    let milestones = match config.get(&txn, "milestones") {
        Some(yrs::Out::YMap(m)) => m,
        _ => panic!("milestones map missing"),
    };
    assert!(
        milestones.get(&txn, "ms-1").is_some(),
        "ms-1 should keep its UUID"
    );

    let views = match config.get(&txn, "shared_views") {
        Some(yrs::Out::YMap(m)) => m,
        _ => panic!("views map missing"),
    };
    assert!(
        views.get(&txn, "view-1").is_some(),
        "view-1 should keep its UUID"
    );

    // Document docs should use regenerated ID (not the original)
    assert_eq!(result.document_docs.len(), 1);
    assert_ne!(
        result.document_docs[0].0, "11111111-1111-1111-1111-111111111111",
        "Document UUID should be regenerated, not preserved"
    );
    // Manifest should match
    assert_eq!(result.document_manifest.len(), 1);
    assert_eq!(
        result.document_manifest[0].new_id, result.document_docs[0].0,
        "Manifest new_id should match document_docs key"
    );
    assert_eq!(result.document_manifest[0].title, "Getting Started");
}

#[test]
fn test_instantiate_preserves_references() {
    let content = make_test_content();
    let start_date = day(2026, 3, 1);

    let result = instantiate_template(&content, start_date, None, "user-123", None);
    let txn = result.space_doc.transact();
    let items = txn.get_map("items").expect("items map");

    // item-2's parent_id should still point to item-1
    let item2 = match items.get(&txn, "item-2") {
        Some(yrs::Out::YMap(m)) => m,
        _ => panic!("item-2 missing"),
    };
    match item2.get(&txn, "parent_id") {
        Some(yrs::Out::Any(yrs::Any::String(s))) => {
            assert_eq!(
                s.to_string(),
                "item-1",
                "parent_id reference should be preserved"
            );
        }
        _ => panic!("parent_id missing"),
    }

    // item-2's blocked_by should still contain item-1
    match item2.get(&txn, "blocked_by") {
        Some(yrs::Out::YArray(arr)) => {
            let entries: Vec<String> = arr
                .iter(&txn)
                .filter_map(|v| match v {
                    yrs::Out::Any(yrs::Any::String(s)) => Some(s.to_string()),
                    _ => None,
                })
                .collect();
            assert_eq!(
                entries,
                vec!["item-1"],
                "blocked_by reference should be preserved"
            );
        }
        _ => panic!("blocked_by missing"),
    }

    // item-1's label assignment should reference original label/value IDs
    let item1 = match items.get(&txn, "item-1") {
        Some(yrs::Out::YMap(m)) => m,
        _ => panic!("item-1 missing"),
    };
    let labels = match item1.get(&txn, "labels") {
        Some(yrs::Out::YMap(m)) => m,
        _ => panic!("labels missing"),
    };
    match labels.get(&txn, "label-1") {
        Some(yrs::Out::Any(yrs::Any::String(s))) => {
            assert_eq!(
                s.to_string(),
                "val-1",
                "label value reference should be preserved"
            );
        }
        _ => panic!("label-1 value missing on item"),
    }
}

#[test]
fn test_instantiate_full_template() {
    let content = make_test_content();
    let start_date = day(2026, 3, 1);

    let result = instantiate_template(&content, start_date, None, "user-123", None);
    let txn = result.space_doc.transact();

    // Check primary_label_id preserved
    let config = txn.get_map("config").expect("config map");
    match config.get(&txn, "primary_label_id") {
        Some(yrs::Out::Any(yrs::Any::String(s))) => {
            assert_eq!(s.to_string(), "label-1");
        }
        _ => panic!("primary_label_id missing"),
    }

    // Check milestone deadline rehydrated
    let milestones = match config.get(&txn, "milestones") {
        Some(yrs::Out::YMap(m)) => m,
        _ => panic!("milestones map missing"),
    };
    let ms = match milestones.get(&txn, "ms-1") {
        Some(yrs::Out::YMap(m)) => m,
        _ => panic!("milestone missing"),
    };
    match ms.get(&txn, "deadline") {
        Some(yrs::Out::Any(yrs::Any::String(s))) => {
            assert_eq!(s.to_string(), "2026-03-15"); // start_date + 14 days
        }
        _ => panic!("milestone deadline missing"),
    }

    // Check item-1 due date rehydrated
    let items = txn.get_map("items").expect("items map");
    let item1 = match items.get(&txn, "item-1") {
        Some(yrs::Out::YMap(m)) => m,
        _ => panic!("item-1 missing"),
    };
    match item1.get(&txn, "due_date") {
        Some(yrs::Out::Any(yrs::Any::String(s))) => {
            assert_eq!(s.to_string(), "2026-03-08"); // start_date + 7 days
        }
        _ => panic!("due_date missing"),
    }
    match item1.get(&txn, "start_date") {
        Some(yrs::Out::Any(yrs::Any::String(s))) => {
            assert_eq!(s.to_string(), "2026-03-01"); // start_date + 0 days
        }
        _ => panic!("start_date missing"),
    }

    // Check milestone reference on item
    match item1.get(&txn, "milestone_id") {
        Some(yrs::Out::Any(yrs::Any::String(s))) => {
            assert_eq!(s.to_string(), "ms-1");
        }
        _ => panic!("milestone_id missing"),
    }
}

#[test]
fn test_instantiate_empty_template() {
    let content = TemplateContent {
        schema_version: 1,
        source_space_id: None,
        attachments: vec![],
        labels: TemplateLabels {
            order: vec![],
            primary_label_id: None,
            definitions: StrMap::new(),
        },
        milestones: TemplateMilestones {
            order: vec![],
            definitions: StrMap::new(),
        },
        cycle_config: None,
        short_id_config: None,
        archive_config: None,
        views: TemplateViews {
            order: vec![],
            definitions: StrMap::new(),
        },
        items: vec![],
        documents: vec![],
        overview_yjs: None,
    };

    let start_date = day(2026, 3, 1);
    let result = instantiate_template(&content, start_date, None, "user-123", None);

    let txn = result.space_doc.transact();
    let items = txn.get_map("items");
    assert!(
        items.is_none() || {
            let m = items.unwrap();
            m.iter(&txn).count() == 0
        }
    );
    assert!(result.document_docs.is_empty());
    assert!(result.document_manifest.is_empty());
}


#[test]
fn test_date_rehydration() {
    let mut content = make_test_content();
    for (offset, expected) in [(14, "2026-03-15"), (0, "2026-03-01"), (-5, "2026-02-24")] {
        content.items[0].due_date_offset_days = Some(offset);
        let result = instantiate_template(&content, day(2026, 3, 1), None, "user-123", None);
        let txn = result.space_doc.transact();
        let items = txn.get_map("items").expect("items map");
        let item1 = match items.get(&txn, "item-1") {
            Some(yrs::Out::YMap(m)) => m,
            _ => panic!("item-1 missing"),
        };
        match item1.get(&txn, "due_date") {
            Some(yrs::Out::Any(yrs::Any::String(s))) => assert_eq!(s.to_string(), expected),
            _ => panic!("due_date missing"),
        }
    }
}

#[test]
fn test_view_filters_cleaned() {
    let content = make_test_content();
    let start_date = day(2026, 3, 1);
    let result = instantiate_template(&content, start_date, None, "user-123", None);

    let txn = result.space_doc.transact();
    let config = txn.get_map("config").unwrap();
    let views = match config.get(&txn, "shared_views") {
        Some(yrs::Out::YMap(m)) => m,
        _ => panic!("views missing"),
    };

    let view = match views.get(&txn, "view-1") {
        Some(yrs::Out::YMap(m)) => m,
        _ => panic!("view missing"),
    };

    // column_grouping preserved (references label-1)
    match view.get(&txn, "column_grouping") {
        Some(yrs::Out::Any(yrs::Any::String(s))) => {
            assert_eq!(s.to_string(), "label-1");
        }
        _ => panic!("column_grouping missing"),
    }

    // Filters: "label-1.val-1,ms:ms-1,d:week" — all kept (no cy:/u:/t:)
    match view.get(&txn, "filters") {
        Some(yrs::Out::Any(yrs::Any::String(s))) => {
            let filter_str = s.to_string();
            assert!(
                filter_str.contains("label-1.val-1"),
                "Label filter should be preserved"
            );
            assert!(
                filter_str.contains("ms:ms-1"),
                "Milestone filter should be preserved"
            );
            assert!(
                filter_str.contains("d:week"),
                "Date filter should be preserved"
            );
        }
        _ => panic!("filters missing"),
    }
}

#[test]
fn test_clean_filters_drops_inapplicable() {
    // cy:, u:, t: should be dropped
    assert_eq!(clean_filters("cy:cycle-1"), None);
    assert_eq!(clean_filters("u:user-1"), None);
    assert_eq!(clean_filters("t:team-1"), None);

    // Mixed: keep label and date, drop user and cycle
    assert_eq!(
        clean_filters("label-1.val-1,u:user-1,cy:cycle-1,d:week"),
        Some("label-1.val-1,d:week".into())
    );

    // All kept
    assert_eq!(
        clean_filters("label-1.val-1,ms:ms-1,d:overdue,p:has"),
        Some("label-1.val-1,ms:ms-1,d:overdue,p:has".into())
    );

    // Empty
    assert_eq!(clean_filters(""), None);
}

#[test]
fn test_instantiate_item_description_content() {
    let content = make_test_content();
    let start_date = day(2026, 3, 1);
    let result = instantiate_template(&content, start_date, None, "user-123", None);

    let txn = result.space_doc.transact();
    let items = txn.get_map("items").expect("items map");
    let item1 = match items.get(&txn, "item-1") {
        Some(yrs::Out::YMap(m)) => m,
        _ => panic!("item-1 missing"),
    };

    let desc = match item1.get(&txn, "description") {
        Some(yrs::Out::YXmlFragment(f)) => f,
        _ => panic!("description missing or not XmlFragment"),
    };
    let xml_str = desc.get_string(&txn);
    assert!(
        xml_str.contains("First step."),
        "Description should contain 'First step.'"
    );
    assert!(
        xml_str.contains("paragraph"),
        "Description should preserve paragraph element"
    );
}

#[test]
fn test_instantiate_overview() {
    let mut content = make_test_content();
    content.overview_yjs = Some(make_xml_blob(|txn, frag| {
        let p: yrs::XmlElementRef = frag.push_back(txn, XmlElementPrelim::empty("paragraph"));
        let _: yrs::XmlTextRef = p.push_back(txn, XmlTextPrelim::new("Space overview content"));
    }));

    let start_date = day(2026, 3, 1);
    let result = instantiate_template(&content, start_date, None, "user-123", None);

    let txn = result.space_doc.transact();
    let overview = txn
        .get_xml_fragment("description")
        .expect("overview fragment missing");
    let xml_str = overview.get_string(&txn);
    assert!(xml_str.contains("Space overview content"));
}

#[test]
fn test_short_id_prefix_override() {
    let content = make_test_content();
    let start_date = day(2026, 3, 1);

    // With override
    let result = instantiate_template(&content, start_date, Some("MNP"), "user-123", None);
    let txn = result.space_doc.transact();
    let config = txn.get_map("config").unwrap();
    match config.get(&txn, "short_id_prefix") {
        Some(yrs::Out::Any(yrs::Any::String(s))) => assert_eq!(s.to_string(), "MNP"),
        _ => panic!("short_id_prefix missing"),
    }

    // Without override — uses template's prefix
    let result = instantiate_template(&content, start_date, None, "user-123", None);
    let txn = result.space_doc.transact();
    let config = txn.get_map("config").unwrap();
    match config.get(&txn, "short_id_prefix") {
        Some(yrs::Out::Any(yrs::Any::String(s))) => assert_eq!(s.to_string(), "PRJ"),
        _ => panic!("short_id_prefix missing"),
    }
}

#[test]
fn test_instantiate_cycle_config() {
    let content = make_test_content();
    let start_date = day(2026, 3, 1);
    let result = instantiate_template(&content, start_date, None, "user-123", None);

    let txn = result.space_doc.transact();
    let config = txn.get_map("config").expect("config map");
    let cc = match config.get(&txn, "cycle_config") {
        Some(yrs::Out::YMap(m)) => m,
        _ => panic!("cycle_config missing"),
    };

    match cc.get(&txn, "enabled") {
        Some(yrs::Out::Any(yrs::Any::Bool(b))) => assert!(b),
        _ => panic!("enabled missing"),
    }
    match cc.get(&txn, "pattern") {
        Some(yrs::Out::Any(yrs::Any::String(s))) => assert_eq!(s.to_string(), "biweekly"),
        _ => panic!("pattern missing"),
    }
    match cc.get(&txn, "next_number") {
        Some(yrs::Out::Any(yrs::Any::Number(n))) => assert_eq!(n as i64, 1),
        _ => panic!("next_number missing"),
    }
}

#[test]
fn test_instantiate_archive_config() {
    let content = make_test_content();
    let start_date = day(2026, 3, 1);
    let result = instantiate_template(&content, start_date, None, "user-123", None);

    let txn = result.space_doc.transact();
    let config = txn.get_map("config").expect("config map");
    let ac = match config.get(&txn, "archive_config") {
        Some(yrs::Out::YMap(m)) => m,
        _ => panic!("archive_config missing"),
    };

    match ac.get(&txn, "migration_days") {
        Some(yrs::Out::Any(yrs::Any::Number(n))) => assert_eq!(n as i64, 30),
        _ => panic!("migration_days missing"),
    }
}

#[test]
fn test_instantiate_item_cycle_id() {
    let content = make_test_content();
    let start_date = day(2026, 3, 1);
    let result = instantiate_template(&content, start_date, None, "user-123", None);

    let txn = result.space_doc.transact();
    let items = txn.get_map("items").expect("items map");

    let item1 = match items.get(&txn, "item-1") {
        Some(yrs::Out::YMap(m)) => m,
        _ => panic!("item-1 missing"),
    };
    match item1.get(&txn, "cycle_id") {
        Some(yrs::Out::Any(yrs::Any::String(s))) => {
            assert_eq!(s.to_string(), "cycle-1");
        }
        _ => panic!("cycle_id missing"),
    }

    // item-2 has no cycle_id
    let item2 = match items.get(&txn, "item-2") {
        Some(yrs::Out::YMap(m)) => m,
        _ => panic!("item-2 missing"),
    };
    assert!(item2.get(&txn, "cycle_id").is_none());
}

#[test]
fn test_instantiate_document_content() {
    let content = make_test_content();
    let start_date = day(2026, 3, 1);
    let result = instantiate_template(&content, start_date, None, "user-123", None);

    assert_eq!(result.document_docs.len(), 1);
    let (doc_id, doc_yjs) = &result.document_docs[0];
    assert_ne!(
        doc_id, "11111111-1111-1111-1111-111111111111",
        "Document UUID should be regenerated"
    );

    let txn = doc_yjs.transact();
    let content_frag = txn
        .get_xml_fragment("content")
        .expect("content fragment missing");

    let xml_str = content_frag.get_string(&txn);
    assert!(xml_str.contains("Welcome"));
    assert!(xml_str.contains("Hello world"));
    assert!(xml_str.contains("heading"));
}

#[test]
fn test_instantiate_view_row_grouping() {
    let content = make_test_content();
    let start_date = day(2026, 3, 1);
    let result = instantiate_template(&content, start_date, None, "user-123", None);

    let txn = result.space_doc.transact();
    let config = txn.get_map("config").unwrap();
    let views = match config.get(&txn, "shared_views") {
        Some(yrs::Out::YMap(m)) => m,
        _ => panic!("views missing"),
    };

    let view = match views.get(&txn, "view-1") {
        Some(yrs::Out::YMap(m)) => m,
        _ => panic!("view missing"),
    };

    match view.get(&txn, "row_grouping") {
        Some(yrs::Out::Any(yrs::Any::String(s))) => {
            assert_eq!(s.to_string(), "label-1");
        }
        _ => panic!("row_grouping missing"),
    }

    match view.get(&txn, "zoom_level") {
        Some(yrs::Out::Any(yrs::Any::String(s))) => {
            assert_eq!(s.to_string(), "w");
        }
        _ => panic!("zoom_level missing"),
    }
}

// ---------------------------------------------------------------------------
// Documents: owners, cadence and the template flag
// ---------------------------------------------------------------------------

fn make_minimal_template_with_doc(doc: TemplateDocument) -> TemplateContent {
    TemplateContent {
        schema_version: 1,
        source_space_id: None,
        attachments: vec![],
        labels: TemplateLabels {
            order: vec![],
            primary_label_id: None,
            definitions: StrMap::new(),
        },
        milestones: TemplateMilestones {
            order: vec![],
            definitions: StrMap::new(),
        },
        cycle_config: None,
        short_id_config: None,
        archive_config: None,
        views: TemplateViews {
            order: vec![],
            definitions: StrMap::new(),
        },
        items: vec![],
        documents: vec![doc],
        overview_yjs: None,
    }
}

fn first_doc_map<'a>(txn: &'a yrs::Transaction<'a>) -> yrs::MapRef {
    let documents = txn.get_map("documents").expect("documents map");
    let mut iter = documents.iter(txn);
    let (_id, val) = iter.next().expect("at least one doc");
    match val {
        yrs::Out::YMap(m) => m,
        _ => panic!("doc is not a Y.Map"),
    }
}

#[test]
fn b6_template_doc_writes_owners_default_to_ymap() {
    let template_doc = TemplateDocument {
        id: "aaaaaaaa-aaaa-aaaa-aaaa-aaaaaaaaaaaa".into(),
        title: "Runbook".into(),
        labels: StrMap::new(),
        content_yjs: None,
        owners_default: TemplateOwnersDefault {
            users: vec!["creator".into(), "user-x".into()],
            teams: vec!["team-ops".into()],
        },
        review_cadence_days: Some(90),
        is_template: true,
        parent_item_id: None,
        parent_milestone_id: None,
    };
    let content = make_minimal_template_with_doc(template_doc);
    let result = instantiate_template(
        &content,
        day(2026, 5, 1),
        None,
        "alice-uuid",
        None,
    );
    let txn = result.space_doc.transact();
    let doc_map = first_doc_map(&txn);
    let _ = &result;

    // Owners nested map with users + teams arrays.
    let owners_map = match doc_map.get(&txn, "owners") {
        Some(yrs::Out::YMap(m)) => m,
        _ => panic!("owners not a Y.Map"),
    };
    let users: Vec<String> = match owners_map.get(&txn, "users") {
        Some(yrs::Out::YArray(arr)) => arr
            .iter(&txn)
            .filter_map(|out| match out {
                yrs::Out::Any(yrs::Any::String(s)) => Some(s.to_string()),
                _ => None,
            })
            .collect(),
        _ => vec![],
    };
    // "creator" resolves to alice-uuid; explicit UUIDs pass through.
    assert_eq!(users, vec!["alice-uuid".to_string(), "user-x".to_string()]);

    let teams: Vec<String> = match owners_map.get(&txn, "teams") {
        Some(yrs::Out::YArray(arr)) => arr
            .iter(&txn)
            .filter_map(|out| match out {
                yrs::Out::Any(yrs::Any::String(s)) => Some(s.to_string()),
                _ => None,
            })
            .collect(),
        _ => vec![],
    };
    assert_eq!(teams, vec!["team-ops".to_string()]);

    // Cadence + template flag.
    match doc_map.get(&txn, "review_cadence_days") {
        Some(yrs::Out::Any(yrs::Any::BigInt(n))) => assert_eq!(n, 90),
        other => panic!("review_cadence_days expected BigInt(90), got {:?}", other),
    }
    match doc_map.get(&txn, "is_template") {
        Some(yrs::Out::Any(yrs::Any::Bool(b))) => assert!(b),
        other => panic!("is_template expected true, got {:?}", other),
    }
}

#[test]
fn b6_template_doc_without_primitives_initialises_inert_defaults() {
    // Documents without any of these instantiate with empty owners, null cadence, is_template=false.
    let template_doc = TemplateDocument {
        id: "bbbbbbbb-bbbb-bbbb-bbbb-bbbbbbbbbbbb".into(),
        title: "Plain doc".into(),
        labels: StrMap::new(),
        content_yjs: None,
        owners_default: Default::default(),
        review_cadence_days: None,
        is_template: false,
        parent_item_id: None,
        parent_milestone_id: None,
    };
    let content = make_minimal_template_with_doc(template_doc);
    let result = instantiate_template(
        &content,
        day(2026, 5, 1),
        None,
        "alice-uuid",
        None,
    );
    let txn = result.space_doc.transact();
    let doc_map = first_doc_map(&txn);
    let _ = &result;

    // Owners map exists but both arrays are empty.
    let owners_map = match doc_map.get(&txn, "owners") {
        Some(yrs::Out::YMap(m)) => m,
        _ => panic!("owners not a Y.Map"),
    };
    let users_len = match owners_map.get(&txn, "users") {
        Some(yrs::Out::YArray(arr)) => arr.len(&txn),
        _ => 0,
    };
    assert_eq!(users_len, 0);

    // Cadence is null.
    match doc_map.get(&txn, "review_cadence_days") {
        Some(yrs::Out::Any(yrs::Any::Null)) => {}
        None => {}
        other => panic!("review_cadence_days expected Null, got {:?}", other),
    }

    // is_template defaults to false.
    match doc_map.get(&txn, "is_template") {
        Some(yrs::Out::Any(yrs::Any::Bool(false))) => {}
        other => panic!("is_template expected false, got {:?}", other),
    }
}

// ---------------------------------------------------------------------------
// Documents: anchors stay, what is bound to an identity does not
// ---------------------------------------------------------------------------

#[test]
fn b_follow_up_parent_refs_survive_instantiation() {
    let item_uuid = "40000000-0000-0000-0000-000000000001".to_string();
    let ms_uuid = "30000000-0000-0000-0000-000000000001".to_string();

    let template_doc = TemplateDocument {
        id: "cccccccc-cccc-cccc-cccc-cccccccccccc".into(),
        title: "Architecture Guide".into(),
        labels: StrMap::new(),
        content_yjs: None,
        owners_default: Default::default(),
        review_cadence_days: None,
        is_template: false,
        parent_item_id: Some(item_uuid.clone()),
        parent_milestone_id: Some(ms_uuid.clone()),
    };
    let content = make_minimal_template_with_doc(template_doc);
    let result = instantiate_template(
        &content,
        day(2026, 5, 1),
        None,
        "creator-uuid",
        None,
    );

    let txn = result.space_doc.transact();
    let doc_map = first_doc_map(&txn);
    let _ = &result;

    match doc_map.get(&txn, "parent_item_id") {
        Some(yrs::Out::Any(yrs::Any::String(s))) => assert_eq!(s.as_ref(), item_uuid),
        other => panic!("parent_item_id expected {item_uuid:?}, got {other:?}"),
    }
    match doc_map.get(&txn, "parent_milestone_id") {
        Some(yrs::Out::Any(yrs::Any::String(s))) => assert_eq!(s.as_ref(), ms_uuid),
        other => panic!("parent_milestone_id expected {ms_uuid:?}, got {other:?}"),
    }
}

#[test]
fn b_follow_up_identity_bound_fields_are_null_on_instantiation() {
    // A template document has neither of the two fields; the keys are there, with
    // null.
    let template_doc = TemplateDocument {
        id: "dddddddd-dddd-dddd-dddd-dddddddddddd".into(),
        title: "Plain doc".into(),
        labels: StrMap::new(),
        content_yjs: None,
        owners_default: Default::default(),
        review_cadence_days: Some(90),
        is_template: false,
        parent_item_id: None,
        parent_milestone_id: None,
    };
    let content = make_minimal_template_with_doc(template_doc);
    let result = instantiate_template(
        &content,
        day(2026, 5, 1),
        None,
        "creator-uuid",
        None,
    );

    let txn = result.space_doc.transact();
    let doc_map = first_doc_map(&txn);
    let _ = &result;

    match doc_map.get(&txn, "last_reviewed_at") {
        Some(yrs::Out::Any(yrs::Any::Null)) => {}
        other => panic!("last_reviewed_at expected Null, got {other:?}"),
    }
    match doc_map.get(&txn, "forked_from") {
        Some(yrs::Out::Any(yrs::Any::Null)) => {}
        other => panic!("forked_from expected Null, got {other:?}"),
    }
}

// ---------------------------------------------------------------------------
// Attachment copy + URL rewrite
// ---------------------------------------------------------------------------

const SRC_SPACE: &str = "aaaaaaaa-bbbb-cccc-dddd-eeeeeeeeeeee";
const NEW_SPACE: &str = "99999999-8888-7777-6666-555555555555";
const ATT_A: &str = "11111111-2222-3333-4444-555555555555";
const ATT_B: &str = "66666666-7777-8888-9999-000000000000";

fn image_src(space_id: &str, attachment_id: &str) -> String {
    format!("/api/spaces/{}/attachments/{}", space_id, attachment_id)
}

/// v2 content: manifest with ATT_A; item-1 description embeds ATT_A
/// (manifested) and ATT_B (not manifested) inline; explicit Y.Array
/// ref to ATT_A.
fn make_attachment_content() -> TemplateContent {
    let mut content = make_test_content();
    content.source_space_id = Some(SRC_SPACE.to_string());
    content.attachments = vec![TemplateAttachment {
        id: ATT_A.to_string(),
        filename: "diagram.png".to_string(),
        content_type: "image/png".to_string(),
        size_bytes: 1234,
    }];
    content.items[0].description_yjs = Some(make_xml_blob(|txn, frag| {
        let img: yrs::XmlElementRef = frag.push_back(txn, XmlElementPrelim::empty("image"));
        img.insert_attribute(txn, "src", image_src(SRC_SPACE, ATT_A).as_str());
        let img2: yrs::XmlElementRef = frag.push_back(txn, XmlElementPrelim::empty("image"));
        img2.insert_attribute(txn, "src", image_src(SRC_SPACE, ATT_B).as_str());
    }));
    content.items[0].attachment_ids = vec![ATT_A.to_string()];
    content
}

fn item1_description_xml(result: &InstantiationResult) -> String {
    let txn = result.space_doc.transact();
    let items = txn.get_map("items").expect("items map");
    let item1 = match items.get(&txn, "item-1") {
        Some(yrs::Out::YMap(m)) => m,
        _ => panic!("item-1 missing"),
    };
    let desc = match item1.get(&txn, "description") {
        Some(yrs::Out::YXmlFragment(f)) => f,
        _ => panic!("description missing"),
    };
    desc.get_string(&txn)
}

#[test]
fn test_attachment_url_rewrite_and_manifest() {
    let content = make_attachment_content();
    let start_date = day(2026, 3, 1);
    let result = instantiate_template(&content, start_date, None, "user-123", Some(NEW_SPACE));

    // Manifest: one entry with a fresh UUID and the metadata snapshot
    assert_eq!(result.attachment_manifest.len(), 1);
    let entry = &result.attachment_manifest[0];
    assert_eq!(entry.old_id, ATT_A);
    assert_ne!(entry.new_id, ATT_A);
    assert_eq!(entry.filename, "diagram.png");
    assert_eq!(entry.content_type, "image/png");
    assert_eq!(entry.size_bytes, 1234);

    let xml = item1_description_xml(&result);

    // Manifested ref: both space and attachment UUID rewritten
    assert!(
        xml.contains(&image_src(NEW_SPACE, &entry.new_id)),
        "manifested src should be fully rewritten, got: {}",
        xml
    );
    // Un-manifested ref: space rewritten (clean 404 in the new space
    // instead of a silent cross-space dependency), attachment UUID kept
    assert!(
        xml.contains(&image_src(NEW_SPACE, ATT_B)),
        "un-manifested src should get the new space ID, got: {}",
        xml
    );
    assert!(
        !xml.contains(SRC_SPACE),
        "no source-space refs may survive, got: {}",
        xml
    );

    // Explicit Y.Array rebuilt with the remapped ID + manifest metadata
    let txn = result.space_doc.transact();
    let items = txn.get_map("items").expect("items map");
    let item1 = match items.get(&txn, "item-1") {
        Some(yrs::Out::YMap(m)) => m,
        _ => panic!("item-1 missing"),
    };
    let arr = match item1.get(&txn, "attachments") {
        Some(yrs::Out::YArray(a)) => a,
        _ => panic!("attachments array missing"),
    };
    assert_eq!(arr.len(&txn), 1);
    let amap = match arr.get(&txn, 0) {
        Some(yrs::Out::YMap(m)) => m,
        _ => panic!("attachment entry not a map"),
    };
    let read_str = |key: &str| match amap.get(&txn, key) {
        Some(yrs::Out::Any(yrs::Any::String(s))) => s.to_string(),
        other => panic!("missing string field {}: {:?}", key, other),
    };
    assert_eq!(read_str("id"), entry.new_id);
    assert_eq!(read_str("filename"), "diagram.png");
    assert_eq!(read_str("content_type"), "image/png");
    match amap.get(&txn, "size_bytes") {
        Some(yrs::Out::Any(yrs::Any::Number(n))) => assert_eq!(n as i64, 1234),
        other => panic!("missing size_bytes: {:?}", other),
    }
}

#[test]
fn test_v1_content_skips_attachment_handling() {
    // v1 templates: no source_space_id, no manifest → inline refs pass
    // through untouched 
    let mut content = make_test_content();
    content.items[0].description_yjs = Some(make_xml_blob(|txn, frag| {
        let img: yrs::XmlElementRef = frag.push_back(txn, XmlElementPrelim::empty("image"));
        img.insert_attribute(txn, "src", image_src(SRC_SPACE, ATT_A).as_str());
    }));
    let start_date = day(2026, 3, 1);
    let result = instantiate_template(&content, start_date, None, "user-123", Some(NEW_SPACE));

    assert!(result.attachment_manifest.is_empty());
    let xml = item1_description_xml(&result);
    assert!(
        xml.contains(&image_src(SRC_SPACE, ATT_A)),
        "v1 refs must pass through unmodified, got: {}",
        xml
    );

    // And no attachments Y.Array is created
    let txn = result.space_doc.transact();
    let items = txn.get_map("items").expect("items map");
    let item1 = match items.get(&txn, "item-1") {
        Some(yrs::Out::YMap(m)) => m,
        _ => panic!("item-1 missing"),
    };
    assert!(item1.get(&txn, "attachments").is_none());
}

// ---------------------------------------------------------------------------
// Comment instantiation
// ---------------------------------------------------------------------------

#[test]
fn test_comments_doc_built_with_nil_author_and_rewrite() {
    let mut content = make_attachment_content();
    content.items[0].comments = vec![
        TemplateComment {
            id: "root-1".into(),
            author_name: "Alice Anders".into(),
            content_yjs: Some(make_xml_blob(|txn, frag| {
                let img: yrs::XmlElementRef =
                    frag.push_back(txn, XmlElementPrelim::empty("image"));
                img.insert_attribute(txn, "src", image_src(SRC_SPACE, ATT_A).as_str());
            })),
            created_at_offset_seconds: 3600,
            parent_id: None,
        },
        TemplateComment {
            id: "reply-1".into(),
            author_name: "Bob B".into(),
            content_yjs: Some(make_xml_blob(|txn, frag| {
                let p: yrs::XmlElementRef =
                    frag.push_back(txn, XmlElementPrelim::empty("paragraph"));
                let _: yrs::XmlTextRef = p.push_back(txn, XmlTextPrelim::new("Agreed."));
            })),
            created_at_offset_seconds: 7200,
            parent_id: Some("root-1".into()),
        },
    ];

    let start_date = day(2026, 3, 1);
    let result = instantiate_template(&content, start_date, None, "user-123", Some(NEW_SPACE));

    let new_att_id = result.attachment_manifest[0].new_id.clone();
    let comments_doc = result.comments_doc.expect("comments doc expected");
    let txn = comments_doc.transact();

    let threads = txn.get_map("threads").expect("threads map");
    let item_threads = match threads.get(&txn, "item-1") {
        Some(yrs::Out::YMap(m)) => m,
        _ => panic!("item-1 threads missing"),
    };

    let root = match item_threads.get(&txn, "root-1") {
        Some(yrs::Out::YMap(m)) => m,
        _ => panic!("root-1 missing"),
    };
    let read_str = |map: &yrs::MapRef, key: &str| match map.get(&txn, key) {
        Some(yrs::Out::Any(yrs::Any::String(s))) => s.to_string(),
        other => panic!("missing string field {}: {:?}", key, other),
    };
    assert_eq!(
        read_str(&root, "author_id"),
        uuid::Uuid::nil().to_string(),
        "nil author — backfill skips it, edit window never matches"
    );
    assert_eq!(read_str(&root, "author_name"), "Alice Anders");
    assert_eq!(read_str(&root, "item_id"), "item-1");
    assert_eq!(read_str(&root, "created_at"), "2026-03-01T01:00:00+00:00");
    assert!(matches!(
        root.get(&txn, "deleted"),
        Some(yrs::Out::Any(yrs::Any::Bool(false)))
    ));
    assert!(root.get(&txn, "parent_id").is_none());

    // Comment body got the attachment URL rewrite
    let body = match root.get(&txn, "content") {
        Some(yrs::Out::YXmlFragment(f)) => f.get_string(&txn),
        _ => panic!("content fragment missing"),
    };
    assert!(
        body.contains(&image_src(NEW_SPACE, &new_att_id)),
        "comment body src must be rewritten, got: {}",
        body
    );

    let reply = match item_threads.get(&txn, "reply-1") {
        Some(yrs::Out::YMap(m)) => m,
        _ => panic!("reply-1 missing"),
    };
    assert_eq!(read_str(&reply, "parent_id"), "root-1");
    assert_eq!(read_str(&reply, "created_at"), "2026-03-01T02:00:00+00:00");

    // threads_order holds roots only
    let threads_order = txn.get_map("threads_order").expect("threads_order");
    let order = match threads_order.get(&txn, "item-1") {
        Some(yrs::Out::YArray(a)) => a,
        _ => panic!("order array missing"),
    };
    let order_ids: Vec<String> = order
        .iter(&txn)
        .filter_map(|v| match v {
            yrs::Out::Any(yrs::Any::String(s)) => Some(s.to_string()),
            _ => None,
        })
        .collect();
    assert_eq!(order_ids, vec!["root-1"]);
}

#[test]
fn test_no_comments_no_comments_doc() {
    let content = make_test_content();
    let start_date = day(2026, 3, 1);
    let result = instantiate_template(&content, start_date, None, "user-123", None);
    assert!(result.comments_doc.is_none());
}

// ---------------------------------------------------------------------------
// Filters and dates
// ---------------------------------------------------------------------------

#[test]
fn cleaning_filters_twice_changes_nothing() {
    let once = clean_filters(" label-1.val-1 ,u:x,, d:week ,t:y").unwrap();
    assert_eq!(once, "label-1.val-1,d:week");
    assert_eq!(clean_filters(&once), Some(once.clone()));
}

#[test]
fn dates_out_of_range_are_told() {
    let mut content = make_test_content();
    assert!(dates_exist(&content, day(2026, 3, 1)));
    content.items[0].due_date_offset_days = Some(i64::MAX);
    assert!(!dates_exist(&content, day(2026, 3, 1)));
    assert!(
        try_instantiate_template(&content, day(2026, 3, 1), None, "user-123", None).is_none()
    );
    content.items[0].due_date_offset_days = Some(1);
    // There is no such day to count from.
    assert!(!dates_exist(&content, day(2026, 2, 30)));
    assert!(
        try_instantiate_template(&content, day(2026, 3, 1), None, "user-123", None).is_some()
    );
}

#[test]
fn owners_are_default_only_without_any() {
    let mut owners = TemplateOwnersDefault::default();
    assert!(is_default_owners(&owners));
    owners.teams.push("team".to_string());
    assert!(!is_default_owners(&owners));
}

#[test]
fn ids_of_another_length_matter_only_for_blobs() {
    let mut content = make_test_content();
    let start = day(2026, 3, 1);
    content.documents[0].id = "short".to_string();
    assert!(try_instantiate_template(&content, start, None, "user-123", None).is_none());
    // A blob that is no base64 is not remapped.
    content.overview_yjs = Some("?".to_string());
    for item in &mut content.items {
        item.description_yjs = None;
        for comment in &mut item.comments {
            comment.content_yjs = None;
        }
    }
    for document in &mut content.documents {
        document.content_yjs = Some("no base64!".to_string());
    }
    assert!(try_instantiate_template(&content, start, None, "user-123", None).is_some());
}
