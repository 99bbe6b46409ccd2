//! Archives of exports.

use std::io::{Cursor, Read};

use wodo_interop::export::package::{write_space_export_zip, SpaceExportZip};
use wodo_interop::export::types::{
    ExportAttachment, ExportMilestones, ExportSpaceMetadata, SpaceExport,
};
use wodo_interop::import::{build_space_from_export, ImportMaps};
use wodo_interop::str_map::StrMap;
use wodo_interop::template::types::{TemplateLabels, TemplateViews};
use yrs::{ReadTxn, Transact};

const ATTACH: &str = "77777777-7777-7777-7777-777777777777";

const TINY_JSON: &str = r#"{
    "format": "wodo-space-export-v2",
    "exported_at": "2026-06-11T00:00:00Z",
    "space": {
        "id": "66666666-6666-6666-6666-666666666666",
        "name": "Demo", "slug": "demo", "region": "eu",
        "short_id_visible": true, "created_at": "2026-01-01T00:00:00Z"
    }
}"#;

fn tiny_export(name: &str) -> SpaceExport {
    SpaceExport {
        format: "wodo-space-export-v2".to_string(),
        exported_at: "2026-06-11T00:00:00Z".to_string(),
        space: ExportSpaceMetadata {
            id: "66666666-6666-6666-6666-666666666666".to_string(),
            name: name.to_string(),
            slug: "demo".to_string(),
            region: "eu".to_string(),
            short_id_prefix: None,
            short_id_visible: true,
            created_at: "2026-01-01T00:00:00Z".to_string(),
        },
        labels: TemplateLabels {
            order: vec![],
            primary_label_id: None,
            definitions: StrMap::new(),
        },
        milestones: ExportMilestones { order: vec![], definitions: StrMap::new() },
        cycle_config: None,
        cycles: vec![],
        archive_config: None,
        views: TemplateViews { order: vec![], definitions: StrMap::new() },
        items: vec![],
        documents: vec![],
        attachments: vec![ExportAttachment {
            id: ATTACH.to_string(),
            filename: "report.pdf".to_string(),
            content_type: "application/pdf".to_string(),
            size_bytes: 3,
            uploaded_by: "22222222-2222-2222-2222-222222222222".to_string(),
            uploaded_at: "2026-05-02T09:14:00Z".to_string(),
            document_id: None,
            orphaned: false,
        }],
        users: vec![],
        teams: vec![],
        overview_text: None,
        overview_yjs: None,
    }
}

#[test]
fn round_trips_and_imports() {
    let blobs = vec![(ATTACH.to_string(), "report.pdf".to_string(), b"PDF".to_vec())];

    let zip_bytes = write_space_export_zip(TINY_JSON.as_bytes(), &blobs).unwrap();
    assert!(zip_bytes.starts_with(b"PK"), "output is a ZIP");

    let mut archive = zip::ZipArchive::new(Cursor::new(zip_bytes)).unwrap();
    let names: Vec<String> = (0..archive.len())
        .map(|i| archive.by_index(i).unwrap().name().to_string())
        .collect();
    assert!(names.contains(&"data.json".to_string()));
    assert!(
        names.contains(&format!("attachments/{ATTACH}/report.pdf")),
        "attachment entry present: {names:?}"
    );

    // data.json parses back …
    let mut json = Vec::new();
    archive.by_name("data.json").unwrap().read_to_end(&mut json).unwrap();
    let parsed: serde_json::Value = serde_json::from_slice(&json).unwrap();
    assert_eq!(parsed["space"]["name"].as_str(), Some("Demo"));

    // … and the export is import-valid.
    let result = build_space_from_export(
        &tiny_export(parsed["space"]["name"].as_str().unwrap()),
        "bbbbbbbb-0000-0000-0000-000000000002",
        "cccccccc-0000-0000-0000-000000000003",
        &ImportMaps::default(),
    );
    assert!(result.space_doc.transact().get_map("config").is_some());

    // The attachment blob survives the round-trip byte-for-byte.
    let mut pdf = Vec::new();
    archive
        .by_name(&format!("attachments/{ATTACH}/report.pdf"))
        .unwrap()
        .read_to_end(&mut pdf)
        .unwrap();
    assert_eq!(pdf, b"PDF");
}

#[test]
fn attachments_stand_in_order_before_the_export() {
    let mut zip = SpaceExportZip::new();
    zip.add_attachment("a", "one.txt", b"1").unwrap();
    zip.add_attachment("b", "two.txt", b"22").unwrap();
    let bytes = zip.finish(b"{}").unwrap();
    let mut archive = zip::ZipArchive::new(Cursor::new(bytes)).unwrap();
    let names: Vec<String> = (0..archive.len())
        .map(|i| archive.by_index(i).unwrap().name().to_string())
        .collect();
    assert_eq!(names, vec!["attachments/a/one.txt", "attachments/b/two.txt", "data.json"]);
    let mut two = Vec::new();
    archive.by_index(1).unwrap().read_to_end(&mut two).unwrap();
    assert_eq!(two, b"22");
}

#[test]
fn an_entry_is_not_written_twice() {
    let mut zip = SpaceExportZip::new();
    zip.add_attachment("a", "one.txt", b"1").unwrap();
    let error = zip.add_attachment("a", "one.txt", b"1").unwrap_err();
    assert!(error.starts_with("start attachments/a/one.txt: "), "{error}");
}

#[test]
fn an_archive_goes_on_after_a_refused_entry() {
    let mut zip = SpaceExportZip::new();
    zip.add_attachment("a", "x.txt", b"one").unwrap();
    let refused = zip.add_attachment("a", "x.txt", b"two").unwrap_err();
    assert!(refused.starts_with("start attachments/a/x.txt: "), "{refused}");
    zip.add_attachment("b", "x.txt", b"").unwrap();
    let bytes = zip.finish(b"{}").unwrap();
    let mut archive = zip::ZipArchive::new(Cursor::new(bytes)).unwrap();
    assert_eq!(archive.len(), 3);
    let mut first = String::new();
    archive.by_index(0).unwrap().read_to_string(&mut first).unwrap();
    assert_eq!(first, "one");
}

#[test]
fn two_attachments_do_not_get_one_entry() {
    let entry = |id: &str, name: &str| (id.to_string(), name.to_string(), vec![1u8]);
    assert!(write_space_export_zip(b"{}", &vec![entry("a", "x"), entry("b", "x")]).is_ok());
    assert!(write_space_export_zip(b"{}", &vec![entry("a", "x"), entry("a", "x")]).is_err());
    // Other parts, but the same name.
    assert!(write_space_export_zip(b"{}", &vec![entry("a/b", "x"), entry("a", "b/x")]).is_err());
}
