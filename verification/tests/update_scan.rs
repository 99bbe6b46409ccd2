//! Which bytes can be applied as an update, and what is taken from blobs.

use std::collections::HashMap;
use std::sync::Arc;

use base64::Engine;
use wodo_interop::export::types::{
    ExportAttachment, ExportDocument, ExportItem, ExportMilestones, ExportSpaceMetadata,
    SpaceExport,
};
use wodo_interop::import::convert::common::markdown_to_content_yjs;
use wodo_interop::import::{build_space_from_export, ImportBuildResult, ImportMaps};
use wodo_interop::str_map::StrMap;
use wodo_interop::template::types::{TemplateLabels, TemplateViews};
use wodo_interop::update_scan::is_sound;
use yrs::types::xml::{XmlElementPrelim, XmlTextPrelim};
use yrs::Map as _;
use yrs::{
    Any, Array, ArrayPrelim, Doc, GetString, MapPrelim, Out, ReadTxn, StateVector, Text, Transact,
    WriteTxn, Xml, XmlElementRef, XmlFragment, XmlTextRef,
};

const SPACE: &str = "66666666-6666-6666-6666-666666666666";
const NEW_SPACE: &str = "bbbbbbbb-0000-0000-0000-000000000002";
const USER: &str = "cccccccc-0000-0000-0000-000000000003";

fn s(text: &str) -> String {
    text.to_string()
}

fn base64_of(bytes: &[u8]) -> String {
    base64::engine::general_purpose::STANDARD.encode(bytes)
}

fn var(mut n: u64) -> Vec<u8> {
    let mut out = vec![];
    while n >= 0x80 {
        out.push((n & 0x7f) as u8 | 0x80);
        n >>= 7;
    }
    out.push(n as u8);
    out
}

/// An update with the blocks of one client from a clock on, and nothing deleted.
fn update(client: u64, clock: u64, blocks: &[Vec<u8>]) -> Vec<u8> {
    let mut out = vec![1];
    out.extend(var(blocks.len() as u64));
    out.extend(var(client));
    out.extend(var(clock));
    for b in blocks {
        out.extend(b);
    }
    out.push(0);
    out
}

/// A text under the root `a`.
fn root_text(text: &str) -> Vec<u8> {
    let mut out = vec![0x04, 1, 1, b'a'];
    out.extend(var(text.len() as u64));
    out.extend(text.bytes());
    out
}

/// The text `x` to the right of a clock of client 1.
fn text_after(clock: u64) -> Vec<u8> {
    let mut out = vec![0x84, 1];
    out.extend(var(clock));
    out.extend([1, b'x']);
    out
}

/// A value under the root `a`.
fn root_value(value: &[u8]) -> Vec<u8> {
    let mut out = vec![0x08, 1, 1, b'a', 1];
    out.extend(value);
    out
}

/// A map in the type at a clock of client 1.
fn type_in(clock: u64) -> Vec<u8> {
    let mut out = vec![0x07, 0, 1];
    out.extend(var(clock));
    out.push(1);
    out
}

fn encoded(doc: &Doc) -> Vec<u8> {
    doc.transact().encode_state_as_update_v1(&StateVector::default())
}

fn export() -> SpaceExport {
    SpaceExport {
        format: s("wodo-space-export-v2"),
        exported_at: s("2026-06-11T00:00:00Z"),
        space: ExportSpaceMetadata {
            id: s(SPACE),
            name: s("Demo"),
            slug: s("demo"),
            region: s("eu"),
            short_id_prefix: None,
            short_id_visible: true,
            created_at: s("2026-01-01T00:00:00Z"),
        },
        labels: TemplateLabels { order: vec![], primary_label_id: None, definitions: StrMap::new() },
        milestones: ExportMilestones { order: vec![], definitions: StrMap::new() },
        cycle_config: None,
        cycles: vec![],
        archive_config: None,
        views: TemplateViews { order: vec![], definitions: StrMap::new() },
        items: vec![],
        documents: vec![],
        attachments: vec![],
        users: vec![],
        teams: vec![],
        overview_text: None,
        overview_yjs: None,
    }
}

fn import(e: &SpaceExport) -> ImportBuildResult {
    build_space_from_export(e, NEW_SPACE, USER, &ImportMaps::default())
}

/// What the description of an item becomes when its blob is imported.
fn description_of(blob: Option<String>) -> String {
    let mut e = export();
    e.items = vec![ExportItem { id: s("a"), description_yjs: blob, ..Default::default() }];
    let r = import(&e);
    let txn = r.space_doc.transact();
    match txn.get_map("items").unwrap().get(&txn, "a") {
        Some(Out::YMap(m)) => match m.get(&txn, "description") {
            Some(Out::YXmlFragment(f)) => f.get_string(&txn),
            other => panic!("no description: {other:?}"),
        },
        other => panic!("no item: {other:?}"),
    }
}

#[test]
fn an_update_claims_no_more_than_it_holds() {
    assert!(is_sound(&[0, 0]));
    assert!(!is_sound(&[]));
    assert!(!is_sound(&[0]));
    assert!(is_sound(&update(1, 0, &[root_value(&[117, 1, 127])])));
    let claims = [
        0x01, 0x01, 0x01, 0x00, 0x08, 0x01, 0x01, 0x61, 0x01, 0x75, 0xff, 0xff, 0xff, 0xff, 0xff,
        0xff, 0xff, 0xff, 0x7f,
    ];
    assert!(!is_sound(&claims));
    assert!(!is_sound(&update(1, 0, &[root_value(&[117, 9, 127])])));
    assert!(!is_sound(&update(1, 0, &[root_value(&[118, 2, 1, b'k', 127])])));
    assert_eq!(description_of(Some(base64_of(&claims))), "");
}

#[test]
fn values_nest_up_to_a_depth() {
    let nested = |n: usize| {
        let mut v = vec![];
        for _ in 0..n {
            v.extend([117, 1]);
        }
        v.push(126);
        update(1, 0, &[root_value(&v)])
    };
    assert!(is_sound(&nested(100)));
    assert!(!is_sound(&nested(101)));
}

#[test]
fn all_kinds_of_values_are_taken() {
    let values: [&[u8]; 10] = [
        &[127],
        &[126],
        &[125, 0xbf, 0x01],
        &[124, 0, 0, 0, 0],
        &[123, 0, 0, 0, 0, 0, 0, 0, 0],
        &[122, 0, 0, 0, 0, 0, 0, 0, 1],
        &[121],
        &[120],
        &[119, 2, b'h', b'i'],
        &[116, 1, 0xff],
    ];
    for v in values {
        assert!(is_sound(&update(1, 0, &[root_value(v)])), "{v:?}");
    }
    assert!(!is_sound(&update(1, 0, &[root_value(&[115])])));
    let long = [125, 0xff, 0xff, 0xff, 0xff, 0xff, 0xff, 0xff, 0xff, 0xff, 0x01];
    assert!(!is_sound(&update(1, 0, &[root_value(&long)])));
}

#[test]
fn clocks_stay_below_the_highest() {
    let gap = |n: u64| {
        let mut v = vec![10];
        v.extend(var(n));
        v
    };
    assert!(is_sound(&update(1, 0, &[gap(0x7fff_ffff)])));
    assert!(!is_sound(&update(1, 0, &[gap(0x7fff_ffff), gap(1)])));
    assert!(!is_sound(&update(1, 0, &[gap(0xffff_ffff), gap(1)])));
    assert!(!is_sound(&update(1, 0, &[vec![0, 0]])));
    let mut deletes = vec![0, 1, 1, 1];
    deletes.extend(var(0x7fff_ffff));
    deletes.push(1);
    assert!(!is_sound(&deletes));
}

#[test]
fn texts_are_utf8() {
    assert!(is_sound(&update(1, 0, &[root_text("a\u{7ff}\u{ffff}\u{10ffff}")])));
    for bad in [&[0xffu8][..], &[0xc0, 0x80], &[0xed, 0xa0, 0x80], &[0xf4, 0x90, 0x80, 0x80]] {
        let mut block = vec![0x04, 1, 1, b'a', bad.len() as u8];
        block.extend(bad);
        assert!(!is_sound(&update(1, 0, &[block])), "{bad:?}");
    }
}

#[test]
fn a_block_refers_to_what_came_before() {
    assert!(is_sound(&update(1, 0, &[root_text("ab"), text_after(1)])));
    assert!(!is_sound(&update(1, 0, &[root_text("ab"), text_after(2)])));
    assert!(!is_sound(&update(1, 0, &[root_text("ab"), text_after(7)])));
    let twice = [vec![2, 1, 1, 0], root_text("a"), vec![1, 1, 0], root_text("b"), vec![0]].concat();
    assert!(!is_sound(&twice));
    let other = [vec![2, 1, 2, 0], root_text("a"), vec![1, 1, 0], root_text("b"), vec![0]].concat();
    assert!(is_sound(&other));
}

#[test]
fn no_cut_goes_through_a_pair() {
    assert!(is_sound(&update(1, 0, &[root_text("a\u{1f600}"), text_after(2)])));
    assert!(is_sound(&update(1, 0, &[root_text("a\u{1f600}"), text_after(0)])));
    assert!(!is_sound(&update(1, 0, &[root_text("a\u{1f600}"), text_after(1)])));
    let mut deletes = update(1, 0, &[root_text("a\u{1f600}")]);
    deletes.pop();
    deletes.extend([1, 1, 1, 1, 2]);
    assert!(is_sound(&deletes));
    let n = deletes.len();
    deletes[n - 2] = 2;
    assert!(!is_sound(&deletes));
}

#[test]
fn types_nest_up_to_a_depth() {
    let nested = |n: u64| {
        let mut blocks = vec![vec![0x07, 1, 1, b'a', 1]];
        for clock in 0..n {
            blocks.push(type_in(clock));
        }
        update(1, 0, &blocks)
    };
    assert!(is_sound(&nested(500)));
    assert!(!is_sound(&nested(501)));
    // Two types that stand beside one another are on one level.
    let mut blocks = vec![vec![0x07, 1, 1, b'a', 1]];
    for clock in 0..2000 {
        blocks.push([vec![0x87, 1], var(clock), vec![1]].concat());
    }
    assert!(is_sound(&update(1, 0, &blocks)));
}

#[test]
fn what_a_document_encodes_is_sound() {
    let doc = Doc::new();
    {
        let mut txn = doc.transact_mut();
        let frag = txn.get_or_insert_xml_fragment("content");
        let p: XmlElementRef = frag.push_back(&mut txn, XmlElementPrelim::empty("paragraph"));
        p.insert_attribute(&mut txn, "align", "left");
        let t: XmlTextRef = p.push_back(&mut txn, XmlTextPrelim::new("h\u{e9}llo \u{1f600} world"));
        let marks = HashMap::from([("bold".into(), Any::Bool(true))]);
        t.format(&mut txn, 0, 3, marks);
        t.insert_embed(&mut txn, 1, Any::Bool(true));
        let map = txn.get_or_insert_map("map");
        map.insert(&mut txn, "k", MapPrelim::from([("n", Any::Number(1.5))]));
        map.insert(&mut txn, "k", "again");
        let list = txn.get_or_insert_array("list");
        list.push_back(&mut txn, ArrayPrelim::from([1, 2, 3]));
        list.push_back(&mut txn, Any::Map(Arc::new(HashMap::from([(s("a"), Any::Null)]))));
    }
    assert!(is_sound(&encoded(&doc)));
    {
        let mut txn = doc.transact_mut();
        txn.get_or_insert_array("list").remove(&mut txn, 0);
        txn.get_or_insert_xml_fragment("content").remove_range(&mut txn, 0, 1);
    }
    assert!(is_sound(&encoded(&doc)));
    let blob = markdown_to_content_yjs("# Title\n\n| a | b |\n|---|---|\n| 1 | 2 |").unwrap();
    let bytes = base64::engine::general_purpose::STANDARD.decode(blob).unwrap();
    assert!(is_sound(&bytes));
}

#[test]
fn markdown_is_read_back_from_its_blob() {
    let xml = description_of(markdown_to_content_yjs("# Title\n\n- [x] **done**\n\n> quoted"));
    assert_eq!(
        xml,
        "<heading level=\"1\">Title</heading><taskList><taskItem checked=\"true\"><paragraph>\
         <bold>done</bold></paragraph></taskItem></taskList><blockquote><paragraph>quoted\
         </paragraph></blockquote>"
    );
}

#[test]
fn equal_blobs_are_read_alike() {
    let doc = Doc::new();
    {
        let mut txn = doc.transact_mut();
        let frag = txn.get_or_insert_xml_fragment("content");
        let t: XmlTextRef = frag.push_back(&mut txn, XmlTextPrelim::new(""));
        let value = HashMap::from([(s("one"), Any::Bool(true)), (s("two"), Any::Null)]);
        t.insert_embed(&mut txn, 0, Any::Map(Arc::new(value)));
    }
    let blob = Some(base64_of(&encoded(&doc)));
    let mut e = export();
    for id in ["a", "b"] {
        let description_yjs = blob.clone();
        e.items.push(ExportItem { id: s(id), description_yjs, ..Default::default() });
    }
    let r = import(&e);
    let txn = r.space_doc.transact();
    let items = txn.get_map("items").unwrap();
    let shown: Vec<String> = ["a", "b"]
        .iter()
        .map(|id| match items.get(&txn, id) {
            Some(Out::YMap(m)) => match m.get(&txn, "description") {
                Some(Out::YXmlFragment(f)) => f.get_string(&txn),
                other => panic!("no description: {other:?}"),
            },
            other => panic!("no item: {other:?}"),
        })
        .collect();
    assert!(shown[0].contains("one: true") && shown[0].contains("two: null"), "{}", shown[0]);
    assert_eq!(shown[0], shown[1]);
}

#[test]
fn new_ids_are_random_uuids() {
    let mut e = export();
    e.documents = vec![ExportDocument { id: s(USER), ..Default::default() }];
    e.attachments = vec![ExportAttachment {
        id: s(SPACE),
        filename: s("x.png"),
        content_type: s("image/png"),
        size_bytes: 1,
        uploaded_by: s(USER),
        uploaded_at: s("2026-01-01T00:00:00Z"),
        document_id: None,
        orphaned: false,
    }];
    let r = import(&e);
    let doc_id = &r.document_manifest[0].new_id;
    let attachment_id = r.attachment_id_map.get(SPACE).unwrap();
    for id in [doc_id, attachment_id] {
        let c: Vec<char> = id.chars().collect();
        assert_eq!(c.len(), 36);
        assert_eq!(c[14], '4');
        assert!(matches!(c[19], '8' | '9' | 'a' | 'b'), "{id}");
        assert!(!id.chars().any(|c| c.is_ascii_uppercase()));
    }
    assert_ne!(doc_id, attachment_id);
}
