//! Copies of rich text, descriptions and item references.

use std::collections::HashMap;

use wodo_interop::markdown::{
    build_short_id_lookup, try_write_description, try_write_markdown_to_fragment,
    write_description, ItemResolver,
};
use wodo_interop::markdown::segment::{parse_inline_formatting, TextSegment};
use wodo_interop::order::{sort_order, Key};
use wodo_interop::str_map::StrMap;
use wodo_interop::template::instantiator::remap_uuids_in_blob;
use wodo_interop::yrs_xml_copy::{
    deep_copy_xml_fragment, deep_copy_xml_node_to_element, deep_copy_xml_node_to_fragment,
};
use yrs::types::xml::{XmlElementPrelim, XmlTextPrelim};
use yrs::updates::decoder::Decode;
use yrs::Map as _;
use yrs::{
    Doc, GetString, MapPrelim, MapRef, ReadTxn, StateVector, Text, Transact, Update, WriteTxn, Xml,
    XmlElementRef, XmlFragment, XmlFragmentRef, XmlTextRef,
};

/// A document with a chain of `depth` elements around a text.
fn nested(depth: usize) -> Doc {
    let doc = Doc::new();
    {
        let mut txn = doc.transact_mut();
        let frag = txn.get_or_insert_xml_fragment("content");
        let mut node: XmlElementRef =
            frag.push_back(&mut txn, XmlElementPrelim::empty("blockquote"));
        for _ in 1..depth {
            node = node.push_back(&mut txn, XmlElementPrelim::empty("blockquote"));
        }
        node.insert_attribute(&mut txn, "level", "last");
        let text: XmlTextRef = node.push_back(&mut txn, XmlTextPrelim::new("plain bold"));
        let marks = HashMap::from([("bold".into(), yrs::Any::Bool(true))]);
        text.format(&mut txn, 6, 4, marks);
    }
    doc
}

fn copy(src: &Doc) -> (Result<(), String>, String) {
    let dst = Doc::new();
    let src_txn = src.transact();
    let src_frag = src_txn.get_xml_fragment("content").unwrap();
    let mut txn = dst.transact_mut();
    let frag = txn.get_or_insert_xml_fragment("content");
    let r = deep_copy_xml_fragment(&src_frag, &src_txn, &frag, &mut txn, 0);
    let xml = frag.get_string(&txn);
    (r, xml)
}

#[test]
fn a_copy_is_what_was_copied() {
    let src = nested(3);
    let (r, xml) = copy(&src);
    assert_eq!(r, Ok(()));
    let txn = src.transact();
    assert_eq!(xml, txn.get_xml_fragment("content").unwrap().get_string(&txn));
    assert!(xml.contains("level=\"last\""), "{xml}");
    assert!(xml.contains("plain <bold>bold</bold>"), "{xml}");
}

#[test]
fn a_copy_goes_to_the_greatest_depth_and_no_further() {
    let (r, xml) = copy(&nested(99));
    assert_eq!(r, Ok(()));
    assert!(xml.contains("plain"));
    let (r, xml) = copy(&nested(200));
    assert_eq!(r, Err("Maximum nesting depth (100) exceeded during deep copy".to_string()));
    assert!(!xml.contains("plain"));
    assert!(xml.contains("blockquote"));
}

#[test]
fn a_node_is_copied_behind_what_is_there() {
    let src = nested(1);
    let src_txn = src.transact();
    let node = src_txn.get_xml_fragment("content").unwrap().get(&src_txn, 0).unwrap();
    let dst = Doc::new();
    let mut txn = dst.transact_mut();
    let frag = txn.get_or_insert_xml_fragment("content");
    let first: XmlElementRef = frag.push_back(&mut txn, XmlElementPrelim::empty("paragraph"));
    assert_eq!(
        deep_copy_xml_node_to_fragment(&src_txn, &frag, &mut txn, node.clone(), 0),
        Ok(())
    );
    assert_eq!(frag.len(&txn), 2);
    assert_eq!(deep_copy_xml_node_to_element(&src_txn, &first, &mut txn, node.clone(), 0), Ok(()));
    assert_eq!(first.len(&txn), 1);
    assert!(deep_copy_xml_node_to_element(&src_txn, &first, &mut txn, node, 101).is_err());
    assert_eq!(first.len(&txn), 1);
    assert!(frag.get_string(&txn).starts_with("<paragraph><blockquote"));
}

#[test]
fn a_description_is_replaced_in_place() {
    let doc = Doc::new();
    let mut txn = doc.transact_mut();
    let item: MapRef = txn.get_or_insert_map("item");
    assert_eq!(write_description(&mut txn, &item, "# One", None), Ok(()));
    let before = fragment(&item, &txn);
    assert_eq!(before.get_string(&txn), "<heading level=\"1\">One</heading>");
    assert_eq!(write_description(&mut txn, &item, "two\n\nthree", None), Ok(()));
    let after = fragment(&item, &txn);
    assert_eq!(
        after.get_string(&txn),
        "<paragraph>two</paragraph><paragraph>three</paragraph>"
    );
    assert_eq!(before.get_string(&txn), after.get_string(&txn));
}

fn fragment<T: ReadTxn>(item: &MapRef, txn: &T) -> XmlFragmentRef {
    match item.get(txn, "description") {
        Some(yrs::Out::YXmlFragment(f)) => f,
        other => panic!("no description: {other:?}"),
    }
}

#[test]
fn item_references_are_resolved_by_short_id() {
    let doc = Doc::new();
    {
        let mut txn = doc.transact_mut();
        let items = txn.get_or_insert_map("items");
        let one: MapRef = items.insert(&mut txn, "a", MapPrelim::default());
        one.insert(&mut txn, "short_id", 42i64);
        one.insert(&mut txn, "id", "DDDDDDDD-0000-0000-0000-000000000004");
        let two: MapRef = items.insert(&mut txn, "b", MapPrelim::default());
        two.insert(&mut txn, "short_id", 7f64);
        two.insert(&mut txn, "id", "eeeeeeee-0000-0000-0000-000000000005");
        let broken: MapRef = items.insert(&mut txn, "c", MapPrelim::default());
        broken.insert(&mut txn, "short_id", 8i64);
        broken.insert(&mut txn, "id", "no uuid");
        items.insert(&mut txn, "d", "no map");
    }
    let lookup = {
        let txn = doc.transact();
        let items = txn.get_map("items").unwrap();
        build_short_id_lookup(&txn, &items)
    };
    assert_eq!(lookup.len(), 2);
    assert_eq!(lookup[&42], "dddddddd-0000-0000-0000-000000000004");
    assert_eq!(lookup[&7], "eeeeeeee-0000-0000-0000-000000000005");

    let mut txn = doc.transact_mut();
    let item = txn.get_or_insert_map("item");
    let resolver: ItemResolver<'_> = &lookup;
    write_description(&mut txn, &item, "See [[WDO-42]] and [[9]]", Some(resolver)).unwrap();
    let xml = fragment(&item, &txn).get_string(&txn);
    // Embedded items follow the text, and one that is not known is left out.
    assert_eq!(
        xml,
        "<paragraph>See  and <itemEmbed itemId=\"dddddddd-0000-0000-0000-000000000004\"></itemEmbed></paragraph>"
    );
}

#[test]
fn plain_text_is_one_segment() {
    let segments = parse_inline_formatting("no marks at all (really)");
    assert_eq!(segments.len(), 1);
    assert!(matches!(&segments[0], TextSegment::Plain(s) if s == "no marks at all (really)"));
    assert!(parse_inline_formatting("").is_empty());
}

#[test]
fn ids_in_a_blob_are_replaced_in_place() {
    let mut map = StrMap::new();
    map.insert(
        "11111111-1111-1111-1111-111111111111".to_string(),
        "22222222-2222-2222-2222-222222222222".to_string(),
    );
    let mut bytes = b"x 11111111-1111-1111-1111-111111111111 y".to_vec();
    remap_uuids_in_blob(&mut bytes, &map);
    assert_eq!(bytes, b"x 22222222-2222-2222-2222-222222222222 y".to_vec());
    let mut other = b"nothing to see".to_vec();
    remap_uuids_in_blob(&mut other, &map);
    assert_eq!(other, b"nothing to see".to_vec());
}

#[test]
fn keys_are_ordered_by_rank_then_text_then_place() {
    let key = |rank: i64, by: &str| Key { rank, by: by.to_string() };
    let keys = vec![key(2, "a"), key(1, "b"), key(1, "a"), key(1, "a"), key(-5, "z")];
    assert_eq!(sort_order(&keys), vec![4, 2, 3, 1, 0]);
}

#[test]
fn a_map_keeps_the_order_in_which_keys_came() {
    let mut map = StrMap::new();
    map.insert("b".to_string(), 1);
    map.insert("a".to_string(), 2);
    map.insert("b".to_string(), 3);
    assert_eq!(map.len(), 2);
    assert_eq!(map.get("b"), Some(&3));
    assert!(!map.contains_key("c"));
    assert_eq!(map.into_entries(), vec![("b".to_string(), 3), ("a".to_string(), 2)]);
}

#[test]
fn what_was_deleted_is_left_as_it_is() {
    let doc = Doc::new();
    let mut txn = doc.transact_mut();
    let items = txn.get_or_insert_map("items");
    let item: MapRef = items.insert(&mut txn, "a", MapPrelim::default());
    assert!(try_write_description(&mut txn, &item, "one\n\ntwo", None));
    let frag: XmlFragmentRef = item.get(&txn, "description").unwrap().cast().unwrap();
    assert_eq!(frag.len(&txn), 2);
    assert!(try_write_markdown_to_fragment(&mut txn, &frag, "# zero", None));
    assert_eq!(frag.len(&txn), 3);
    items.remove(&mut txn, "a");
    assert!(!try_write_description(&mut txn, &item, "one\n\ntwo", None));
    assert!(!try_write_markdown_to_fragment(&mut txn, &frag, "# zero", None));
}

#[test]
fn an_empty_string_in_a_text_is_passed_over() {
    let src = Doc::new();
    {
        let mut txn = src.transact_mut();
        let frag = txn.get_or_insert_xml_fragment("content");
        let text: XmlTextRef = frag.push_back(&mut txn, XmlTextPrelim::new("ab"));
        text.insert_embed(&mut txn, 1, yrs::Any::from(""));
    }
    let (r, xml) = copy(&src);
    assert_eq!(r, Ok(()));
    assert_eq!(xml, "ab");
}

#[test]
fn segments_are_written_back_as_the_line() {
    let line = "a **b** *c* ~~d~~ `e` [f](g) ![h](i) [[WDO-7]] * [";
    let mut back = String::new();
    for segment in parse_inline_formatting(line) {
        match segment {
            TextSegment::Plain(t) => back += &t,
            TextSegment::Bold(t) => back += &format!("**{t}**"),
            TextSegment::Italic(t) => back += &format!("*{t}*"),
            TextSegment::Strike(t) => back += &format!("~~{t}~~"),
            TextSegment::Code(t) => back += &format!("`{t}`"),
            TextSegment::Link { text, href } => back += &format!("[{text}]({href})"),
            TextSegment::Image { alt, src } => back += &format!("![{alt}]({src})"),
            TextSegment::ItemRef(n) => back += &format!("[[WDO-{n}]]"),
        }
    }
    assert_eq!(back, line);
}

#[test]
fn other_entries_of_an_item_stay() {
    let doc = Doc::new();
    let mut txn = doc.transact_mut();
    let items = txn.get_or_insert_map("items");
    let item: MapRef = items.insert(&mut txn, "a", MapPrelim::default());
    item.insert(&mut txn, "title", "Title");
    let note: XmlFragmentRef = item.insert(&mut txn, "note", yrs::XmlFragmentPrelim::default());
    note.push_back(&mut txn, XmlTextPrelim::new("kept"));
    write_description(&mut txn, &item, "one\n\ntwo", None).unwrap();
    write_description(&mut txn, &item, "three", None).unwrap();
    assert_eq!(item.get(&txn, "title"), Some(yrs::Out::Any(yrs::Any::from("Title"))));
    assert_eq!(note.get_string(&txn), "kept");
    assert_eq!(item.len(&txn), 3);
    assert_eq!(fragment(&item, &txn).get_string(&txn), "<paragraph>three</paragraph>");
}

#[test]
fn nodes_are_added_to_what_another_client_wrote() {
    for (first, second) in [(1, 2), (2, 1)] {
        let theirs = Doc::with_client_id(first);
        let update = {
            let mut txn = theirs.transact_mut();
            let frag = txn.get_or_insert_xml_fragment("content");
            frag.push_back(&mut txn, XmlElementPrelim::empty("old"));
            txn.encode_state_as_update_v1(&StateVector::default())
        };
        let ours = Doc::with_client_id(second);
        let mut txn = ours.transact_mut();
        let frag = txn.get_or_insert_xml_fragment("content");
        txn.apply_update(Update::decode_v1(&update).unwrap()).unwrap();
        assert!(try_write_markdown_to_fragment(&mut txn, &frag, "one\n\ntwo", None));
        let xml = frag.get_string(&txn);
        // The first block may stand behind what was there; the second follows the front.
        let (old, one) = ("<old></old>", "<paragraph>one</paragraph>");
        let two = "<paragraph>two</paragraph>";
        assert!(
            xml == format!("{one}{two}{old}") || xml == format!("{old}{two}{one}"),
            "{xml}"
        );
    }
}
