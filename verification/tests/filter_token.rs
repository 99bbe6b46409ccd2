//! Filter tokens and their remapping.

use wodo_interop::filter_token::{
    decode_filter_uuid, encode_filter_uuid, remap_filters_for_import,
    remap_filters_through_uuid_map,
};
use wodo_interop::str_map::StrMap;

fn one_pair(from: &str, to: &str) -> StrMap<String> {
    let mut map = StrMap::new();
    map.insert(from.to_string(), to.to_string());
    map
}

/// A fixed vector: base64url without padding of the sixteen raw bytes.
#[test]
fn test_codec_fixed_vector() {
    let uuid = "dddddddd-0000-0000-0000-000000000004";
    let token = encode_filter_uuid(uuid).unwrap();
    assert_eq!(token, "3d3d3QAAAAAAAAAAAAAABA");
    assert_eq!(decode_filter_uuid(&token).unwrap(), uuid);
}

#[test]
fn test_codec_rejects_garbage() {
    assert!(decode_filter_uuid("not-base64url!").is_none());
    assert!(decode_filter_uuid("AAAA").is_none()); // wrong byte length
    assert!(encode_filter_uuid("not-a-uuid").is_none());
}

#[test]
fn test_import_remap_keeps_unknown_and_keyword_tokens() {
    let old_user = "dddddddd-0000-0000-0000-000000000004";
    let new_user = "eeeeeeee-0000-0000-0000-000000000005";
    let user_map = one_pair(old_user, new_user);
    let team_map = StrMap::new();

    let u_tok = encode_filter_uuid(old_user).unwrap();
    let t_tok = encode_filter_uuid("ffffffff-0000-0000-0000-000000000006").unwrap();
    let filters = format!("lbl.val,u:{},t:{},cy:abc,d:overdue,zz:future", u_tok, t_tok);

    let mut dropped = 0usize;
    let out = remap_filters_for_import(&filters, &user_map, &team_map, &mut dropped).unwrap();

    let expected_u = format!("u:{}", encode_filter_uuid(new_user).unwrap());
    assert_eq!(
        out,
        format!("lbl.val,{},cy:abc,d:overdue,zz:future", expected_u)
    );
    assert_eq!(dropped, 1); // the unmappable team token
}

#[test]
fn test_import_remap_all_dropped_yields_none() {
    let mut dropped = 0usize;
    let out = remap_filters_for_import(
        &format!(
            "u:{}",
            encode_filter_uuid("dddddddd-0000-0000-0000-000000000004").unwrap()
        ),
        &StrMap::new(),
        &StrMap::new(),
        &mut dropped,
    );
    assert!(out.is_none());
    assert_eq!(dropped, 1);
}

#[test]
fn test_uuid_map_remap_keeps_unmapped_verbatim() {
    let old = "dddddddd-0000-0000-0000-000000000004";
    let new = "eeeeeeee-0000-0000-0000-000000000005";
    let map = one_pair(old, new);
    let known = format!("u:{}", encode_filter_uuid(old).unwrap());
    let unknown = format!("t:{}", encode_filter_uuid(new).unwrap());
    let out = remap_filters_through_uuid_map(&format!("{},{}", known, unknown), &map).unwrap();
    assert_eq!(
        out,
        format!("u:{},{}", encode_filter_uuid(new).unwrap(), unknown)
    );
}

#[test]
fn import_keeps_other_tokens_in_order() {
    let mut dropped = 0usize;
    let out = remap_filters_for_import(
        " a.b , t:AAAA ,, d:overdue,u:nonsense ,m:x",
        &StrMap::new(),
        &StrMap::new(),
        &mut dropped,
    );
    assert_eq!(out, Some("a.b,d:overdue,m:x".to_string()));
    assert_eq!(dropped, 2);
}

#[test]
fn import_counts_on_top_of_what_was_dropped() {
    let mut dropped = usize::MAX;
    let out = remap_filters_for_import("u:x", &StrMap::new(), &StrMap::new(), &mut dropped);
    assert_eq!(out, None);
    assert_eq!(dropped, usize::MAX);
}

#[test]
fn rewrite_drops_no_token() {
    let out = remap_filters_through_uuid_map("u:bad,,t:bad, keyword", &StrMap::new());
    assert_eq!(out, Some("u:bad,t:bad,keyword".to_string()));
    assert_eq!(remap_filters_through_uuid_map(" , ,", &StrMap::new()), None);
}

#[test]
fn codec_accepts_any_form_of_a_uuid() {
    // Braces, capitals and missing hyphens stand for the same bytes.
    let token = encode_filter_uuid("DDDDDDDD000000000000000000000004").unwrap();
    assert_eq!(token, "3d3d3QAAAAAAAAAAAAAABA");
    // Padding is not part of the alphabet.
    assert_eq!(decode_filter_uuid("3d3d3QAAAAAAAAAAAAAABA=="), None);
}

#[test]
fn payloads_have_a_fixed_form() {
    for uuid in ["ffffffff-ffff-ffff-ffff-ffffffffffff", "FBEFBEFB-efbe-fbef-befb-efbefbefbefb"] {
        let token = encode_filter_uuid(uuid).unwrap();
        assert_eq!(token.len(), 22);
        assert!(token.chars().all(|c| c.is_ascii_alphanumeric() || c == '-' || c == '_'));
        assert_eq!(decode_filter_uuid(&token).unwrap(), uuid.to_lowercase());
    }
}

#[test]
fn the_reversed_map_undoes_a_rewrite() {
    let old = "dddddddd-0000-0000-0000-000000000004";
    let new = "eeeeeeee-0000-0000-0000-000000000005";
    let other = encode_filter_uuid("ffffffff-0000-0000-0000-000000000006").unwrap();
    let token = encode_filter_uuid(old).unwrap();
    let filters = format!(" u:{token} ,,t:{other}, d:overdue,t:{token}");
    let rewritten = remap_filters_through_uuid_map(&filters, &one_pair(old, new)).unwrap();
    assert_eq!(rewritten.split(',').count(), 4);
    assert!(!rewritten.contains(&token));
    assert_eq!(
        remap_filters_through_uuid_map(&rewritten, &one_pair(new, old)),
        remap_filters_through_uuid_map(&filters, &StrMap::new()),
    );
}
