//! Saved-view filter token codec.
//!
//! View `filters` strings are comma-separated tokens. Tokens that carry a UUID
//! (`u:`, `t:`, `m:`, `cy:`, and `{label}.{value}` pairs) encode its sixteen raw
//! bytes as base64url without padding.

use vstd::prelude::*;
use vstd::string::StringExecFns;

use crate::codec;
use crate::str_map::StrMap;
use crate::text;

verus! {

// ---------------------------------------------------------------------------
// The codec
// ---------------------------------------------------------------------------

/// The token payload for a UUID.
pub open spec fn uuid_token(uuid: Seq<char>) -> Option<Seq<char>> {
    match codec::parsed_uuid(uuid) {
        Some(b) => Some(codec::base64url(b)),
        None => None,
    }
}

/// The UUID that a token payload stands for.
pub open spec fn token_uuid(token: Seq<char>) -> Option<Seq<char>> {
    match codec::base64url_bytes(token) {
        Some(b) => if b.len() == 16 {
            Some(codec::hyphenated(b))
        } else {
            None
        },
        None => None,
    }
}

/// Whether `token` has the form of a token payload: 22 characters of the base64url
/// alphabet.
pub open spec fn is_payload(token: Seq<char>) -> bool {
    token.len() == 22 && codec::is_url_safe(token)
}

/// UUID string to compact filter token payload. The payload decodes to the same
/// bytes, that is to the UUID in its hyphenated form in lower case.
pub fn encode_filter_uuid(uuid: &str) -> (r: Option<String>)
    ensures
        text::opt_text(r) == uuid_token(uuid@),
        r is Some ==> token_uuid(r->0@) == Some(codec::hyphenated(codec::parsed_uuid(uuid@)->0)),
        r is Some ==> is_payload(r->0@),
        codec::is_canonical(uuid@) ==> r is Some && token_uuid(r->0@) == Some(uuid@),
{
    match codec::parse_uuid(uuid) {
        Some(b) => {
            proof {
                codec::lemma_base64url(b@);
            }
            Some(codec::encode_base64url(b.as_slice()))
        },
        None => None,
    }
}

/// Compact filter token payload to UUID string. The string encodes to the same
/// payload.
pub fn decode_filter_uuid(token: &str) -> (r: Option<String>)
    ensures
        text::opt_text(r) == token_uuid(token@),
        r is Some ==> uuid_token(r->0@) == Some(token@),
{
    match codec::decode_base64url(token) {
        Some(b) => {
            if b.len() != 16 {
                return None;
            }
            let bytes = codec::sixteen(b.as_slice());
            Some(codec::uuid_text(&bytes))
        },
        None => None,
    }
}

// ---------------------------------------------------------------------------
// Tokens of a filter string
// ---------------------------------------------------------------------------

/// The tokens of a filter string: the parts between commas, trimmed, without
/// the empty ones.
pub open spec fn tokens_of(s: Seq<char>) -> Seq<Seq<char>> {
    trimmed(text::split_of(s, ','))
}

/// The parts, trimmed, without the empty ones.
pub open spec fn trimmed(parts: Seq<Seq<char>>) -> Seq<Seq<char>>
    decreases parts.len(),
{
    if parts.len() == 0 {
        seq![]
    } else {
        let t = text::trim_of(parts.last());
        if t.len() > 0 {
            trimmed(parts.drop_last()).push(t)
        } else {
            trimmed(parts.drop_last())
        }
    }
}

/// A filter string of the tokens; nothing where there are none.
pub open spec fn filter_of(tokens: Seq<Seq<char>>) -> Option<Seq<char>> {
    if tokens.len() == 0 {
        None
    } else {
        Some(text::join_of(tokens, ","@))
    }
}

/// The tokens of a filter string.
pub(crate) fn split_tokens<'a>(s: &'a [char]) -> (r: Vec<&'a [char]>)
    ensures
        text::slices(r@) == tokens_of(s@),
{
    let parts = text::split(s, ',');
    let ghost all = text::slices(parts@);
    let mut out: Vec<&'a [char]> = Vec::new();
    let mut i: usize = 0;
    assert(all.take(0) =~= seq![]);
    assert(text::slices(out@) =~= seq![]);
    while i < parts.len()
        invariant
            i <= parts@.len(),
            all == text::slices(parts@),
            text::slices(out@) == trimmed(all.take(i as int)),
        decreases parts@.len() - i,
    {
        let ghost before = out@;
        assert(all.take(i + 1).drop_last() =~= all.take(i as int));
        let t = text::trim(parts[i]);
        if t.len() > 0 {
            out.push(t);
            assert(text::slices(out@) =~= text::slices(before).push(t@));
        }
        i = i + 1;
    }
    assert(all.take(all.len() as int) =~= all);
    out
}

/// The payload of a `u:` or `t:` token and its prefix.
pub open spec fn principal(token: Seq<char>) -> Option<(Seq<char>, Seq<char>)> {
    if let Some(payload) = text::after_prefix(token, "u:"@) {
        Some(("u:"@, payload))
    } else if let Some(payload) = text::after_prefix(token, "t:"@) {
        Some(("t:"@, payload))
    } else {
        None
    }
}

/// The payload of a `u:` or `t:` token.
pub open spec fn payload_of(token: Seq<char>) -> Seq<char> {
    match principal(token) {
        Some((prefix, payload)) => payload,
        None => seq![],
    }
}

/// The prefix of a `u:` or `t:` token.
pub open spec fn prefix_of(token: Seq<char>) -> Seq<char> {
    match principal(token) {
        Some((prefix, payload)) => prefix,
        None => seq![],
    }
}

/// The token with the UUID of its payload rewritten through `map`, where it
/// decodes and is mapped to a UUID.
pub open spec fn remapped(
    prefix: Seq<char>,
    payload: Seq<char>,
    map: Map<Seq<char>, String>,
) -> Option<Seq<char>> {
    match token_uuid(payload) {
        None => None,
        Some(old) => if map.contains_key(old) {
            match uuid_token(map[old]@) {
                Some(new) => Some(prefix + new),
                None => None,
            }
        } else {
            None
        },
    }
}

/// Whether a payload can be got back after it was rewritten through `map`: the UUID
/// that it stands for encodes to it, and the payload that takes its place has the form
/// of one and stands for the UUID that the map gives.
pub open spec fn can_undo(payload: Seq<char>, map: Map<Seq<char>, String>) -> bool {
    match token_uuid(payload) {
        None => true,
        Some(old) => {
            &&& uuid_token(old) == Some(payload)
            &&& map.contains_key(old) && uuid_token(map[old]@) is Some ==> is_payload(
                uuid_token(map[old]@)->0,
            )
            &&& map.contains_key(old) && codec::is_canonical(map[old]@) ==> uuid_token(map[old]@)
                is Some && token_uuid(uuid_token(map[old]@)->0) == Some(map[old]@)
        },
    }
}

fn remap_principal_token(prefix: &str, payload: &str, map: &StrMap<String>) -> (r: Option<String>)
    ensures
        text::opt_text(r) == remapped(prefix@, payload@, map@),
        can_undo(payload@, map@),
{
    match decode_filter_uuid(payload) {
        None => None,
        Some(old) => match map.get(old.as_str()) {
            None => None,
            Some(new) => match encode_filter_uuid(new.as_str()) {
                None => None,
                Some(tok) => Some(prefix.to_owned().concat(tok.as_str())),
            },
        },
    }
}

/// What becomes of a token on import: a `u:` or `t:` token goes through the map
/// of users or of teams, any other token stays.
pub open spec fn import_token(
    token: Seq<char>,
    users: Map<Seq<char>, String>,
    teams: Map<Seq<char>, String>,
) -> Option<Seq<char>> {
    match principal(token) {
        None => Some(token),
        Some((prefix, payload)) => remapped(
            prefix,
            payload,
            if prefix == "u:"@ {
                users
            } else {
                teams
            },
        ),
    }
}

/// The tokens that an import keeps.
pub open spec fn import_tokens(
    tokens: Seq<Seq<char>>,
    users: Map<Seq<char>, String>,
    teams: Map<Seq<char>, String>,
) -> Seq<Seq<char>>
    decreases tokens.len(),
{
    if tokens.len() == 0 {
        seq![]
    } else {
        let rest = import_tokens(tokens.drop_last(), users, teams);
        match import_token(tokens.last(), users, teams) {
            Some(t) => rest.push(t),
            None => rest,
        }
    }
}

/// The number `n`, or the largest `usize` where it exceeds that.
pub open spec fn capped(n: int) -> int {
    if n > usize::MAX {
        usize::MAX as int
    } else {
        n
    }
}

/// The number of tokens that an import drops.
pub open spec fn import_dropped(
    s: Seq<char>,
    users: Map<Seq<char>, String>,
    teams: Map<Seq<char>, String>,
) -> int {
    tokens_of(s).len() - import_tokens(tokens_of(s), users, teams).len()
}

/// The filter string after an import.
pub open spec fn import_filters(
    s: Seq<char>,
    users: Map<Seq<char>, String>,
    teams: Map<Seq<char>, String>,
) -> Option<Seq<char>> {
    filter_of(import_tokens(tokens_of(s), users, teams))
}

fn join_tokens(tokens: &Vec<String>) -> (r: Option<String>)
    ensures
        text::opt_text(r) == filter_of(text::texts(tokens@)),
{
    if tokens.len() == 0 {
        None
    } else {
        Some(text::join(tokens, ","))
    }
}

/// Remaps a view filter string for import. `u:` and `t:` tokens go through the
/// user and team maps, and those that cannot be mapped are dropped and counted.
/// Every other token is kept as it is.
pub fn remap_filters_for_import(
    filter_str: &str,
    user_map: &StrMap<String>,
    team_map: &StrMap<String>,
    dropped: &mut usize,
) -> (r: Option<String>)
    ensures
        text::opt_text(r) == import_filters(filter_str@, user_map@, team_map@),
        *final(dropped) == capped(
            *old(dropped) + import_dropped(filter_str@, user_map@, team_map@),
        ),
{
    proof {
        reveal_strlit("u:");
        reveal_strlit("t:");
        assert("u:"@[0] != "t:"@[0]);
    }
    let chars = text::to_chars(filter_str);
    let tokens = split_tokens(chars.as_slice());
    let ghost all = text::slices(tokens@);
    let ghost start = *dropped;
    let mut kept: Vec<String> = Vec::new();
    let mut i: usize = 0;
    assert(all.take(0) =~= seq![]);
    assert(text::texts(kept@) =~= seq![]);
    while i < tokens.len()
        invariant
            i <= tokens@.len(),
            all == text::slices(tokens@),
            "u:"@ != "t:"@,
            text::texts(kept@) == import_tokens(all.take(i as int), user_map@, team_map@),
            kept@.len() <= i,
            *dropped == capped(start + (i - kept@.len())),
        decreases tokens@.len() - i,
    {
        let ghost before = kept@;
        assert(all.take(i + 1).drop_last() =~= all.take(i as int));
        let mut keep: Option<String> = None;
        if let Some(payload) = text::strip_prefix(tokens[i], "u:") {
            let p = text::to_text(payload);
            keep = remap_principal_token("u:", p.as_str(), user_map);
        } else if let Some(payload) = text::strip_prefix(tokens[i], "t:") {
            let p = text::to_text(payload);
            keep = remap_principal_token("t:", p.as_str(), team_map);
        } else {
            keep = Some(text::to_text(tokens[i]));
        }
        match keep {
            Some(t) => {
                kept.push(t);
                assert(text::texts(kept@) =~= text::texts(before).push(t@));
            },
            None => {
                *dropped = (*dropped).saturating_add(1);
            },
        }
        i = i + 1;
    }
    assert(all.take(all.len() as int) =~= all);
    assert(text::texts(kept@).len() == kept@.len());
    join_tokens(&kept)
}

/// What becomes of a token under a combined map: a `u:` or `t:` token that can be
/// mapped is, any other stays.
pub open spec fn mapped_token(token: Seq<char>, map: Map<Seq<char>, String>) -> Seq<char> {
    match principal(token) {
        None => token,
        Some((prefix, payload)) => match remapped(prefix, payload, map) {
            Some(t) => t,
            None => token,
        },
    }
}

/// The tokens under a combined map.
pub open spec fn mapped_tokens(tokens: Seq<Seq<char>>, map: Map<Seq<char>, String>) -> Seq<
    Seq<char>,
> {
    tokens.map_values(|t: Seq<char>| mapped_token(t, map))
}

/// Whether `inv` is `map` reversed.
pub open spec fn reverses(map: Map<Seq<char>, String>, inv: Map<Seq<char>, String>) -> bool {
    &&& forall|k: Seq<char>| #[trigger]
        map.contains_key(k) ==> inv.contains_key(map[k]@) && inv[map[k]@]@ == k
    &&& forall|v: Seq<char>| #[trigger]
        inv.contains_key(v) ==> map.contains_key(inv[v]@) && map[inv[v]@]@ == v
}

/// Whether all values of `map` are UUIDs in hyphenated form and lower case.
pub open spec fn canonical_values(map: Map<Seq<char>, String>) -> bool {
    forall|k: Seq<char>| #[trigger] map.contains_key(k) ==> codec::is_canonical(map[k]@)
}

/// Whether none of the tokens stands for a value of `map`.
pub open spec fn avoids_values(tokens: Seq<Seq<char>>, map: Map<Seq<char>, String>) -> bool {
    forall|i: int, k: Seq<char>|
        0 <= i < tokens.len() && principal(#[trigger] tokens[i]) is Some
            && #[trigger] map.contains_key(k) ==> token_uuid(payload_of(tokens[i])) != Some(
            map[k]@,
        )
}

/// Whether a rewrite of the tokens through `map` is undone by a rewrite through `inv`:
/// the maps are each other's reverse, the values are UUIDs in hyphenated form and lower
/// case, and none of the tokens stood for a value before.
pub open spec fn is_undone(
    tokens: Seq<Seq<char>>,
    map: Map<Seq<char>, String>,
    inv: Map<Seq<char>, String>,
) -> bool {
    reverses(map, inv) && canonical_values(map) && avoids_values(tokens, map)
}

/// Remaps `u:` and `t:` tokens through a combined map of UUIDs and keeps those
/// that cannot be mapped as they are. No filter is dropped. A rewrite through the
/// reversed map gives the tokens back.
pub fn remap_filters_through_uuid_map(filter_str: &str, uuid_map: &StrMap<String>) -> (r: Option<
    String,
>)
    ensures
        text::opt_text(r) == filter_of(mapped_tokens(tokens_of(filter_str@), uuid_map@)),
        r is Some ==> tokens_of(r->0@) == mapped_tokens(tokens_of(filter_str@), uuid_map@),
        r is Some ==> forall|inv: Map<Seq<char>, String>| #[trigger]
            is_undone(tokens_of(filter_str@), uuid_map@, inv) ==> filter_of(
                mapped_tokens(tokens_of(r->0@), inv),
            ) == filter_of(mapped_tokens(tokens_of(filter_str@), Map::empty())),
{
    proof {
        reveal_strlit("u:");
        reveal_strlit("t:");
        assert("u:"@[0] != "t:"@[0]);
    }
    let chars = text::to_chars(filter_str);
    let tokens = split_tokens(chars.as_slice());
    let ghost all = text::slices(tokens@);
    let mut kept: Vec<String> = Vec::new();
    let mut i: usize = 0;
    while i < tokens.len()
        invariant
            i <= tokens@.len(),
            all == text::slices(tokens@),
            "u:"@ != "t:"@,
            kept@.len() == i,
            forall|k: int|
                0 <= k < i ==> (#[trigger] kept@[k])@ == mapped_token(all[k], uuid_map@),
            forall|k: int|
                0 <= k < i && principal(#[trigger] all[k]) is Some ==> can_undo(
                    payload_of(all[k]),
                    uuid_map@,
                ),
        decreases tokens@.len() - i,
    {
        let mut mapped: Option<String> = None;
        if let Some(payload) = text::strip_prefix(tokens[i], "u:") {
            let p = text::to_text(payload);
            mapped = remap_principal_token("u:", p.as_str(), uuid_map);
        } else if let Some(payload) = text::strip_prefix(tokens[i], "t:") {
            let p = text::to_text(payload);
            mapped = remap_principal_token("t:", p.as_str(), uuid_map);
        }
        let token = match mapped {
            Some(t) => t,
            None => text::to_text(tokens[i]),
        };
        kept.push(token);
        i = i + 1;
    }
    assert(text::texts(kept@) =~= mapped_tokens(all, uuid_map@));
    proof {
        lemma_tokens(filter_str@);
        lemma_mapped_are_tokens(all, uuid_map@);
        if all.len() > 0 {
            lemma_filter_round_trip(mapped_tokens(all, uuid_map@));
        }
        assert forall|inv: Map<Seq<char>, String>| #[trigger]
            is_undone(all, uuid_map@, inv) implies mapped_tokens(
            mapped_tokens(all, uuid_map@),
            inv,
        ) == mapped_tokens(all, Map::empty()) by {
            lemma_rewrite_undone(all, uuid_map@, inv);
        }
    }
    join_tokens(&kept)
}

// ---------------------------------------------------------------------------
// Laws
// ---------------------------------------------------------------------------

/// The tokens that name neither a user nor a team.
pub open spec fn others(tokens: Seq<Seq<char>>) -> Seq<Seq<char>>
    decreases tokens.len(),
{
    if tokens.len() == 0 {
        seq![]
    } else if principal(tokens.last()) is None {
        others(tokens.drop_last()).push(tokens.last())
    } else {
        others(tokens.drop_last())
    }
}

/// A token that begins with the prefix of a user or of a team names one.
proof fn lemma_prefixed(prefix: Seq<char>, payload: Seq<char>)
    requires
        prefix == "u:"@ || prefix == "t:"@,
    ensures
        principal(prefix + payload) is Some,
{
    reveal_strlit("u:");
    reveal_strlit("t:");
    assert((prefix + payload).take(2) =~= prefix);
    assert(prefix.is_prefix_of(prefix + payload));
}

/// An import keeps every token that names neither a user nor a team, as it is
/// and in its order, whatever the maps hold.
pub proof fn lemma_import_keeps_others(
    tokens: Seq<Seq<char>>,
    users: Map<Seq<char>, String>,
    teams: Map<Seq<char>, String>,
)
    ensures
        others(import_tokens(tokens, users, teams)) == others(tokens),
    decreases tokens.len(),
{
    if tokens.len() > 0 {
        lemma_import_keeps_others(tokens.drop_last(), users, teams);
        let rest = import_tokens(tokens.drop_last(), users, teams);
        if let Some(t) = import_token(tokens.last(), users, teams) {
            assert(rest.push(t).drop_last() =~= rest);
            if let Some((prefix, payload)) = principal(tokens.last()) {
                let map = if prefix == "u:"@ { users } else { teams };
                lemma_prefixed(prefix, uuid_token(map[token_uuid(payload)->0]@)->0);
            }
        }
    }
}

/// Where no user and no team is mapped, an import leaves exactly the tokens that
/// name neither.
pub proof fn lemma_import_without_maps(tokens: Seq<Seq<char>>)
    ensures
        import_tokens(tokens, Map::empty(), Map::empty()) == others(tokens),
    decreases tokens.len(),
{
    if tokens.len() > 0 {
        lemma_import_without_maps(tokens.drop_last());
    }
}

/// A rewrite through a map of UUIDs drops no token, and leaves every token that
/// names neither a user nor a team as it is.
pub proof fn lemma_mapped_keeps_all(tokens: Seq<Seq<char>>, map: Map<Seq<char>, String>)
    ensures
        mapped_tokens(tokens, map).len() == tokens.len(),
        forall|i: int|
            0 <= i < tokens.len() && principal(#[trigger] tokens[i]) is None ==> mapped_tokens(
                tokens,
                map,
            )[i] == tokens[i],
{
}

/// Whether `t` can stand as a token of a filter string.
pub open spec fn is_token(t: Seq<char>) -> bool {
    t.len() > 0 && text::trim_of(t) == t && !t.contains(',')
}

proof fn lemma_trimmed_parts(parts: Seq<Seq<char>>)
    requires
        forall|i: int| 0 <= i < parts.len() ==> !(#[trigger] parts[i]).contains(','),
    ensures
        forall|i: int| 0 <= i < trimmed(parts).len() ==> is_token(#[trigger] trimmed(parts)[i]),
    decreases parts.len(),
{
    if parts.len() > 0 {
        assert forall|i: int| 0 <= i < parts.drop_last().len() implies !(
        #[trigger] parts.drop_last()[i]).contains(',') by {
            assert(parts.drop_last()[i] == parts[i]);
        }
        lemma_trimmed_parts(parts.drop_last());
        text::lemma_trimmed(parts.last());
        assert(!parts[parts.len() - 1].contains(','));
        let t = text::trim_of(parts.last());
        assert(t.len() > 0 ==> is_token(t));
        assert forall|i: int| 0 <= i < trimmed(parts).len() implies is_token(
            #[trigger] trimmed(parts)[i],
        ) by {
            if i < trimmed(parts.drop_last()).len() {
                assert(trimmed(parts)[i] == trimmed(parts.drop_last())[i]);
            }
        }
    }
}

proof fn lemma_trimmed_tokens(tokens: Seq<Seq<char>>)
    requires
        forall|i: int| 0 <= i < tokens.len() ==> is_token(#[trigger] tokens[i]),
    ensures
        trimmed(tokens) == tokens,
    decreases tokens.len(),
{
    if tokens.len() > 0 {
        assert forall|i: int| 0 <= i < tokens.drop_last().len() implies is_token(
            #[trigger] tokens.drop_last()[i],
        ) by {
            assert(tokens.drop_last()[i] == tokens[i]);
        }
        lemma_trimmed_tokens(tokens.drop_last());
        assert(is_token(tokens[tokens.len() - 1]));
        assert(tokens.drop_last().push(tokens.last()) =~= tokens);
    } else {
        assert(trimmed(tokens) =~= tokens);
    }
}

/// Every token of a filter string is one: not empty, trimmed and free of commas.
pub proof fn lemma_tokens(s: Seq<char>)
    ensures
        forall|i: int| 0 <= i < tokens_of(s).len() ==> is_token(#[trigger] tokens_of(s)[i]),
{
    text::lemma_split_parts(s, ',');
    lemma_trimmed_parts(text::split_of(s, ','));
}

/// A payload behind a prefix is the payload of the token.
proof fn lemma_principal_of(prefix: Seq<char>, payload: Seq<char>)
    requires
        prefix == "u:"@ || prefix == "t:"@,
    ensures
        principal(prefix + payload) == Some((prefix, payload)),
{
    reveal_strlit("u:");
    reveal_strlit("t:");
    assert((prefix + payload).take(2) =~= prefix);
    assert((prefix + payload).skip(2) =~= payload);
    assert("u:"@[0] == 'u' && "t:"@[0] == 't');
    assert((prefix + payload)[0] == prefix[0]);
    if prefix == "t:"@ {
        assert(!"u:"@.is_prefix_of(prefix + payload));
    }
}

/// A token is its prefix and its payload.
proof fn lemma_principal_parts(t: Seq<char>)
    requires
        principal(t) is Some,
    ensures
        prefix_of(t) + payload_of(t) == t,
        prefix_of(t) == "u:"@ || prefix_of(t) == "t:"@,
{
    reveal_strlit("u:");
    reveal_strlit("t:");
    let (prefix, payload) = principal(t)->0;
    assert(prefix.is_prefix_of(t));
    assert(prefix + payload =~= t);
}

/// A prefix and a payload make a token.
proof fn lemma_payload_token(prefix: Seq<char>, payload: Seq<char>)
    requires
        prefix == "u:"@ || prefix == "t:"@,
        is_payload(payload),
    ensures
        is_token(prefix + payload),
{
    reveal_strlit("u:");
    reveal_strlit("t:");
    let t = prefix + payload;
    assert(t[0] == 'u' || t[0] == 't');
    assert(t.last() == payload[21]);
    assert(codec::is_url_char(payload[21]));
    assert(!text::is_white(t[0]) && !text::is_white(t.last()));
    assert forall|i: int| 0 <= i < t.len() implies t[i] != ',' by {
        if i >= 2 {
            assert(t[i] == payload[i - 2]);
            assert(codec::is_url_char(payload[i - 2]));
        }
    }
}

/// What a rewrite makes of tokens are tokens.
proof fn lemma_mapped_are_tokens(tokens: Seq<Seq<char>>, map: Map<Seq<char>, String>)
    requires
        forall|i: int| 0 <= i < tokens.len() ==> is_token(#[trigger] tokens[i]),
        forall|i: int|
            0 <= i < tokens.len() && principal(#[trigger] tokens[i]) is Some ==> can_undo(
                payload_of(tokens[i]),
                map,
            ),
    ensures
        forall|i: int|
            0 <= i < tokens.len() ==> is_token(#[trigger] mapped_tokens(tokens, map)[i]),
{
    assert forall|i: int| 0 <= i < tokens.len() implies is_token(
        #[trigger] mapped_tokens(tokens, map)[i],
    ) by {
        let t = tokens[i];
        assert(is_token(t));
        if let Some((prefix, payload)) = principal(t) {
            lemma_principal_parts(t);
            assert(can_undo(payload, map));
            if remapped(prefix, payload, map) is Some {
                lemma_payload_token(prefix, uuid_token(map[token_uuid(payload)->0]@)->0);
            }
        }
    }
}

/// A rewrite through a map of UUIDs is undone by one through the reversed map, where
/// the payloads can be got back.
pub proof fn lemma_rewrite_undone(
    tokens: Seq<Seq<char>>,
    map: Map<Seq<char>, String>,
    inv: Map<Seq<char>, String>,
)
    requires
        forall|i: int|
            0 <= i < tokens.len() && principal(#[trigger] tokens[i]) is Some ==> can_undo(
                payload_of(tokens[i]),
                map,
            ),
        is_undone(tokens, map, inv),
    ensures
        mapped_tokens(mapped_tokens(tokens, map), inv) == tokens,
        mapped_tokens(tokens, Map::empty()) == tokens,
{
    assert forall|i: int| 0 <= i < tokens.len() implies mapped_token(
        mapped_token(#[trigger] tokens[i], map),
        inv,
    ) == tokens[i] && mapped_token(tokens[i], Map::empty()) == tokens[i] by {
        let t = tokens[i];
        if let Some((prefix, payload)) = principal(t) {
            lemma_principal_parts(t);
            assert(can_undo(payload, map));
            if let Some(old) = token_uuid(payload) {
                if map.contains_key(old) {
                    let new = uuid_token(map[old]@)->0;
                    lemma_principal_of(prefix, new);
                    assert(inv.contains_key(map[old]@));
                } else if inv.contains_key(old) {
                    assert(map.contains_key(inv[old]@));
                    assert(token_uuid(payload_of(tokens[i])) != Some(map[inv[old]@]@));
                }
            }
        }
    }
    assert(mapped_tokens(mapped_tokens(tokens, map), inv) =~= tokens);
    assert(mapped_tokens(tokens, Map::empty()) =~= tokens);
}

/// The filter string of some tokens reads back as these tokens.
pub proof fn lemma_filter_round_trip(tokens: Seq<Seq<char>>)
    requires
        tokens.len() > 0,
        forall|i: int| 0 <= i < tokens.len() ==> is_token(#[trigger] tokens[i]),
    ensures
        filter_of(tokens) is Some,
        tokens_of(filter_of(tokens)->0) == tokens,
{
    reveal_strlit(",");
    assert(","@ =~= seq![',']);
    assert forall|i: int| 0 <= i < tokens.len() implies !(#[trigger] tokens[i]).contains(',') by {
        assert(is_token(tokens[i]));
    }
    text::lemma_split_join(tokens, ',');
    lemma_trimmed_tokens(tokens);
}

} // verus!
