//! What holds of the filters of saved views.

use vstd::prelude::*;

use crate::filter_token::{
    self, import_token, import_tokens, mapped_token, principal, token_uuid, uuid_token,
};
use crate::template::config;
use crate::text;

verus! {

proof fn lemma_prefixes(rest: Seq<char>)
    ensures
        principal("u:"@ + rest) == Some(("u:"@, rest)),
        principal("t:"@ + rest) == Some(("t:"@, rest)),
        "u:"@ != "t:"@,
{
    reveal_strlit("u:");
    reveal_strlit("t:");
    let (a, b) = ("u:"@ + rest, "t:"@ + rest);
    assert(a.subrange(0, 2) =~= "u:"@);
    assert(b.subrange(0, 2) =~= "t:"@);
    assert(a.skip(2) =~= rest);
    assert(b.skip(2) =~= rest);
    assert("u:"@[0] == 'u' && "t:"@[0] == 't');
    assert(b.subrange(0, 2)[0] == 't');
}

/// A filter for a user that is mapped becomes the filter for whom they are mapped to, and
/// so does one for a team, through the map of teams; one for anybody else is dropped. Any
/// filter that names neither stays as it is.
pub proof fn lemma_import_one(
    payload: Seq<char>,
    other: Seq<char>,
    users: Map<Seq<char>, String>,
    teams: Map<Seq<char>, String>,
)
    requires
        !"u:"@.is_prefix_of(other),
        !"t:"@.is_prefix_of(other),
    ensures
        import_token("u:"@ + payload, users, teams) == (match token_uuid(payload) {
            Some(id) => if users.contains_key(id) && uuid_token(users[id]@) is Some {
                Some("u:"@ + uuid_token(users[id]@)->0)
            } else {
                None
            },
            None => None,
        }),
        import_token("t:"@ + payload, users, teams) == (match token_uuid(payload) {
            Some(id) => if teams.contains_key(id) && uuid_token(teams[id]@) is Some {
                Some("t:"@ + uuid_token(teams[id]@)->0)
            } else {
                None
            },
            None => None,
        }),
        import_token(other, users, teams) == Some(other),
{
    lemma_prefixes(payload);
}

/// Tokens are imported one after the other: those that are kept stay in order, and every
/// one that is dropped is counted.
pub proof fn lemma_import_in_order(
    tokens: Seq<Seq<char>>,
    t: Seq<char>,
    users: Map<Seq<char>, String>,
    teams: Map<Seq<char>, String>,
)
    ensures
        import_tokens(Seq::empty(), users, teams) == Seq::<Seq<char>>::empty(),
        import_tokens(tokens.push(t), users, teams) == (match import_token(t, users, teams) {
            Some(x) => import_tokens(tokens, users, teams).push(x),
            None => import_tokens(tokens, users, teams),
        }),
{
    assert(tokens.push(t).drop_last() =~= tokens);
}

/// A rewrite through a map of users and teams changes the filters of those that are mapped
/// and leaves all others as they are.
pub proof fn lemma_mapped_one(payload: Seq<char>, other: Seq<char>, map: Map<Seq<char>, String>)
    requires
        !"u:"@.is_prefix_of(other),
        !"t:"@.is_prefix_of(other),
    ensures
        ({
            let id = token_uuid(payload);
            let on = id is Some && map.contains_key(id->0) && uuid_token(map[id->0]@) is Some;
            let new = uuid_token(map[id->0]@)->0;
            &&& on ==> mapped_token("u:"@ + payload, map) == "u:"@ + new
            &&& on ==> mapped_token("t:"@ + payload, map) == "t:"@ + new
            &&& !on ==> mapped_token("u:"@ + payload, map) == "u:"@ + payload
            &&& !on ==> mapped_token("t:"@ + payload, map) == "t:"@ + payload
            &&& mapped_token(other, map) == other
        }),
{
    lemma_prefixes(payload);
}

/// The filters that apply to a new space are all but those for cycles, users and teams, in
/// order.
pub proof fn lemma_clean_kept(tokens: Seq<Seq<char>>)
    ensures
        config::clean_tokens(tokens) == tokens.filter(
            |t: Seq<char>|
                !"cy:"@.is_prefix_of(t) && !"u:"@.is_prefix_of(t) && !"t:"@.is_prefix_of(t),
        ),
    decreases tokens.len(),
{
    reveal(Seq::filter);
    if tokens.len() > 0 {
        lemma_clean_kept(tokens.drop_last());
    }
}

/// The tokens of a text are what stands between its commas, without white space around it
/// and without the empty ones.
pub proof fn lemma_tokens_kept(s: Seq<char>)
    ensures
        filter_token::tokens_of(s) == text::split_of(s, ',').map_values(
            |p: Seq<char>| text::trim_of(p),
        ).filter(|t: Seq<char>| t.len() > 0),
{
    lemma_trimmed(text::split_of(s, ','));
}

proof fn lemma_trimmed(parts: Seq<Seq<char>>)
    ensures
        filter_token::trimmed(parts) == parts.map_values(
            |p: Seq<char>| text::trim_of(p),
        ).filter(|t: Seq<char>| t.len() > 0),
    decreases parts.len(),
{
    reveal(Seq::filter);
    let f = |p: Seq<char>| text::trim_of(p);
    if parts.len() > 0 {
        lemma_trimmed(parts.drop_last());
        assert(parts.map_values(f).drop_last() =~= parts.drop_last().map_values(f));
    }
}

} // verus!
