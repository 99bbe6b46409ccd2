//! The configuration of a space: labels, cycles and saved views.

use vstd::prelude::*;
use yrs::In;

use crate::filter_token;
use crate::str_map::StrMap;
use crate::template::types::{
    TemplateCycleConfig, TemplateLabelDef, TemplateLabelValue, TemplateLabels, TemplateViewDef,
    TemplateViews,
};
use crate::text;
use crate::ydoc::{self, YTree};

verus! {

// ---------------------------------------------------------------------------
// Entries of a map
// ---------------------------------------------------------------------------

/// The entries with `key` set, if there is a value.
pub open spec fn with_opt(m: Map<Seq<char>, YTree>, key: Seq<char>, v: Option<Seq<char>>) -> Map<
    Seq<char>,
    YTree,
> {
    match v {
        Some(s) => m.insert(key, ydoc::ystr(s)),
        None => m,
    }
}

/// The entries with `key` set to true, if it is.
pub open spec fn with_flag(m: Map<Seq<char>, YTree>, key: Seq<char>, on: bool) -> Map<
    Seq<char>,
    YTree,
> {
    if on {
        m.insert(key, ydoc::ybool(true))
    } else {
        m
    }
}

/// Sets `key`.
pub(crate) fn put(e: &mut Vec<(String, In)>, key: &str, value: In)
    ensures
        ydoc::entries_tree(final(e)@) == ydoc::entries_tree(old(e)@).insert(
            key@,
            ydoc::in_tree(value),
        ),
{
    let ghost before = e@;
    e.push((key.to_owned(), value));
    assert(e@.drop_last() =~= before);
}

/// Sets `key` to a string.
pub(crate) fn put_str(e: &mut Vec<(String, In)>, key: &str, value: &str)
    ensures
        ydoc::entries_tree(final(e)@) == ydoc::entries_tree(old(e)@).insert(
            key@,
            ydoc::ystr(value@),
        ),
{
    put(e, key, ydoc::in_str(value));
}

/// Sets `key` to a string, if there is one.
pub(crate) fn put_opt(e: &mut Vec<(String, In)>, key: &str, value: &Option<String>)
    ensures
        ydoc::entries_tree(final(e)@) == with_opt(
            ydoc::entries_tree(old(e)@),
            key@,
            text::opt_text(*value),
        ),
{
    if let Some(s) = value {
        put_str(e, key, s.as_str());
    }
}

/// Sets `key` to true, if it is.
pub(crate) fn put_flag(e: &mut Vec<(String, In)>, key: &str, on: bool)
    ensures
        ydoc::entries_tree(final(e)@) == with_flag(ydoc::entries_tree(old(e)@), key@, on),
{
    if on {
        put(e, key, ydoc::in_bool(true));
    }
}

/// The strings as an array to insert.
pub(crate) fn strs_in(v: &Vec<String>) -> (r: In)
    ensures
        ydoc::in_tree(r) == ydoc::ystrs(text::texts(v@)),
{
    let mut out: Vec<In> = Vec::new();
    let mut i: usize = 0;
    while i < v.len()
        invariant
            i <= v@.len(),
            out@.len() == i,
            forall|k: int| 0 <= k < i ==> ydoc::in_tree(#[trigger] out@[k]) == ydoc::ystr(v@[k]@),
        decreases v@.len() - i,
    {
        out.push(ydoc::in_str(v[i].as_str()));
        i = i + 1;
    }
    assert(ydoc::ins_tree(out@) =~= ydoc::ystrs(text::texts(v@))->List_0);
    ydoc::in_list(out)
}

/// A map of strings as a tree.
pub open spec fn str_map_tree(m: Map<Seq<char>, String>) -> YTree {
    YTree::Dict(m.map_values(|v: String| ydoc::ystr(v@)))
}

/// A map of strings to insert.
pub(crate) fn str_map_in(m: &StrMap<String>) -> (r: In)
    ensures
        ydoc::in_tree(r) == str_map_tree(m@),
{
    let entries = m.entries();
    let ghost all = entries@;
    let mut out: Vec<(String, In)> = Vec::new();
    let mut i: usize = 0;
    while i < entries.len()
        invariant
            i <= entries@.len(),
            all == entries@,
            forall|k: Seq<char>| #[trigger]
                ydoc::entries_tree(out@).contains_key(k) <==> crate::str_map::has_key(
                    all.take(i as int),
                    k,
                ),
            forall|k: int|
                0 <= k < i ==> ydoc::entries_tree(out@)[(#[trigger] all[k]).0@] == ydoc::ystr(
                    all[k].1@,
                ),
            crate::str_map::unique_keys(all),
        decreases entries@.len() - i,
    {
        let ghost before = ydoc::entries_tree(out@);
        put_str(&mut out, entries[i].0.as_str(), entries[i].1.as_str());
        proof {
            let now = ydoc::entries_tree(out@);
            let seen = all.take(i + 1);
            assert forall|k: Seq<char>| #[trigger] now.contains_key(k)
                <==> crate::str_map::has_key(seen, k) by {
                if crate::str_map::has_key(seen, k) {
                    let j = choose|j: int| crate::str_map::key_at(seen, k, j);
                    if j < i {
                        assert(crate::str_map::key_at(all.take(i as int), k, j));
                    }
                }
                if k == all[i as int].0@ {
                    assert(crate::str_map::key_at(seen, k, i as int));
                }
                if before.contains_key(k) {
                    let j = choose|j: int| crate::str_map::key_at(all.take(i as int), k, j);
                    assert(crate::str_map::key_at(seen, k, j));
                }
            }
            assert forall|k: int| 0 <= k < i + 1 implies now[(#[trigger] all[k]).0@] == ydoc::ystr(
                all[k].1@,
            ) by {
                if k < i {
                    assert(all[k].0@ != all[i as int].0@);
                }
            }
        }
        i = i + 1;
    }
    proof {
        assert(all.take(all.len() as int) =~= all);
        let now = ydoc::entries_tree(out@);
        let want = m@.map_values(|v: String| ydoc::ystr(v@));
        assert forall|k: Seq<char>| now.contains_key(k) implies now[k] == want[k] by {
            let j = choose|j: int| crate::str_map::key_at(all, k, j);
            assert(m@[all[j].0@] == all[j].1);
        }
        assert(now =~= want);
    }
    ydoc::in_dict(out)
}

// ---------------------------------------------------------------------------
// Labels
// ---------------------------------------------------------------------------

/// Who is named as the one who deprecated something: the user as it is, or where
/// users are mapped, the user it is mapped to.
pub open spec fn deprecator(by: Option<String>, users: Option<Map<Seq<char>, String>>) -> Option<
    Seq<char>,
> {
    match (by, users) {
        (None, _) => None,
        (Some(s), None) => Some(s@),
        (Some(s), Some(m)) => if m.contains_key(s@) {
            Some(m[s@]@)
        } else {
            None
        },
    }
}

/// The view of an optional map.
pub open spec fn opt_map(o: Option<&StrMap<String>>) -> Option<Map<Seq<char>, String>> {
    match o {
        Some(m) => Some(m@),
        None => None,
    }
}

/// The entries with the deprecation state, if there is one.
pub open spec fn with_deprecation(
    m: Map<Seq<char>, YTree>,
    deprecated: bool,
    at: Option<Seq<char>>,
    by: Option<Seq<char>>,
) -> Map<Seq<char>, YTree> {
    if deprecated {
        with_opt(
            with_opt(m.insert("deprecated"@, ydoc::ybool(true)), "deprecated_at"@, at),
            "deprecated_by"@,
            by,
        )
    } else {
        m
    }
}

/// A label value.
pub open spec fn label_value_tree(
    v: TemplateLabelValue,
    users: Option<Map<Seq<char>, String>>,
) -> YTree {
    let m = Map::empty().insert("id"@, ydoc::ystr(v.id@)).insert("name"@, ydoc::ystr(v.name@)).insert(
        "color"@,
        ydoc::ystr(v.color@),
    );
    let m = with_flag(m, "is_completion_state"@, v.is_completion_state);
    let m = with_opt(m, "completion_prompt"@, text::opt_text(v.completion_prompt));
    YTree::Dict(
        with_deprecation(
            m,
            v.deprecated,
            text::opt_text(v.deprecated_at),
            deprecator(v.deprecated_by, users),
        ),
    )
}

/// The values of a label that stand in its order, by id.
pub open spec fn label_values(
    order: Seq<String>,
    defs: Map<Seq<char>, TemplateLabelValue>,
    users: Option<Map<Seq<char>, String>>,
) -> Map<Seq<char>, YTree>
    decreases order.len(),
{
    if order.len() == 0 {
        Map::empty()
    } else {
        let rest = label_values(order.drop_last(), defs, users);
        let k = order.last()@;
        if defs.contains_key(k) {
            rest.insert(defs[k].id@, label_value_tree(defs[k], users))
        } else {
            rest
        }
    }
}

/// The ids of the values that stand in the order.
pub open spec fn label_value_ids(
    order: Seq<String>,
    defs: Map<Seq<char>, TemplateLabelValue>,
) -> Seq<YTree>
    decreases order.len(),
{
    if order.len() == 0 {
        seq![]
    } else {
        let rest = label_value_ids(order.drop_last(), defs);
        let k = order.last()@;
        if defs.contains_key(k) {
            rest.push(ydoc::ystr(defs[k].id@))
        } else {
            rest
        }
    }
}

/// A label with its values.
pub open spec fn label_tree(d: TemplateLabelDef, users: Option<Map<Seq<char>, String>>) -> YTree {
    let m = Map::empty().insert("id"@, ydoc::ystr(d.id@)).insert("name"@, ydoc::ystr(d.name@)).insert(
        "description"@,
        ydoc::ystr(d.description@),
    ).insert("icon"@, ydoc::ystr(d.icon@)).insert(
        "values"@,
        YTree::Dict(label_values(d.values_order@, d.values@, users)),
    ).insert("values_order"@, YTree::List(label_value_ids(d.values_order@, d.values@)));
    YTree::Dict(
        with_deprecation(
            m,
            d.deprecated,
            text::opt_text(d.deprecated_at),
            deprecator(d.deprecated_by, users),
        ),
    )
}

/// The labels that stand in the order, by id.
pub open spec fn label_trees(
    order: Seq<String>,
    defs: Map<Seq<char>, TemplateLabelDef>,
    users: Option<Map<Seq<char>, String>>,
) -> Map<Seq<char>, YTree>
    decreases order.len(),
{
    if order.len() == 0 {
        Map::empty()
    } else {
        let rest = label_trees(order.drop_last(), defs, users);
        let k = order.last()@;
        if defs.contains_key(k) {
            rest.insert(defs[k].id@, label_tree(defs[k], users))
        } else {
            rest
        }
    }
}

/// Every label that stands in the order is in the space under its own id.
pub proof fn lemma_label_ids_kept(
    order: Seq<String>,
    defs: Map<Seq<char>, TemplateLabelDef>,
    users: Option<Map<Seq<char>, String>>,
    i: int,
)
    requires
        0 <= i < order.len(),
        defs.contains_key(order[i]@),
    ensures
        label_trees(order, defs, users).contains_key(defs[order[i]@].id@),
    decreases order.len(),
{
    if i < order.len() - 1 {
        lemma_label_ids_kept(order.drop_last(), defs, users, i);
    }
}

/// The ids of the labels that stand in the order.
pub open spec fn label_ids(order: Seq<String>, defs: Map<Seq<char>, TemplateLabelDef>) -> Seq<YTree>
    decreases order.len(),
{
    if order.len() == 0 {
        seq![]
    } else {
        let rest = label_ids(order.drop_last(), defs);
        let k = order.last()@;
        if defs.contains_key(k) {
            rest.push(ydoc::ystr(defs[k].id@))
        } else {
            rest
        }
    }
}

/// The configuration with the labels.
pub open spec fn with_labels(
    config: Map<Seq<char>, YTree>,
    labels: TemplateLabels,
    users: Option<Map<Seq<char>, String>>,
) -> Map<Seq<char>, YTree> {
    with_opt(
        config.insert(
            "labels"@,
            YTree::Dict(label_trees(labels.order@, labels.definitions@, users)),
        ).insert("labels_order"@, YTree::List(label_ids(labels.order@, labels.definitions@))),
        "primary_label_id"@,
        text::opt_text(labels.primary_label_id),
    )
}

fn mapped_deprecator(by: &Option<String>, users: Option<&StrMap<String>>) -> (r: Option<String>)
    ensures
        text::opt_text(r) == deprecator(*by, opt_map(users)),
{
    match by {
        None => None,
        Some(s) => match users {
            None => Some(s.clone()),
            Some(m) => match m.get(s.as_str()) {
                Some(new) => Some(new.clone()),
                None => None,
            },
        },
    }
}

fn write_deprecation(
    e: &mut Vec<(String, In)>,
    deprecated: bool,
    at: &Option<String>,
    by: &Option<String>,
)
    ensures
        ydoc::entries_tree(final(e)@) == with_deprecation(
            ydoc::entries_tree(old(e)@),
            deprecated,
            text::opt_text(*at),
            text::opt_text(*by),
        ),
{
    if deprecated {
        put(e, "deprecated", ydoc::in_bool(true));
        put_opt(e, "deprecated_at", at);
        put_opt(e, "deprecated_by", by);
    }
}

fn label_value_in(v: &TemplateLabelValue, users: Option<&StrMap<String>>) -> (r: In)
    ensures
        ydoc::in_tree(r) == label_value_tree(*v, opt_map(users)),
{
    let mut e: Vec<(String, In)> = Vec::new();
    put_str(&mut e, "id", v.id.as_str());
    put_str(&mut e, "name", v.name.as_str());
    put_str(&mut e, "color", v.color.as_str());
    put_flag(&mut e, "is_completion_state", v.is_completion_state);
    put_opt(&mut e, "completion_prompt", &v.completion_prompt);
    let by = mapped_deprecator(&v.deprecated_by, users);
    write_deprecation(&mut e, v.deprecated, &v.deprecated_at, &by);
    ydoc::in_dict(e)
}

fn label_in(d: &TemplateLabelDef, users: Option<&StrMap<String>>) -> (r: In)
    ensures
        ydoc::in_tree(r) == label_tree(*d, opt_map(users)),
{
    let ghost order = d.values_order@;
    let mut values: Vec<(String, In)> = Vec::new();
    let mut ids: Vec<In> = Vec::new();
    let mut i: usize = 0;
    assert(order.take(0) =~= seq![]);
    assert(ydoc::ins_tree(ids@) =~= seq![]);
    while i < d.values_order.len()
        invariant
            i <= order.len(),
            order == d.values_order@,
            ydoc::entries_tree(values@) == label_values(
                order.take(i as int),
                d.values@,
                opt_map(users),
            ),
            ydoc::ins_tree(ids@) == label_value_ids(order.take(i as int), d.values@),
        decreases order.len() - i,
    {
        let ghost before = ids@;
        assert(order.take(i + 1).drop_last() =~= order.take(i as int));
        if let Some(v) = d.values.get(d.values_order[i].as_str()) {
            put(&mut values, v.id.as_str(), label_value_in(v, users));
            ids.push(ydoc::in_str(v.id.as_str()));
            assert(ydoc::ins_tree(ids@) =~= ydoc::ins_tree(before).push(ydoc::ystr(v.id@)));
        }
        i = i + 1;
    }
    assert(order.take(order.len() as int) =~= order);
    let mut e: Vec<(String, In)> = Vec::new();
    put_str(&mut e, "id", d.id.as_str());
    put_str(&mut e, "name", d.name.as_str());
    put_str(&mut e, "description", d.description.as_str());
    put_str(&mut e, "icon", d.icon.as_str());
    put(&mut e, "values", ydoc::in_dict(values));
    put(&mut e, "values_order", ydoc::in_list(ids));
    let by = mapped_deprecator(&d.deprecated_by, users);
    write_deprecation(&mut e, d.deprecated, &d.deprecated_at, &by);
    ydoc::in_dict(e)
}

/// Adds the labels to a configuration: those that stand in the order and have a
/// definition. Where `users` are given, the users named as deprecators are mapped
/// through them, and one that is not there is left out.
pub(crate) fn build_labels(
    config: &mut Vec<(String, In)>,
    labels: &TemplateLabels,
    users: Option<&StrMap<String>>,
)
    ensures
        ydoc::entries_tree(final(config)@) == with_labels(
            ydoc::entries_tree(old(config)@),
            *labels,
            opt_map(users),
        ),
{
    let ghost order = labels.order@;
    let mut defs: Vec<(String, In)> = Vec::new();
    let mut ids: Vec<In> = Vec::new();
    let mut i: usize = 0;
    assert(order.take(0) =~= seq![]);
    assert(ydoc::ins_tree(ids@) =~= seq![]);
    while i < labels.order.len()
        invariant
            i <= order.len(),
            order == labels.order@,
            ydoc::entries_tree(defs@) == label_trees(
                order.take(i as int),
                labels.definitions@,
                opt_map(users),
            ),
            ydoc::ins_tree(ids@) == label_ids(order.take(i as int), labels.definitions@),
        decreases order.len() - i,
    {
        let ghost before = ids@;
        assert(order.take(i + 1).drop_last() =~= order.take(i as int));
        if let Some(d) = labels.definitions.get(labels.order[i].as_str()) {
            put(&mut defs, d.id.as_str(), label_in(d, users));
            ids.push(ydoc::in_str(d.id.as_str()));
            assert(ydoc::ins_tree(ids@) =~= ydoc::ins_tree(before).push(ydoc::ystr(d.id@)));
        }
        i = i + 1;
    }
    assert(order.take(order.len() as int) =~= order);
    put(config, "labels", ydoc::in_dict(defs));
    put(config, "labels_order", ydoc::in_list(ids));
    put_opt(config, "primary_label_id", &labels.primary_label_id);
}

// ---------------------------------------------------------------------------
// Cycles
// ---------------------------------------------------------------------------

/// A cycle configuration, with the number of the next cycle.
pub open spec fn cycle_config_tree(c: TemplateCycleConfig, next: int) -> YTree {
    YTree::Dict(
        Map::empty().insert("enabled"@, ydoc::ybool(c.enabled)).insert(
            "pattern"@,
            ydoc::ystr(c.pattern@),
        ).insert("start_day"@, ydoc::ystr(c.start_day@)).insert(
            "prefix"@,
            ydoc::ystr(c.prefix@),
        ).insert("generate_ahead"@, ydoc::ynumber(c.generate_ahead as int)).insert(
            "retain_past"@,
            ydoc::ynumber(c.retain_past as int),
        ).insert("next_number"@, ydoc::ynumber(next)),
    )
}

/// The configuration with the cycle configuration, if there is one.
pub open spec fn with_cycle_config(
    config: Map<Seq<char>, YTree>,
    cc: Option<TemplateCycleConfig>,
    next: int,
) -> Map<Seq<char>, YTree> {
    match cc {
        Some(c) => config.insert("cycle_config"@, cycle_config_tree(c, next)),
        None => config,
    }
}

/// Adds the cycle configuration, with the number of the next cycle.
pub(crate) fn build_cycle_config(
    config: &mut Vec<(String, In)>,
    cycle_config: &Option<TemplateCycleConfig>,
    next_number: i64,
)
    ensures
        ydoc::entries_tree(final(config)@) == with_cycle_config(
            ydoc::entries_tree(old(config)@),
            *cycle_config,
            next_number as int,
        ),
{
    if let Some(c) = cycle_config {
        let mut e: Vec<(String, In)> = Vec::new();
        put(&mut e, "enabled", ydoc::in_bool(c.enabled));
        put_str(&mut e, "pattern", c.pattern.as_str());
        put_str(&mut e, "start_day", c.start_day.as_str());
        put_str(&mut e, "prefix", c.prefix.as_str());
        put(&mut e, "generate_ahead", ydoc::in_number(c.generate_ahead));
        put(&mut e, "retain_past", ydoc::in_number(c.retain_past));
        put(&mut e, "next_number", ydoc::in_number(next_number));
        put(config, "cycle_config", ydoc::in_dict(e));
    }
}

// ---------------------------------------------------------------------------
// Views
// ---------------------------------------------------------------------------

/// Whether a filter token applies to a new space: none for cycles, users or teams
/// does.
pub open spec fn applies(token: Seq<char>) -> bool {
    !"cy:"@.is_prefix_of(token) && !"u:"@.is_prefix_of(token) && !"t:"@.is_prefix_of(token)
}

/// The tokens that apply to a new space.
pub open spec fn clean_tokens(tokens: Seq<Seq<char>>) -> Seq<Seq<char>>
    decreases tokens.len(),
{
    if tokens.len() == 0 {
        seq![]
    } else if applies(tokens.last()) {
        clean_tokens(tokens.drop_last()).push(tokens.last())
    } else {
        clean_tokens(tokens.drop_last())
    }
}

/// The filters that apply to a new space.
pub open spec fn cleaned(s: Seq<char>) -> Option<Seq<char>> {
    filter_token::filter_of(clean_tokens(filter_token::tokens_of(s)))
}

/// Removes the filters that do not apply to a new space: those for cycles (`cy:`),
/// users (`u:`) and teams (`t:`). All others stay as they are.
pub fn clean_filters(filter_str: &str) -> (r: Option<String>)
    ensures
        text::opt_text(r) == cleaned(filter_str@),
{
    let chars = text::to_chars(filter_str);
    let tokens = filter_token::split_tokens(chars.as_slice());
    let ghost all = text::slices(tokens@);
    let mut kept: Vec<&[char]> = Vec::new();
    let mut i: usize = 0;
    assert(all.take(0) =~= seq![]);
    assert(text::slices(kept@) =~= seq![]);
    while i < tokens.len()
        invariant
            i <= tokens@.len(),
            all == text::slices(tokens@),
            text::slices(kept@) == clean_tokens(all.take(i as int)),
        decreases tokens@.len() - i,
    {
        let ghost before = kept@;
        assert(all.take(i + 1).drop_last() =~= all.take(i as int));
        let t = tokens[i];
        if !text::starts_with(t, "cy:") && !text::starts_with(t, "u:") && !text::starts_with(
            t,
            "t:",
        ) {
            kept.push(t);
            assert(text::slices(kept@) =~= text::slices(before).push(t@));
        }
        i = i + 1;
    }
    assert(all.take(all.len() as int) =~= all);
    assert(text::slices(kept@).len() == kept@.len());
    if kept.len() == 0 {
        None
    } else {
        Some(text::join_slices(&kept, ","))
    }
}

/// What is left of some tokens are those of them that apply, and cleaning these
/// again changes nothing.
proof fn lemma_clean_tokens(tokens: Seq<Seq<char>>)
    ensures
        clean_tokens(clean_tokens(tokens)) == clean_tokens(tokens),
        forall|i: int|
            0 <= i < clean_tokens(tokens).len() ==> applies(#[trigger] clean_tokens(tokens)[i])
                && tokens.contains(clean_tokens(tokens)[i]),
    decreases tokens.len(),
{
    if tokens.len() > 0 {
        let before = tokens.drop_last();
        lemma_clean_tokens(before);
        if applies(tokens.last()) {
            assert(clean_tokens(tokens).drop_last() =~= clean_tokens(before));
        }
        assert forall|i: int| 0 <= i < clean_tokens(tokens).len() implies applies(
            #[trigger] clean_tokens(tokens)[i],
        ) && tokens.contains(clean_tokens(tokens)[i]) by {
            if i < clean_tokens(before).len() {
                let t = clean_tokens(before)[i];
                let k = choose|k: int| 0 <= k < before.len() && before[k] == t;
                assert(tokens[k] == t);
            } else {
                assert(tokens[tokens.len() - 1] == tokens.last());
            }
        }
    }
}

/// What is left of the filters of a view all applies to a new space, and cleaning
/// it again changes nothing.
pub proof fn lemma_cleaned(s: Seq<char>)
    requires
        cleaned(s) is Some,
    ensures
        cleaned(cleaned(s)->0) == cleaned(s),
        forall|i: int|
            0 <= i < filter_token::tokens_of(cleaned(s)->0).len() ==> applies(
                #[trigger] filter_token::tokens_of(cleaned(s)->0)[i],
            ),
{
    let tokens = filter_token::tokens_of(s);
    let left = clean_tokens(tokens);
    filter_token::lemma_tokens(s);
    lemma_clean_tokens(tokens);
    assert forall|i: int| 0 <= i < left.len() implies filter_token::is_token(#[trigger] left[i]) by {
        let k = choose|k: int| 0 <= k < tokens.len() && tokens[k] == left[i];
        assert(filter_token::is_token(tokens[k]));
    }
    filter_token::lemma_filter_round_trip(left);
}

/// What happens to the filters of a view.
pub enum FilterPolicy<'a> {
    /// Filters that do not apply to a new space are removed.
    Clean,
    /// Users and teams are mapped, and filters for others of them are removed.
    Remap { users: &'a StrMap<String>, teams: &'a StrMap<String> },
}

/// The filters of a view under a policy.
pub open spec fn policy_filters(p: FilterPolicy<'_>, s: Seq<char>) -> Option<Seq<char>> {
    match p {
        FilterPolicy::Clean => cleaned(s),
        FilterPolicy::Remap { users, teams } => filter_token::import_filters(s, users@, teams@),
    }
}

/// A saved view.
pub open spec fn view_tree(v: TemplateViewDef, p: FilterPolicy<'_>) -> YTree {
    let m = Map::empty().insert("id"@, ydoc::ystr(v.id@)).insert("name"@, ydoc::ystr(v.name@)).insert(
        "content_type"@,
        ydoc::ystr(v.content_type@),
    ).insert("view_type"@, ydoc::ystr(v.view_type@));
    let m = with_opt(m, "column_grouping"@, text::opt_text(v.column_grouping));
    let m = with_opt(m, "row_grouping"@, text::opt_text(v.row_grouping));
    let m = m.insert("sort_order"@, ydoc::ystr(v.sort_order@)).insert(
        "show_archived"@,
        ydoc::ybool(v.show_archived),
    );
    let m = with_opt(
        m,
        "filters"@,
        match v.filters {
            Some(s) => policy_filters(p, s@),
            None => None,
        },
    );
    YTree::Dict(with_opt(m, "zoom_level"@, text::opt_text(v.zoom_level)))
}

/// The views that stand in the order, by id.
pub open spec fn view_trees(
    order: Seq<String>,
    defs: Map<Seq<char>, TemplateViewDef>,
    p: FilterPolicy<'_>,
) -> Map<Seq<char>, YTree>
    decreases order.len(),
{
    if order.len() == 0 {
        Map::empty()
    } else {
        let rest = view_trees(order.drop_last(), defs, p);
        let k = order.last()@;
        if defs.contains_key(k) {
            rest.insert(defs[k].id@, view_tree(defs[k], p))
        } else {
            rest
        }
    }
}

/// Every view that stands in the order is in the space under its own id.
pub proof fn lemma_view_ids_kept(
    order: Seq<String>,
    defs: Map<Seq<char>, TemplateViewDef>,
    p: FilterPolicy<'_>,
    i: int,
)
    requires
        0 <= i < order.len(),
        defs.contains_key(order[i]@),
    ensures
        view_trees(order, defs, p).contains_key(defs[order[i]@].id@),
    decreases order.len(),
{
    if i < order.len() - 1 {
        lemma_view_ids_kept(order.drop_last(), defs, p, i);
    }
}

/// The ids of the views that stand in the order.
pub open spec fn view_ids(order: Seq<String>, defs: Map<Seq<char>, TemplateViewDef>) -> Seq<YTree>
    decreases order.len(),
{
    if order.len() == 0 {
        seq![]
    } else {
        let rest = view_ids(order.drop_last(), defs);
        let k = order.last()@;
        if defs.contains_key(k) {
            rest.push(ydoc::ystr(defs[k].id@))
        } else {
            rest
        }
    }
}

/// The configuration with the saved views.
pub open spec fn with_views(
    config: Map<Seq<char>, YTree>,
    views: TemplateViews,
    p: FilterPolicy<'_>,
) -> Map<Seq<char>, YTree> {
    config.insert(
        "shared_views"@,
        YTree::Dict(view_trees(views.order@, views.definitions@, p)),
    ).insert("shared_views_order"@, YTree::List(view_ids(views.order@, views.definitions@)))
}

fn view_in(v: &TemplateViewDef, p: &FilterPolicy<'_>) -> (r: In)
    ensures
        ydoc::in_tree(r) == view_tree(*v, *p),
{
    let mut e: Vec<(String, In)> = Vec::new();
    put_str(&mut e, "id", v.id.as_str());
    put_str(&mut e, "name", v.name.as_str());
    put_str(&mut e, "content_type", v.content_type.as_str());
    put_str(&mut e, "view_type", v.view_type.as_str());
    put_opt(&mut e, "column_grouping", &v.column_grouping);
    put_opt(&mut e, "row_grouping", &v.row_grouping);
    put_str(&mut e, "sort_order", v.sort_order.as_str());
    put(&mut e, "show_archived", ydoc::in_bool(v.show_archived));
    let filters = match &v.filters {
        Some(s) => match p {
            FilterPolicy::Clean => clean_filters(s.as_str()),
            FilterPolicy::Remap { users, teams } => {
                let mut dropped: usize = 0;
                filter_token::remap_filters_for_import(s.as_str(), users, teams, &mut dropped)
            },
        },
        None => None,
    };
    put_opt(&mut e, "filters", &filters);
    put_opt(&mut e, "zoom_level", &v.zoom_level);
    ydoc::in_dict(e)
}

/// Adds the saved views: those that stand in the order and have a definition.
/// The policy decides what happens to their filters.
pub(crate) fn build_views(
    config: &mut Vec<(String, In)>,
    views: &TemplateViews,
    policy: &FilterPolicy<'_>,
)
    ensures
        ydoc::entries_tree(final(config)@) == with_views(
            ydoc::entries_tree(old(config)@),
            *views,
            *policy,
        ),
{
    let ghost order = views.order@;
    let mut defs: Vec<(String, In)> = Vec::new();
    let mut ids: Vec<In> = Vec::new();
    let mut i: usize = 0;
    assert(order.take(0) =~= seq![]);
    assert(ydoc::ins_tree(ids@) =~= seq![]);
    while i < views.order.len()
        invariant
            i <= order.len(),
            order == views.order@,
            ydoc::entries_tree(defs@) == view_trees(
                order.take(i as int),
                views.definitions@,
                *policy,
            ),
            ydoc::ins_tree(ids@) == view_ids(order.take(i as int), views.definitions@),
        decreases order.len() - i,
    {
        let ghost before = ids@;
        assert(order.take(i + 1).drop_last() =~= order.take(i as int));
        if let Some(d) = views.definitions.get(views.order[i].as_str()) {
            put(&mut defs, d.id.as_str(), view_in(d, policy));
            ids.push(ydoc::in_str(d.id.as_str()));
            assert(ydoc::ins_tree(ids@) =~= ydoc::ins_tree(before).push(ydoc::ystr(d.id@)));
        }
        i = i + 1;
    }
    assert(order.take(order.len() as int) =~= order);
    put(config, "shared_views", ydoc::in_dict(defs));
    put(config, "shared_views_order", ydoc::in_list(ids));
}

} // verus!
