//! What is read back of the documents that an instantiation builds, and of the configuration
//! of a space.

use vstd::prelude::*;
use yrs::types::xml::XmlIn;
use yrs::Doc;

use crate::calendar::{self, Date};
use crate::codec;
use crate::filter_token;
use crate::read_back::{
    are_texts, at, blob_entry, date_entry, entry, flag_entry, has_bool, has_flag, has_fragment,
    has_null, has_number, has_opt, has_text, has_text_map, has_texts, lemma_at, lemma_entry,
    lemma_sets, lemma_str_map, lemma_strs, put, str_entry, strs_entry,
};
use crate::rich_text::AnyTree;
use crate::template::blob;
use crate::template::config::{self, FilterPolicy};
use crate::template::instantiator::{self, InstantiationResult};
use crate::template::items::{self, Setting};
use crate::template::types::{
    TemplateAttachment, TemplateComment, TemplateContent, TemplateCycleConfig, TemplateDocument,
    TemplateItem, TemplateLabelDef, TemplateLabelValue, TemplateLabels, TemplateMilestoneDef,
    TemplateMilestones, TemplateViewDef, TemplateViews,
};
use crate::text;
use crate::ydoc::{self, YTree};

verus! {

// ---------------------------------------------------------------------------
// Labels
// ---------------------------------------------------------------------------

/// Who deprecated something, as it stands in the configuration: as they are mapped where
/// users are mapped, and nothing where they are not among them.
pub open spec fn deprecator_read_back(
    t: YTree,
    by: Option<String>,
    users: Option<Map<Seq<char>, String>>,
) -> bool {
    match (by, users) {
        (Some(u), Some(m)) => if m.contains_key(u@) {
            has_text(t, "deprecated_by"@, m[u@]@)
        } else {
            entry(t, "deprecated_by"@) is None
        },
        (Some(u), None) => has_text(t, "deprecated_by"@, u@),
        (None, _) => entry(t, "deprecated_by"@) is None,
    }
}

/// Whether and since when something is deprecated, as it stands in the configuration.
pub open spec fn deprecation_read_back(
    t: YTree,
    deprecated: bool,
    since: Option<String>,
    by: Option<String>,
    users: Option<Map<Seq<char>, String>>,
) -> bool {
    if deprecated {
        &&& has_bool(t, "deprecated"@, true)
        &&& has_opt(t, "deprecated_at"@, since)
        &&& deprecator_read_back(t, by, users)
    } else {
        &&& entry(t, "deprecated"@) is None
        &&& entry(t, "deprecated_at"@) is None
        &&& entry(t, "deprecated_by"@) is None
    }
}

/// An entry that is only there where something is deprecated.
spec fn if_deprecated(deprecated: bool, o: Option<YTree>) -> Option<YTree> {
    if deprecated {
        o
    } else {
        None
    }
}

proof fn lemma_deprecation()
    ensures
        forall|
            m: Map<Seq<char>, YTree>,
            deprecated: bool,
            since: Option<Seq<char>>,
            by: Option<Seq<char>>,
        | #[trigger]
            config::with_deprecation(m, deprecated, since, by) == put(
                put(
                    put(m, "deprecated"@, flag_entry(deprecated)),
                    "deprecated_at"@,
                    if_deprecated(deprecated, str_entry(since)),
                ),
                "deprecated_by"@,
                if_deprecated(deprecated, str_entry(by)),
            ),
{
    reveal(put);
}

proof fn lemma_value_keys()
    ensures
        "id"@ != "name"@,
        "id"@ != "color"@,
        "id"@ != "is_completion_state"@,
        "id"@ != "completion_prompt"@,
        "id"@ != "deprecated"@,
        "id"@ != "deprecated_at"@,
        "id"@ != "deprecated_by"@,
        "name"@ != "color"@,
        "name"@ != "is_completion_state"@,
        "name"@ != "completion_prompt"@,
        "name"@ != "deprecated"@,
        "name"@ != "deprecated_at"@,
        "name"@ != "deprecated_by"@,
        "color"@ != "is_completion_state"@,
        "color"@ != "completion_prompt"@,
        "color"@ != "deprecated"@,
        "color"@ != "deprecated_at"@,
        "color"@ != "deprecated_by"@,
        "is_completion_state"@ != "completion_prompt"@,
        "is_completion_state"@ != "deprecated"@,
        "is_completion_state"@ != "deprecated_at"@,
        "is_completion_state"@ != "deprecated_by"@,
        "completion_prompt"@ != "deprecated"@,
        "completion_prompt"@ != "deprecated_at"@,
        "completion_prompt"@ != "deprecated_by"@,
        "deprecated"@ != "deprecated_at"@,
        "deprecated"@ != "deprecated_by"@,
        "deprecated_at"@ != "deprecated_by"@,
{
    reveal_strlit("id");
    reveal_strlit("name");
    reveal_strlit("color");
    reveal_strlit("is_completion_state");
    reveal_strlit("completion_prompt");
    reveal_strlit("deprecated");
    reveal_strlit("deprecated_at");
    reveal_strlit("deprecated_by");
    assert("id"@.len() == 2);
    assert("name"@.len() == 4);
    assert("color"@.len() == 5);
    assert("is_completion_state"@.len() == 19);
    assert("completion_prompt"@.len() == 17);
    assert("deprecated"@.len() == 10);
    assert("deprecated_at"@.len() == 13);
    assert("deprecated_by"@.len() == 13);
    assert("deprecated_at"@[11] == 'a');
    assert("deprecated_by"@[11] == 'b');
}

/// The entries, one after the other.
spec fn value_entries(v: TemplateLabelValue, users: Option<Map<Seq<char>, String>>) -> Map<Seq<char>, YTree> {
    let m = put(Map::empty(), "id"@, Some(ydoc::ystr(v.id@)));
    let m = put(m, "name"@, Some(ydoc::ystr(v.name@)));
    let m = put(m, "color"@, Some(ydoc::ystr(v.color@)));
    let m = put(m, "is_completion_state"@, flag_entry(v.is_completion_state));
    let m = put(m, "completion_prompt"@, str_entry(text::opt_text(v.completion_prompt)));
    let m = put(m, "deprecated"@, flag_entry(v.deprecated));
    let m = put(m, "deprecated_at"@, if_deprecated(v.deprecated, str_entry(text::opt_text(v.deprecated_at))));
    put(m, "deprecated_by"@, if_deprecated(v.deprecated, str_entry(config::deprecator(v.deprecated_by, users))))
}

proof fn lemma_value_entries(v: TemplateLabelValue, users: Option<Map<Seq<char>, String>>)
    ensures
        config::label_value_tree(v, users) == YTree::Dict(value_entries(v, users)),
{
    lemma_sets();
    lemma_deprecation();
}

proof fn lemma_value_at(v: TemplateLabelValue, users: Option<Map<Seq<char>, String>>)
    ensures
        at(value_entries(v, users), "id"@) == Some(ydoc::ystr(v.id@)),
        at(value_entries(v, users), "name"@) == Some(ydoc::ystr(v.name@)),
        at(value_entries(v, users), "color"@) == Some(ydoc::ystr(v.color@)),
        at(value_entries(v, users), "is_completion_state"@) == flag_entry(v.is_completion_state),
        at(value_entries(v, users), "completion_prompt"@) == str_entry(text::opt_text(v.completion_prompt)),
        at(value_entries(v, users), "deprecated"@) == flag_entry(v.deprecated),
        at(value_entries(v, users), "deprecated_at"@) == if_deprecated(v.deprecated, str_entry(text::opt_text(v.deprecated_at))),
        at(value_entries(v, users), "deprecated_by"@) == if_deprecated(v.deprecated, str_entry(config::deprecator(v.deprecated_by, users))),
{
    lemma_at();
    lemma_value_keys();
}

/// A value of a label as it stands in the configuration.
pub open spec fn value_read_back(
    t: YTree,
    v: TemplateLabelValue,
    users: Option<Map<Seq<char>, String>>,
) -> bool {
    &&& has_text(t, "id"@, v.id@)
    &&& has_text(t, "name"@, v.name@)
    &&& has_text(t, "color"@, v.color@)
    &&& has_flag(t, "is_completion_state"@, v.is_completion_state)
    &&& has_opt(t, "completion_prompt"@, v.completion_prompt)
    &&& deprecation_read_back(t, v.deprecated, v.deprecated_at, v.deprecated_by, users)
}

proof fn lemma_value_read_back(v: TemplateLabelValue, users: Option<Map<Seq<char>, String>>)
    ensures
        value_read_back(config::label_value_tree(v, users), v, users),
{
    lemma_value_entries(v, users);
    lemma_value_at(v, users);
    lemma_entry(value_entries(v, users));
}

proof fn lemma_label_keys()
    ensures
        "id"@ != "name"@,
        "id"@ != "description"@,
        "id"@ != "icon"@,
        "id"@ != "values"@,
        "id"@ != "values_order"@,
        "id"@ != "deprecated"@,
        "id"@ != "deprecated_at"@,
        "id"@ != "deprecated_by"@,
        "name"@ != "description"@,
        "name"@ != "icon"@,
        "name"@ != "values"@,
        "name"@ != "values_order"@,
        "name"@ != "deprecated"@,
        "name"@ != "deprecated_at"@,
        "name"@ != "deprecated_by"@,
        "description"@ != "icon"@,
        "description"@ != "values"@,
        "description"@ != "values_order"@,
        "description"@ != "deprecated"@,
        "description"@ != "deprecated_at"@,
        "description"@ != "deprecated_by"@,
        "icon"@ != "values"@,
        "icon"@ != "values_order"@,
        "icon"@ != "deprecated"@,
        "icon"@ != "deprecated_at"@,
        "icon"@ != "deprecated_by"@,
        "values"@ != "values_order"@,
        "values"@ != "deprecated"@,
        "values"@ != "deprecated_at"@,
        "values"@ != "deprecated_by"@,
        "values_order"@ != "deprecated"@,
        "values_order"@ != "deprecated_at"@,
        "values_order"@ != "deprecated_by"@,
        "deprecated"@ != "deprecated_at"@,
        "deprecated"@ != "deprecated_by"@,
        "deprecated_at"@ != "deprecated_by"@,
{
    reveal_strlit("id");
    reveal_strlit("name");
    reveal_strlit("description");
    reveal_strlit("icon");
    reveal_strlit("values");
    reveal_strlit("values_order");
    reveal_strlit("deprecated");
    reveal_strlit("deprecated_at");
    reveal_strlit("deprecated_by");
    assert("id"@.len() == 2);
    assert("name"@.len() == 4);
    assert("description"@.len() == 11);
    assert("icon"@.len() == 4);
    assert("values"@.len() == 6);
    assert("values_order"@.len() == 12);
    assert("deprecated"@.len() == 10);
    assert("deprecated_at"@.len() == 13);
    assert("deprecated_by"@.len() == 13);
    assert("name"@[0] == 'n');
    assert("icon"@[0] == 'i');
    assert("deprecated_at"@[11] == 'a');
    assert("deprecated_by"@[11] == 'b');
}

/// The entries, one after the other.
spec fn label_entries(d: TemplateLabelDef, users: Option<Map<Seq<char>, String>>) -> Map<Seq<char>, YTree> {
    let m = put(Map::empty(), "id"@, Some(ydoc::ystr(d.id@)));
    let m = put(m, "name"@, Some(ydoc::ystr(d.name@)));
    let m = put(m, "description"@, Some(ydoc::ystr(d.description@)));
    let m = put(m, "icon"@, Some(ydoc::ystr(d.icon@)));
    let m = put(m, "values"@, Some(YTree::Dict(config::label_values(d.values_order@, d.values@, users))));
    let m = put(m, "values_order"@, Some(YTree::List(config::label_value_ids(d.values_order@, d.values@))));
    let m = put(m, "deprecated"@, flag_entry(d.deprecated));
    let m = put(m, "deprecated_at"@, if_deprecated(d.deprecated, str_entry(text::opt_text(d.deprecated_at))));
    put(m, "deprecated_by"@, if_deprecated(d.deprecated, str_entry(config::deprecator(d.deprecated_by, users))))
}

proof fn lemma_label_entries(d: TemplateLabelDef, users: Option<Map<Seq<char>, String>>)
    ensures
        config::label_tree(d, users) == YTree::Dict(label_entries(d, users)),
{
    lemma_sets();
    lemma_deprecation();
}

proof fn lemma_label_at(d: TemplateLabelDef, users: Option<Map<Seq<char>, String>>)
    ensures
        at(label_entries(d, users), "id"@) == Some(ydoc::ystr(d.id@)),
        at(label_entries(d, users), "name"@) == Some(ydoc::ystr(d.name@)),
        at(label_entries(d, users), "description"@) == Some(ydoc::ystr(d.description@)),
        at(label_entries(d, users), "icon"@) == Some(ydoc::ystr(d.icon@)),
        at(label_entries(d, users), "values"@) == Some(YTree::Dict(config::label_values(d.values_order@, d.values@, users))),
        at(label_entries(d, users), "values_order"@) == Some(YTree::List(config::label_value_ids(d.values_order@, d.values@))),
        at(label_entries(d, users), "deprecated"@) == flag_entry(d.deprecated),
        at(label_entries(d, users), "deprecated_at"@) == if_deprecated(d.deprecated, str_entry(text::opt_text(d.deprecated_at))),
        at(label_entries(d, users), "deprecated_by"@) == if_deprecated(d.deprecated, str_entry(config::deprecator(d.deprecated_by, users))),
{
    lemma_at();
    lemma_label_keys();
}

/// Whether the order names a definition at `k`, and no later one with the same id.
pub open spec fn is_last_value(
    order: Seq<String>,
    defs: Map<Seq<char>, TemplateLabelValue>,
    k: int,
) -> bool {
    &&& 0 <= k < order.len()
    &&& defs.contains_key(order[k]@)
    &&& forall|j: int|
        k < j < order.len() && defs.contains_key(order[j]@) ==> defs[(#[trigger] order[j])@].id@
            != defs[order[k]@].id@
}

/// A label as it stands in the configuration: with its fields, with each of its values that
/// its order names, and with the order of these.
pub open spec fn label_read_back(
    t: YTree,
    d: TemplateLabelDef,
    users: Option<Map<Seq<char>, String>>,
) -> bool {
    &&& has_text(t, "id"@, d.id@)
    &&& has_text(t, "name"@, d.name@)
    &&& has_text(t, "description"@, d.description@)
    &&& has_text(t, "icon"@, d.icon@)
    &&& deprecation_read_back(t, d.deprecated, d.deprecated_at, d.deprecated_by, users)
    &&& has_texts(
        t,
        "values_order"@,
        d.values_order@.filter(|k: String| d.values@.contains_key(k@)).map_values(
            |k: String| d.values@[k@].id@,
        ),
    )
    &&& (match entry(t, "values"@) {
        Some(values) => forall|k: int| #[trigger]
            is_last_value(d.values_order@, d.values@, k) ==> match entry(
                values,
                d.values@[d.values_order@[k]@].id@,
            ) {
                Some(x) => value_read_back(x, d.values@[d.values_order@[k]@], users),
                None => false,
            },
        None => false,
    })
}

proof fn lemma_label_read_back(d: TemplateLabelDef, users: Option<Map<Seq<char>, String>>)
    ensures
        label_read_back(config::label_tree(d, users), d, users),
{
    lemma_label_entries(d, users);
    lemma_label_at(d, users);
    lemma_entry(label_entries(d, users));
    lemma_value_ids(d.values_order@, d.values@);
    let values = YTree::Dict(config::label_values(d.values_order@, d.values@, users));
    assert forall|k: int| #[trigger]
        is_last_value(d.values_order@, d.values@, k) implies match entry(
        values,
        d.values@[d.values_order@[k]@].id@,
    ) {
        Some(x) => value_read_back(x, d.values@[d.values_order@[k]@], users),
        None => false,
    } by {
        lemma_values_at(d.values_order@, d.values@, users, k);
        lemma_value_read_back(d.values@[d.values_order@[k]@], users);
    }
}

proof fn lemma_values_at(
    order: Seq<String>,
    defs: Map<Seq<char>, TemplateLabelValue>,
    users: Option<Map<Seq<char>, String>>,
    k: int,
)
    requires
        is_last_value(order, defs, k),
    ensures
        config::label_values(order, defs, users).contains_key(defs[order[k]@].id@),
        config::label_values(order, defs, users)[defs[order[k]@].id@] == config::label_value_tree(defs[order[k]@], users),
    decreases order.len(),
{
    if k < order.len() - 1 {
        let before = order.drop_last();
        assert forall|j: int|
            k < j < before.len() && defs.contains_key(before[j]@) implies defs[(
        #[trigger] before[j])@].id@ != defs[before[k]@].id@ by {
            assert(before[j] == order[j]);
        }
        lemma_values_at(before, defs, users, k);
        assert(order[order.len() - 1] == order.last());
    }
}

proof fn lemma_value_ids(order: Seq<String>, defs: Map<Seq<char>, TemplateLabelValue>)
    ensures
        are_texts(
            config::label_value_ids(order, defs),
            order.filter(|k: String| defs.contains_key(k@)).map_values(|k: String| defs[k@].id@),
        ),
    decreases order.len(),
{
    reveal(Seq::filter);
    if order.len() > 0 {
        lemma_value_ids(order.drop_last(), defs);
    }
}

/// Whether the order names a definition at `k`, and no later one with the same id.
pub open spec fn is_last_label(
    order: Seq<String>,
    defs: Map<Seq<char>, TemplateLabelDef>,
    k: int,
) -> bool {
    &&& 0 <= k < order.len()
    &&& defs.contains_key(order[k]@)
    &&& forall|j: int|
        k < j < order.len() && defs.contains_key(order[j]@) ==> defs[(#[trigger] order[j])@].id@
            != defs[order[k]@].id@
}

proof fn lemma_labels_at(
    order: Seq<String>,
    defs: Map<Seq<char>, TemplateLabelDef>,
    users: Option<Map<Seq<char>, String>>,
    k: int,
)
    requires
        is_last_label(order, defs, k),
    ensures
        config::label_trees(order, defs, users).contains_key(defs[order[k]@].id@),
        config::label_trees(order, defs, users)[defs[order[k]@].id@] == config::label_tree(defs[order[k]@], users),
    decreases order.len(),
{
    if k < order.len() - 1 {
        let before = order.drop_last();
        assert forall|j: int|
            k < j < before.len() && defs.contains_key(before[j]@) implies defs[(
        #[trigger] before[j])@].id@ != defs[before[k]@].id@ by {
            assert(before[j] == order[j]);
        }
        lemma_labels_at(before, defs, users, k);
        assert(order[order.len() - 1] == order.last());
    }
}

proof fn lemma_label_ids(order: Seq<String>, defs: Map<Seq<char>, TemplateLabelDef>)
    ensures
        are_texts(
            config::label_ids(order, defs),
            order.filter(|k: String| defs.contains_key(k@)).map_values(|k: String| defs[k@].id@),
        ),
    decreases order.len(),
{
    reveal(Seq::filter);
    if order.len() > 0 {
        lemma_label_ids(order.drop_last(), defs);
    }
}

/// The labels as they stand in a configuration: those that the order names, each under its
/// own id and as it is defined, with their order, and the primary one.
pub open spec fn labels_read_back(
    c: YTree,
    l: TemplateLabels,
    users: Option<Map<Seq<char>, String>>,
) -> bool {
    &&& (match entry(c, "labels"@) {
        Some(labels) => forall|k: int| #[trigger]
            is_last_label(l.order@, l.definitions@, k) ==> match entry(
                labels,
                l.definitions@[l.order@[k]@].id@,
            ) {
                Some(t) => label_read_back(t, l.definitions@[l.order@[k]@], users),
                None => false,
            },
        None => false,
    })
    &&& has_texts(
        c,
        "labels_order"@,
        l.order@.filter(|k: String| l.definitions@.contains_key(k@)).map_values(
            |k: String| l.definitions@[k@].id@,
        ),
    )
    &&& has_opt(c, "primary_label_id"@, l.primary_label_id)
}

pub(crate) proof fn lemma_labels_read_back(
    c: YTree,
    l: TemplateLabels,
    users: Option<Map<Seq<char>, String>>,
)
    requires
        entry(c, "labels"@) == Some(
            YTree::Dict(config::label_trees(l.order@, l.definitions@, users)),
        ),
        entry(c, "labels_order"@) == Some(
            YTree::List(config::label_ids(l.order@, l.definitions@)),
        ),
        entry(c, "primary_label_id"@) == str_entry(text::opt_text(l.primary_label_id)),
    ensures
        labels_read_back(c, l, users),
{
    let labels = entry(c, "labels"@)->0;
    lemma_label_ids(l.order@, l.definitions@);
    assert forall|k: int| #[trigger]
        is_last_label(l.order@, l.definitions@, k) implies match entry(
        labels,
        l.definitions@[l.order@[k]@].id@,
    ) {
        Some(t) => label_read_back(t, l.definitions@[l.order@[k]@], users),
        None => false,
    } by {
        lemma_labels_at(l.order@, l.definitions@, users, k);
        lemma_label_read_back(l.definitions@[l.order@[k]@], users);
    }
}

// ---------------------------------------------------------------------------
// Views and cycles
// ---------------------------------------------------------------------------

proof fn lemma_view_keys()
    ensures
        "id"@ != "name"@,
        "id"@ != "content_type"@,
        "id"@ != "view_type"@,
        "id"@ != "column_grouping"@,
        "id"@ != "row_grouping"@,
        "id"@ != "sort_order"@,
        "id"@ != "show_archived"@,
        "id"@ != "filters"@,
        "id"@ != "zoom_level"@,
        "name"@ != "content_type"@,
        "name"@ != "view_type"@,
        "name"@ != "column_grouping"@,
        "name"@ != "row_grouping"@,
        "name"@ != "sort_order"@,
        "name"@ != "show_archived"@,
        "name"@ != "filters"@,
        "name"@ != "zoom_level"@,
        "content_type"@ != "view_type"@,
        "content_type"@ != "column_grouping"@,
        "content_type"@ != "row_grouping"@,
        "content_type"@ != "sort_order"@,
        "content_type"@ != "show_archived"@,
        "content_type"@ != "filters"@,
        "content_type"@ != "zoom_level"@,
        "view_type"@ != "column_grouping"@,
        "view_type"@ != "row_grouping"@,
        "view_type"@ != "sort_order"@,
        "view_type"@ != "show_archived"@,
        "view_type"@ != "filters"@,
        "view_type"@ != "zoom_level"@,
        "column_grouping"@ != "row_grouping"@,
        "column_grouping"@ != "sort_order"@,
        "column_grouping"@ != "show_archived"@,
        "column_grouping"@ != "filters"@,
        "column_grouping"@ != "zoom_level"@,
        "row_grouping"@ != "sort_order"@,
        "row_grouping"@ != "show_archived"@,
        "row_grouping"@ != "filters"@,
        "row_grouping"@ != "zoom_level"@,
        "sort_order"@ != "show_archived"@,
        "sort_order"@ != "filters"@,
        "sort_order"@ != "zoom_level"@,
        "show_archived"@ != "filters"@,
        "show_archived"@ != "zoom_level"@,
        "filters"@ != "zoom_level"@,
{
    reveal_strlit("id");
    reveal_strlit("name");
    reveal_strlit("content_type");
    reveal_strlit("view_type");
    reveal_strlit("column_grouping");
    reveal_strlit("row_grouping");
    reveal_strlit("sort_order");
    reveal_strlit("show_archived");
    reveal_strlit("filters");
    reveal_strlit("zoom_level");
    assert("id"@.len() == 2);
    assert("name"@.len() == 4);
    assert("content_type"@.len() == 12);
    assert("view_type"@.len() == 9);
    assert("column_grouping"@.len() == 15);
    assert("row_grouping"@.len() == 12);
    assert("sort_order"@.len() == 10);
    assert("show_archived"@.len() == 13);
    assert("filters"@.len() == 7);
    assert("zoom_level"@.len() == 10);
    assert("content_type"@[0] == 'c');
    assert("row_grouping"@[0] == 'r');
    assert("sort_order"@[0] == 's');
    assert("zoom_level"@[0] == 'z');
}

/// The entries, one after the other.
spec fn view_entries(v: TemplateViewDef, p: FilterPolicy<'_>) -> Map<Seq<char>, YTree> {
    let m = put(Map::empty(), "id"@, Some(ydoc::ystr(v.id@)));
    let m = put(m, "name"@, Some(ydoc::ystr(v.name@)));
    let m = put(m, "content_type"@, Some(ydoc::ystr(v.content_type@)));
    let m = put(m, "view_type"@, Some(ydoc::ystr(v.view_type@)));
    let m = put(m, "column_grouping"@, str_entry(text::opt_text(v.column_grouping)));
    let m = put(m, "row_grouping"@, str_entry(text::opt_text(v.row_grouping)));
    let m = put(m, "sort_order"@, Some(ydoc::ystr(v.sort_order@)));
    let m = put(m, "show_archived"@, Some(ydoc::ybool(v.show_archived)));
    let m = put(m, "filters"@, str_entry(match v.filters { Some(s) => config::policy_filters(p, s@), None => None }));
    put(m, "zoom_level"@, str_entry(text::opt_text(v.zoom_level)))
}

proof fn lemma_view_entries(v: TemplateViewDef, p: FilterPolicy<'_>)
    ensures
        config::view_tree(v, p) == YTree::Dict(view_entries(v, p)),
{
    lemma_sets();
}

proof fn lemma_view_at(v: TemplateViewDef, p: FilterPolicy<'_>)
    ensures
        at(view_entries(v, p), "id"@) == Some(ydoc::ystr(v.id@)),
        at(view_entries(v, p), "name"@) == Some(ydoc::ystr(v.name@)),
        at(view_entries(v, p), "content_type"@) == Some(ydoc::ystr(v.content_type@)),
        at(view_entries(v, p), "view_type"@) == Some(ydoc::ystr(v.view_type@)),
        at(view_entries(v, p), "column_grouping"@) == str_entry(text::opt_text(v.column_grouping)),
        at(view_entries(v, p), "row_grouping"@) == str_entry(text::opt_text(v.row_grouping)),
        at(view_entries(v, p), "sort_order"@) == Some(ydoc::ystr(v.sort_order@)),
        at(view_entries(v, p), "show_archived"@) == Some(ydoc::ybool(v.show_archived)),
        at(view_entries(v, p), "filters"@) == str_entry(match v.filters { Some(s) => config::policy_filters(p, s@), None => None }),
        at(view_entries(v, p), "zoom_level"@) == str_entry(text::opt_text(v.zoom_level)),
{
    lemma_at();
    lemma_view_keys();
}

/// A saved view as it stands in the configuration, with what its policy leaves of its
/// filters.
pub open spec fn view_read_back(t: YTree, v: TemplateViewDef, p: FilterPolicy<'_>) -> bool {
    &&& has_text(t, "id"@, v.id@)
    &&& has_text(t, "name"@, v.name@)
    &&& has_text(t, "content_type"@, v.content_type@)
    &&& has_text(t, "view_type"@, v.view_type@)
    &&& has_opt(t, "column_grouping"@, v.column_grouping)
    &&& has_opt(t, "row_grouping"@, v.row_grouping)
    &&& has_text(t, "sort_order"@, v.sort_order@)
    &&& has_bool(t, "show_archived"@, v.show_archived)
    &&& has_opt(t, "zoom_level"@, v.zoom_level)
    &&& (match v.filters {
        None => entry(t, "filters"@) is None,
        Some(s) => match (
        match p {
            FilterPolicy::Clean => config::cleaned(s@),
            FilterPolicy::Remap { users, teams } => filter_token::import_filters(
                s@,
                users@,
                teams@,
            ),
        }) {
            Some(f) => has_text(t, "filters"@, f),
            None => entry(t, "filters"@) is None,
        },
    })
}

/// Whether the order names a definition at `k`, and no later one with the same id.
pub open spec fn is_last_view(
    order: Seq<String>,
    defs: Map<Seq<char>, TemplateViewDef>,
    k: int,
) -> bool {
    &&& 0 <= k < order.len()
    &&& defs.contains_key(order[k]@)
    &&& forall|j: int|
        k < j < order.len() && defs.contains_key(order[j]@) ==> defs[(#[trigger] order[j])@].id@
            != defs[order[k]@].id@
}

proof fn lemma_views_at(
    order: Seq<String>,
    defs: Map<Seq<char>, TemplateViewDef>,
    p: FilterPolicy<'_>,
    k: int,
)
    requires
        is_last_view(order, defs, k),
    ensures
        config::view_trees(order, defs, p).contains_key(defs[order[k]@].id@),
        config::view_trees(order, defs, p)[defs[order[k]@].id@] == config::view_tree(defs[order[k]@], p),
    decreases order.len(),
{
    if k < order.len() - 1 {
        let before = order.drop_last();
        assert forall|j: int|
            k < j < before.len() && defs.contains_key(before[j]@) implies defs[(
        #[trigger] before[j])@].id@ != defs[before[k]@].id@ by {
            assert(before[j] == order[j]);
        }
        lemma_views_at(before, defs, p, k);
        assert(order[order.len() - 1] == order.last());
    }
}

proof fn lemma_view_ids(order: Seq<String>, defs: Map<Seq<char>, TemplateViewDef>)
    ensures
        are_texts(
            config::view_ids(order, defs),
            order.filter(|k: String| defs.contains_key(k@)).map_values(|k: String| defs[k@].id@),
        ),
    decreases order.len(),
{
    reveal(Seq::filter);
    if order.len() > 0 {
        lemma_view_ids(order.drop_last(), defs);
    }
}

/// The saved views as they stand in a configuration: those that the order names, each under
/// its own id and as it is defined, with their order.
pub open spec fn views_read_back(c: YTree, v: TemplateViews, p: FilterPolicy<'_>) -> bool {
    &&& (match entry(c, "shared_views"@) {
        Some(views) => forall|k: int| #[trigger]
            is_last_view(v.order@, v.definitions@, k) ==> match entry(
                views,
                v.definitions@[v.order@[k]@].id@,
            ) {
                Some(t) => view_read_back(t, v.definitions@[v.order@[k]@], p),
                None => false,
            },
        None => false,
    })
    &&& has_texts(
        c,
        "shared_views_order"@,
        v.order@.filter(|k: String| v.definitions@.contains_key(k@)).map_values(
            |k: String| v.definitions@[k@].id@,
        ),
    )
}

pub(crate) proof fn lemma_views_read_back(c: YTree, v: TemplateViews, p: FilterPolicy<'_>)
    requires
        entry(c, "shared_views"@) == Some(
            YTree::Dict(config::view_trees(v.order@, v.definitions@, p)),
        ),
        entry(c, "shared_views_order"@) == Some(
            YTree::List(config::view_ids(v.order@, v.definitions@)),
        ),
    ensures
        views_read_back(c, v, p),
{
    let views = entry(c, "shared_views"@)->0;
    lemma_view_ids(v.order@, v.definitions@);
    assert forall|k: int| #[trigger] is_last_view(v.order@, v.definitions@, k) implies match entry(
        views,
        v.definitions@[v.order@[k]@].id@,
    ) {
        Some(t) => view_read_back(t, v.definitions@[v.order@[k]@], p),
        None => false,
    } by {
        let d = v.definitions@[v.order@[k]@];
        lemma_views_at(v.order@, v.definitions@, p, k);
        lemma_view_entries(d, p);
        lemma_view_at(d, p);
        lemma_entry(view_entries(d, p));
    }
}

proof fn lemma_cycles_keys()
    ensures
        "enabled"@ != "pattern"@,
        "enabled"@ != "start_day"@,
        "enabled"@ != "prefix"@,
        "enabled"@ != "generate_ahead"@,
        "enabled"@ != "retain_past"@,
        "enabled"@ != "next_number"@,
        "pattern"@ != "start_day"@,
        "pattern"@ != "prefix"@,
        "pattern"@ != "generate_ahead"@,
        "pattern"@ != "retain_past"@,
        "pattern"@ != "next_number"@,
        "start_day"@ != "prefix"@,
        "start_day"@ != "generate_ahead"@,
        "start_day"@ != "retain_past"@,
        "start_day"@ != "next_number"@,
        "prefix"@ != "generate_ahead"@,
        "prefix"@ != "retain_past"@,
        "prefix"@ != "next_number"@,
        "generate_ahead"@ != "retain_past"@,
        "generate_ahead"@ != "next_number"@,
        "retain_past"@ != "next_number"@,
{
    reveal_strlit("enabled");
    reveal_strlit("pattern");
    reveal_strlit("start_day");
    reveal_strlit("prefix");
    reveal_strlit("generate_ahead");
    reveal_strlit("retain_past");
    reveal_strlit("next_number");
    assert("enabled"@.len() == 7);
    assert("pattern"@.len() == 7);
    assert("start_day"@.len() == 9);
    assert("prefix"@.len() == 6);
    assert("generate_ahead"@.len() == 14);
    assert("retain_past"@.len() == 11);
    assert("next_number"@.len() == 11);
    assert("enabled"@[0] == 'e');
    assert("pattern"@[0] == 'p');
    assert("retain_past"@[0] == 'r');
    assert("next_number"@[0] == 'n');
}

/// The entries, one after the other.
spec fn cycles_entries(c: TemplateCycleConfig, next: int) -> Map<Seq<char>, YTree> {
    let m = put(Map::empty(), "enabled"@, Some(ydoc::ybool(c.enabled)));
    let m = put(m, "pattern"@, Some(ydoc::ystr(c.pattern@)));
    let m = put(m, "start_day"@, Some(ydoc::ystr(c.start_day@)));
    let m = put(m, "prefix"@, Some(ydoc::ystr(c.prefix@)));
    let m = put(m, "generate_ahead"@, Some(ydoc::ynumber(c.generate_ahead as int)));
    let m = put(m, "retain_past"@, Some(ydoc::ynumber(c.retain_past as int)));
    put(m, "next_number"@, Some(ydoc::ynumber(next)))
}

proof fn lemma_cycles_entries(c: TemplateCycleConfig, next: int)
    ensures
        config::cycle_config_tree(c, next) == YTree::Dict(cycles_entries(c, next)),
{
    lemma_sets();
}

proof fn lemma_cycles_at(c: TemplateCycleConfig, next: int)
    ensures
        at(cycles_entries(c, next), "enabled"@) == Some(ydoc::ybool(c.enabled)),
        at(cycles_entries(c, next), "pattern"@) == Some(ydoc::ystr(c.pattern@)),
        at(cycles_entries(c, next), "start_day"@) == Some(ydoc::ystr(c.start_day@)),
        at(cycles_entries(c, next), "prefix"@) == Some(ydoc::ystr(c.prefix@)),
        at(cycles_entries(c, next), "generate_ahead"@) == Some(ydoc::ynumber(c.generate_ahead as int)),
        at(cycles_entries(c, next), "retain_past"@) == Some(ydoc::ynumber(c.retain_past as int)),
        at(cycles_entries(c, next), "next_number"@) == Some(ydoc::ynumber(next)),
{
    lemma_at();
    lemma_cycles_keys();
}

/// The configuration of cycles as it stands in a configuration, with the number of the next
/// cycle.
pub open spec fn cycles_read_back(
    c: YTree,
    cycles: Option<TemplateCycleConfig>,
    next: int,
) -> bool {
    match cycles {
        Some(x) => match entry(c, "cycle_config"@) {
            Some(t) => {
                &&& has_bool(t, "enabled"@, x.enabled)
                &&& has_text(t, "pattern"@, x.pattern@)
                &&& has_text(t, "start_day"@, x.start_day@)
                &&& has_text(t, "prefix"@, x.prefix@)
                &&& has_number(t, "generate_ahead"@, x.generate_ahead as int)
                &&& has_number(t, "retain_past"@, x.retain_past as int)
                &&& has_number(t, "next_number"@, next)
            },
            None => false,
        },
        None => entry(c, "cycle_config"@) is None,
    }
}

/// The configuration of cycles as an entry.
pub open spec fn cycles_entry(cycles: Option<TemplateCycleConfig>, next: int) -> Option<YTree> {
    match cycles {
        Some(x) => Some(config::cycle_config_tree(x, next)),
        None => None,
    }
}

pub(crate) proof fn lemma_cycles_read_back(
    c: YTree,
    cycles: Option<TemplateCycleConfig>,
    next: int,
)
    requires
        entry(c, "cycle_config"@) == cycles_entry(cycles, next),
    ensures
        cycles_read_back(c, cycles, next),
{
    if let Some(x) = cycles {
        lemma_cycles_entries(x, next);
        lemma_cycles_at(x, next);
        lemma_entry(cycles_entries(x, next));
    }
}

/// The number of days after which items are archived, as an entry.
pub open spec fn archive_entry(days: Option<i64>) -> Option<YTree> {
    match days {
        Some(n) => Some(
            YTree::Dict(Map::empty().insert("migration_days"@, ydoc::ynumber(n as int))),
        ),
        None => None,
    }
}

pub(crate) proof fn lemma_config_sets()
    ensures
        forall|
            m: Map<Seq<char>, YTree>,
            l: TemplateLabels,
            users: Option<Map<Seq<char>, String>>,
        | #[trigger]
            config::with_labels(m, l, users) == put(
                put(
                    put(
                        m,
                        "labels"@,
                        Some(YTree::Dict(config::label_trees(l.order@, l.definitions@, users))),
                    ),
                    "labels_order"@,
                    Some(YTree::List(config::label_ids(l.order@, l.definitions@))),
                ),
                "primary_label_id"@,
                str_entry(text::opt_text(l.primary_label_id)),
            ),
        forall|m: Map<Seq<char>, YTree>, v: TemplateViews, p: FilterPolicy<'_>| #[trigger]
            config::with_views(m, v, p) == put(
                put(
                    m,
                    "shared_views"@,
                    Some(YTree::Dict(config::view_trees(v.order@, v.definitions@, p))),
                ),
                "shared_views_order"@,
                Some(YTree::List(config::view_ids(v.order@, v.definitions@))),
            ),
        forall|m: Map<Seq<char>, YTree>, c: Option<TemplateCycleConfig>, next: int| #[trigger]
            config::with_cycle_config(m, c, next) == put(m, "cycle_config"@, cycles_entry(c, next)),
        forall|m: Map<Seq<char>, YTree>, days: Option<i64>| #[trigger]
            instantiator::with_archive_config(m, days) == put(
                m,
                "archive_config"@,
                archive_entry(days),
            ),
{
    reveal(put);
}

// ---------------------------------------------------------------------------
// The configuration of an instance
// ---------------------------------------------------------------------------

/// The date that lies `offset` days after the start, as year, month and day.
pub open spec fn date_after(start: Date, offset: i64) -> Option<Seq<char>> {
    match calendar::later_date(
        start.year as int,
        start.month as int,
        start.day as int,
        offset as int,
    ) {
        Some((year, month, day)) => calendar::date_text(year, month, day, "%Y-%m-%d"@),
        None => None,
    }
}

/// Whether the date that lies `offset` days after the start stands under `key`, and
/// nothing where there is none.
pub open spec fn has_date(t: YTree, key: Seq<char>, start: Date, offset: Option<i64>) -> bool {
    match offset {
        Some(n) => match date_after(start, n) {
            Some(s) => has_text(t, key, s),
            None => entry(t, key) is None,
        },
        None => entry(t, key) is None,
    }
}

proof fn lemma_milestone_keys()
    ensures
        "id"@ != "name"@,
        "id"@ != "description"@,
        "id"@ != "deadline"@,
        "name"@ != "description"@,
        "name"@ != "deadline"@,
        "description"@ != "deadline"@,
{
    reveal_strlit("id");
    reveal_strlit("name");
    reveal_strlit("description");
    reveal_strlit("deadline");
    assert("id"@.len() == 2);
    assert("name"@.len() == 4);
    assert("description"@.len() == 11);
    assert("deadline"@.len() == 8);
}

/// The entries, one after the other.
spec fn milestone_entries(d: TemplateMilestoneDef, start: Date) -> Map<Seq<char>, YTree> {
    let m = put(Map::empty(), "id"@, Some(ydoc::ystr(d.id@)));
    let m = put(m, "name"@, Some(ydoc::ystr(d.name@)));
    let m = put(m, "description"@, str_entry(text::opt_text(d.description)));
    put(m, "deadline"@, date_entry(start, d.offset_days))
}

proof fn lemma_milestone_entries(d: TemplateMilestoneDef, start: Date)
    ensures
        instantiator::milestone_tree(d, start) == YTree::Dict(milestone_entries(d, start)),
{
    lemma_sets();
}

proof fn lemma_milestone_at(d: TemplateMilestoneDef, start: Date)
    ensures
        at(milestone_entries(d, start), "id"@) == Some(ydoc::ystr(d.id@)),
        at(milestone_entries(d, start), "name"@) == Some(ydoc::ystr(d.name@)),
        at(milestone_entries(d, start), "description"@) == str_entry(text::opt_text(d.description)),
        at(milestone_entries(d, start), "deadline"@) == date_entry(start, d.offset_days),
{
    lemma_at();
    lemma_milestone_keys();
}

/// Whether the order names a definition at `k`, and no later one with the same id.
pub open spec fn is_last_milestone(
    order: Seq<String>,
    defs: Map<Seq<char>, TemplateMilestoneDef>,
    k: int,
) -> bool {
    &&& 0 <= k < order.len()
    &&& defs.contains_key(order[k]@)
    &&& forall|j: int|
        k < j < order.len() && defs.contains_key(order[j]@) ==> defs[(#[trigger] order[j])@].id@
            != defs[order[k]@].id@
}

proof fn lemma_milestones_at(
    order: Seq<String>,
    defs: Map<Seq<char>, TemplateMilestoneDef>,
    start: Date,
    k: int,
)
    requires
        is_last_milestone(order, defs, k),
    ensures
        instantiator::milestone_trees(order, defs, start).contains_key(defs[order[k]@].id@),
        instantiator::milestone_trees(order, defs, start)[defs[order[k]@].id@] == instantiator::milestone_tree(defs[order[k]@], start),
    decreases order.len(),
{
    if k < order.len() - 1 {
        let before = order.drop_last();
        assert forall|j: int|
            k < j < before.len() && defs.contains_key(before[j]@) implies defs[(
        #[trigger] before[j])@].id@ != defs[before[k]@].id@ by {
            assert(before[j] == order[j]);
        }
        lemma_milestones_at(before, defs, start, k);
        assert(order[order.len() - 1] == order.last());
    }
}

proof fn lemma_milestone_ids(order: Seq<String>, defs: Map<Seq<char>, TemplateMilestoneDef>)
    ensures
        are_texts(
            instantiator::milestone_ids(order, defs),
            order.filter(|k: String| defs.contains_key(k@)).map_values(|k: String| defs[k@].id@),
        ),
    decreases order.len(),
{
    reveal(Seq::filter);
    if order.len() > 0 {
        lemma_milestone_ids(order.drop_last(), defs);
    }
}

/// The milestones as they stand in a configuration: those that the order names, each under
/// its own id, with its deadline as a date, and their order.
pub open spec fn milestones_read_back(c: YTree, m: TemplateMilestones, start: Date) -> bool {
    &&& (match entry(c, "milestones"@) {
        Some(all) => forall|k: int| #[trigger]
            is_last_milestone(m.order@, m.definitions@, k) ==> {
                let d = m.definitions@[m.order@[k]@];
                match entry(all, d.id@) {
                    Some(t) => {
                        &&& has_text(t, "id"@, d.id@)
                        &&& has_text(t, "name"@, d.name@)
                        &&& has_opt(t, "description"@, d.description)
                        &&& has_date(t, "deadline"@, start, d.offset_days)
                    },
                    None => false,
                }
            },
        None => false,
    })
    &&& has_texts(
        c,
        "milestones_order"@,
        m.order@.filter(|k: String| m.definitions@.contains_key(k@)).map_values(
            |k: String| m.definitions@[k@].id@,
        ),
    )
}

proof fn lemma_milestones_read_back(c: YTree, m: TemplateMilestones, start: Date)
    requires
        entry(c, "milestones"@) == Some(
            YTree::Dict(instantiator::milestone_trees(m.order@, m.definitions@, start)),
        ),
        entry(c, "milestones_order"@) == Some(
            YTree::List(instantiator::milestone_ids(m.order@, m.definitions@)),
        ),
    ensures
        milestones_read_back(c, m, start),
{
    let all = entry(c, "milestones"@)->0;
    lemma_milestone_ids(m.order@, m.definitions@);
    assert forall|k: int| #[trigger] is_last_milestone(m.order@, m.definitions@, k) implies {
        let d = m.definitions@[m.order@[k]@];
        match entry(all, d.id@) {
            Some(t) => {
                &&& has_text(t, "id"@, d.id@)
                &&& has_text(t, "name"@, d.name@)
                &&& has_opt(t, "description"@, d.description)
                &&& has_date(t, "deadline"@, start, d.offset_days)
            },
            None => false,
        }
    } by {
        let d = m.definitions@[m.order@[k]@];
        lemma_milestones_at(m.order@, m.definitions@, start, k);
        lemma_milestone_entries(d, start);
        lemma_milestone_at(d, start);
        lemma_entry(milestone_entries(d, start));
    }
}

proof fn lemma_config_keys()
    ensures
        "labels"@ != "labels_order"@,
        "labels"@ != "primary_label_id"@,
        "labels"@ != "milestones"@,
        "labels"@ != "milestones_order"@,
        "labels"@ != "cycle_config"@,
        "labels"@ != "short_id_prefix"@,
        "labels"@ != "short_id_visible"@,
        "labels"@ != "archive_config"@,
        "labels"@ != "shared_views"@,
        "labels"@ != "shared_views_order"@,
        "labels_order"@ != "primary_label_id"@,
        "labels_order"@ != "milestones"@,
        "labels_order"@ != "milestones_order"@,
        "labels_order"@ != "cycle_config"@,
        "labels_order"@ != "short_id_prefix"@,
        "labels_order"@ != "short_id_visible"@,
        "labels_order"@ != "archive_config"@,
        "labels_order"@ != "shared_views"@,
        "labels_order"@ != "shared_views_order"@,
        "primary_label_id"@ != "milestones"@,
        "primary_label_id"@ != "milestones_order"@,
        "primary_label_id"@ != "cycle_config"@,
        "primary_label_id"@ != "short_id_prefix"@,
        "primary_label_id"@ != "short_id_visible"@,
        "primary_label_id"@ != "archive_config"@,
        "primary_label_id"@ != "shared_views"@,
        "primary_label_id"@ != "shared_views_order"@,
        "milestones"@ != "milestones_order"@,
        "milestones"@ != "cycle_config"@,
        "milestones"@ != "short_id_prefix"@,
        "milestones"@ != "short_id_visible"@,
        "milestones"@ != "archive_config"@,
        "milestones"@ != "shared_views"@,
        "milestones"@ != "shared_views_order"@,
        "milestones_order"@ != "cycle_config"@,
        "milestones_order"@ != "short_id_prefix"@,
        "milestones_order"@ != "short_id_visible"@,
        "milestones_order"@ != "archive_config"@,
        "milestones_order"@ != "shared_views"@,
        "milestones_order"@ != "shared_views_order"@,
        "cycle_config"@ != "short_id_prefix"@,
        "cycle_config"@ != "short_id_visible"@,
        "cycle_config"@ != "archive_config"@,
        "cycle_config"@ != "shared_views"@,
        "cycle_config"@ != "shared_views_order"@,
        "short_id_prefix"@ != "short_id_visible"@,
        "short_id_prefix"@ != "archive_config"@,
        "short_id_prefix"@ != "shared_views"@,
        "short_id_prefix"@ != "shared_views_order"@,
        "short_id_visible"@ != "archive_config"@,
        "short_id_visible"@ != "shared_views"@,
        "short_id_visible"@ != "shared_views_order"@,
        "archive_config"@ != "shared_views"@,
        "archive_config"@ != "shared_views_order"@,
        "shared_views"@ != "shared_views_order"@,
{
    reveal_strlit("labels");
    reveal_strlit("labels_order");
    reveal_strlit("primary_label_id");
    reveal_strlit("milestones");
    reveal_strlit("milestones_order");
    reveal_strlit("cycle_config");
    reveal_strlit("short_id_prefix");
    reveal_strlit("short_id_visible");
    reveal_strlit("archive_config");
    reveal_strlit("shared_views");
    reveal_strlit("shared_views_order");
    assert("labels"@.len() == 6);
    assert("labels_order"@.len() == 12);
    assert("primary_label_id"@.len() == 16);
    assert("milestones"@.len() == 10);
    assert("milestones_order"@.len() == 16);
    assert("cycle_config"@.len() == 12);
    assert("short_id_prefix"@.len() == 15);
    assert("short_id_visible"@.len() == 16);
    assert("archive_config"@.len() == 14);
    assert("shared_views"@.len() == 12);
    assert("shared_views_order"@.len() == 18);
    assert("labels_order"@[0] == 'l');
    assert("cycle_config"@[0] == 'c');
    assert("shared_views"@[0] == 's');
    assert("primary_label_id"@[0] == 'p');
    assert("milestones_order"@[0] == 'm');
    assert("short_id_visible"@[0] == 's');
}

/// The entries, one after the other.
spec fn config_entries(c: TemplateContent, start: Date, prefix: Option<Seq<char>>) -> Map<Seq<char>, YTree> {
    let m = put(Map::empty(), "labels"@, Some(YTree::Dict(config::label_trees(c.labels.order@, c.labels.definitions@, None))));
    let m = put(m, "labels_order"@, Some(YTree::List(config::label_ids(c.labels.order@, c.labels.definitions@))));
    let m = put(m, "primary_label_id"@, str_entry(text::opt_text(c.labels.primary_label_id)));
    let m = put(m, "milestones"@, Some(YTree::Dict(instantiator::milestone_trees(c.milestones.order@, c.milestones.definitions@, start))));
    let m = put(m, "milestones_order"@, Some(YTree::List(instantiator::milestone_ids(c.milestones.order@, c.milestones.definitions@))));
    let m = put(m, "cycle_config"@, cycles_entry(c.cycle_config, 1));
    let m = put(m, "short_id_prefix"@, Some(ydoc::ystr(instantiator::short_id_prefix_of(c, prefix))));
    let m = put(m, "short_id_visible"@, Some(ydoc::ybool(instantiator::short_id_visible_of(c))));
    let m = put(m, "archive_config"@, archive_entry(instantiator::archive_days(c.archive_config)));
    let m = put(m, "shared_views"@, Some(YTree::Dict(config::view_trees(c.views.order@, c.views.definitions@, FilterPolicy::Clean))));
    put(m, "shared_views_order"@, Some(YTree::List(config::view_ids(c.views.order@, c.views.definitions@))))
}

proof fn lemma_config_entries(c: TemplateContent, start: Date, prefix: Option<Seq<char>>)
    ensures
        YTree::Dict(instantiator::config_tree(c, start, prefix)) == YTree::Dict(config_entries(c, start, prefix)),
{
    lemma_sets();
    lemma_config_sets();
}

proof fn lemma_config_at(c: TemplateContent, start: Date, prefix: Option<Seq<char>>)
    ensures
        at(config_entries(c, start, prefix), "labels"@) == Some(YTree::Dict(config::label_trees(c.labels.order@, c.labels.definitions@, None))),
        at(config_entries(c, start, prefix), "labels_order"@) == Some(YTree::List(config::label_ids(c.labels.order@, c.labels.definitions@))),
        at(config_entries(c, start, prefix), "primary_label_id"@) == str_entry(text::opt_text(c.labels.primary_label_id)),
        at(config_entries(c, start, prefix), "milestones"@) == Some(YTree::Dict(instantiator::milestone_trees(c.milestones.order@, c.milestones.definitions@, start))),
        at(config_entries(c, start, prefix), "milestones_order"@) == Some(YTree::List(instantiator::milestone_ids(c.milestones.order@, c.milestones.definitions@))),
        at(config_entries(c, start, prefix), "cycle_config"@) == cycles_entry(c.cycle_config, 1),
        at(config_entries(c, start, prefix), "short_id_prefix"@) == Some(ydoc::ystr(instantiator::short_id_prefix_of(c, prefix))),
        at(config_entries(c, start, prefix), "short_id_visible"@) == Some(ydoc::ybool(instantiator::short_id_visible_of(c))),
        at(config_entries(c, start, prefix), "archive_config"@) == archive_entry(instantiator::archive_days(c.archive_config)),
        at(config_entries(c, start, prefix), "shared_views"@) == Some(YTree::Dict(config::view_trees(c.views.order@, c.views.definitions@, FilterPolicy::Clean))),
        at(config_entries(c, start, prefix), "shared_views_order"@) == Some(YTree::List(config::view_ids(c.views.order@, c.views.definitions@))),
{
    lemma_at();
    lemma_config_keys();
}

/// The configuration of an instance holds the labels, the milestones and the views of the
/// template, its configuration of cycles, counted from one, and its archive configuration;
/// short ids have the given prefix, or that of the template, or `PRJ`, and are shown unless
/// the template hides them. Filters that do not apply to a new space are removed.
pub proof fn lemma_config_read_back(
    content: TemplateContent,
    start: Date,
    prefix: Option<Seq<char>>,
    created_by: Seq<char>,
    new_space: Option<Seq<char>>,
    r: InstantiationResult,
    now: Seq<char>,
    doc_ids: Map<Seq<char>, String>,
    attachment_ids: Map<Seq<char>, String>,
    pairs: Seq<(String, String)>,
    shown: Map<Seq<char>, Vec<XmlIn>>,
)
    requires
        instantiator::instance_with(
            content,
            start,
            prefix,
            created_by,
            new_space,
            r,
            now,
            doc_ids,
            attachment_ids,
            pairs,
            shown,
        ),
    ensures
        ({
            let c = YTree::Dict(ydoc::dict_under(ydoc::doc_roots(r.space_doc), "config"@));
            &&& labels_read_back(c, content.labels, None)
            &&& milestones_read_back(c, content.milestones, start)
            &&& views_read_back(c, content.views, FilterPolicy::Clean)
            &&& cycles_read_back(c, content.cycle_config, 1)
            &&& (match (prefix, content.short_id_config) {
                (Some(p), _) => has_text(c, "short_id_prefix"@, p),
                (None, Some(x)) => has_text(c, "short_id_prefix"@, x.prefix@),
                (None, None) => has_text(c, "short_id_prefix"@, "PRJ"@),
            })
            &&& (match content.short_id_config {
                Some(x) => has_bool(c, "short_id_visible"@, x.visible),
                None => has_bool(c, "short_id_visible"@, true),
            })
            &&& (match content.archive_config {
                Some(x) => match entry(c, "archive_config"@) {
                    Some(t) => has_number(t, "migration_days"@, x.migration_days as int),
                    None => false,
                },
                None => entry(c, "archive_config"@) is None,
            })
        }),
{
    let c = YTree::Dict(instantiator::config_tree(content, start, prefix));
    lemma_config_entries(content, start, prefix);
    lemma_config_at(content, start, prefix);
    lemma_entry(config_entries(content, start, prefix));
    lemma_labels_read_back(c, content.labels, None);
    lemma_milestones_read_back(c, content.milestones, start);
    lemma_views_read_back(c, content.views, FilterPolicy::Clean);
    lemma_cycles_read_back(c, content.cycle_config, 1);
}

// ---------------------------------------------------------------------------
// Items
// ---------------------------------------------------------------------------

/// The attachments of an item as an entry, if any of them is in the template.
spec fn attachments_entry(ids: Seq<String>, s: Setting) -> Option<YTree> {
    if items::any_attachment(ids, s.attachments) {
        Some(YTree::List(items::attachment_trees(ids, s)))
    } else {
        None
    }
}

proof fn lemma_attachment_sets()
    ensures
        forall|m: Map<Seq<char>, YTree>, ids: Seq<String>, s: Setting| #[trigger]
            items::with_attachments(m, ids, s) == put(m, "attachments"@, attachments_entry(ids, s)),
{
    reveal(put);
}

proof fn lemma_item_keys()
    ensures
        "id"@ != "title"@,
        "id"@ != "labels"@,
        "id"@ != "due_date"@,
        "id"@ != "start_date"@,
        "id"@ != "milestone_id"@,
        "id"@ != "cycle_id"@,
        "id"@ != "parent_id"@,
        "id"@ != "blocked_by"@,
        "id"@ != "description"@,
        "id"@ != "attachments"@,
        "id"@ != "created_by"@,
        "id"@ != "created_at"@,
        "id"@ != "updated_at"@,
        "title"@ != "labels"@,
        "title"@ != "due_date"@,
        "title"@ != "start_date"@,
        "title"@ != "milestone_id"@,
        "title"@ != "cycle_id"@,
        "title"@ != "parent_id"@,
        "title"@ != "blocked_by"@,
        "title"@ != "description"@,
        "title"@ != "attachments"@,
        "title"@ != "created_by"@,
        "title"@ != "created_at"@,
        "title"@ != "updated_at"@,
        "labels"@ != "due_date"@,
        "labels"@ != "start_date"@,
        "labels"@ != "milestone_id"@,
        "labels"@ != "cycle_id"@,
        "labels"@ != "parent_id"@,
        "labels"@ != "blocked_by"@,
        "labels"@ != "description"@,
        "labels"@ != "attachments"@,
        "labels"@ != "created_by"@,
        "labels"@ != "created_at"@,
        "labels"@ != "updated_at"@,
        "due_date"@ != "start_date"@,
        "due_date"@ != "milestone_id"@,
        "due_date"@ != "cycle_id"@,
        "due_date"@ != "parent_id"@,
        "due_date"@ != "blocked_by"@,
        "due_date"@ != "description"@,
        "due_date"@ != "attachments"@,
        "due_date"@ != "created_by"@,
        "due_date"@ != "created_at"@,
        "due_date"@ != "updated_at"@,
        "start_date"@ != "milestone_id"@,
        "start_date"@ != "cycle_id"@,
        "start_date"@ != "parent_id"@,
        "start_date"@ != "blocked_by"@,
        "start_date"@ != "description"@,
        "start_date"@ != "attachments"@,
        "start_date"@ != "created_by"@,
        "start_date"@ != "created_at"@,
        "start_date"@ != "updated_at"@,
        "milestone_id"@ != "cycle_id"@,
        "milestone_id"@ != "parent_id"@,
        "milestone_id"@ != "blocked_by"@,
        "milestone_id"@ != "description"@,
        "milestone_id"@ != "attachments"@,
        "milestone_id"@ != "created_by"@,
        "milestone_id"@ != "created_at"@,
        "milestone_id"@ != "updated_at"@,
        "cycle_id"@ != "parent_id"@,
        "cycle_id"@ != "blocked_by"@,
        "cycle_id"@ != "description"@,
        "cycle_id"@ != "attachments"@,
        "cycle_id"@ != "created_by"@,
        "cycle_id"@ != "created_at"@,
        "cycle_id"@ != "updated_at"@,
        "parent_id"@ != "blocked_by"@,
        "parent_id"@ != "description"@,
        "parent_id"@ != "attachments"@,
        "parent_id"@ != "created_by"@,
        "parent_id"@ != "created_at"@,
        "parent_id"@ != "updated_at"@,
        "blocked_by"@ != "description"@,
        "blocked_by"@ != "attachments"@,
        "blocked_by"@ != "created_by"@,
        "blocked_by"@ != "created_at"@,
        "blocked_by"@ != "updated_at"@,
        "description"@ != "attachments"@,
        "description"@ != "created_by"@,
        "description"@ != "created_at"@,
        "description"@ != "updated_at"@,
        "attachments"@ != "created_by"@,
        "attachments"@ != "created_at"@,
        "attachments"@ != "updated_at"@,
        "created_by"@ != "created_at"@,
        "created_by"@ != "updated_at"@,
        "created_at"@ != "updated_at"@,
{
    reveal_strlit("id");
    reveal_strlit("title");
    reveal_strlit("labels");
    reveal_strlit("due_date");
    reveal_strlit("start_date");
    reveal_strlit("milestone_id");
    reveal_strlit("cycle_id");
    reveal_strlit("parent_id");
    reveal_strlit("blocked_by");
    reveal_strlit("description");
    reveal_strlit("attachments");
    reveal_strlit("created_by");
    reveal_strlit("created_at");
    reveal_strlit("updated_at");
    assert("id"@.len() == 2);
    assert("title"@.len() == 5);
    assert("labels"@.len() == 6);
    assert("due_date"@.len() == 8);
    assert("start_date"@.len() == 10);
    assert("milestone_id"@.len() == 12);
    assert("cycle_id"@.len() == 8);
    assert("parent_id"@.len() == 9);
    assert("blocked_by"@.len() == 10);
    assert("description"@.len() == 11);
    assert("attachments"@.len() == 11);
    assert("created_by"@.len() == 10);
    assert("created_at"@.len() == 10);
    assert("updated_at"@.len() == 10);
    assert("due_date"@[0] == 'd');
    assert("cycle_id"@[0] == 'c');
    assert("start_date"@[0] == 's');
    assert("blocked_by"@[0] == 'b');
    assert("created_by"@[0] == 'c');
    assert("created_at"@[0] == 'c');
    assert("updated_at"@[0] == 'u');
    assert("created_by"@[8] == 'b');
    assert("created_at"@[8] == 'a');
    assert("description"@[0] == 'd');
    assert("attachments"@[0] == 'a');
}

/// The entries, one after the other.
spec fn item_entries(t: TemplateItem, s: Setting) -> Map<Seq<char>, YTree> {
    let m = put(Map::empty(), "id"@, Some(ydoc::ystr(t.id@)));
    let m = put(m, "title"@, Some(ydoc::ystr(t.title@)));
    let m = put(m, "labels"@, Some(config::str_map_tree(t.labels@)));
    let m = put(m, "due_date"@, date_entry(s.start, t.due_date_offset_days));
    let m = put(m, "start_date"@, date_entry(s.start, t.start_date_offset_days));
    let m = put(m, "milestone_id"@, str_entry(text::opt_text(t.milestone_id)));
    let m = put(m, "cycle_id"@, str_entry(text::opt_text(t.cycle_id)));
    let m = put(m, "parent_id"@, str_entry(text::opt_text(t.parent_id)));
    let m = put(m, "blocked_by"@, strs_entry(t.blocked_by@));
    let m = put(m, "description"@, blob_entry(text::opt_text(t.description_yjs), s.shown));
    let m = put(m, "attachments"@, attachments_entry(t.attachment_ids@, s));
    let m = put(m, "created_by"@, Some(ydoc::ystr(s.created_by)));
    let m = put(m, "created_at"@, Some(ydoc::ystr(s.now)));
    put(m, "updated_at"@, Some(ydoc::ystr(s.now)))
}

proof fn lemma_item_entries(t: TemplateItem, s: Setting)
    ensures
        items::item_tree(t, s) == YTree::Dict(item_entries(t, s)),
{
    lemma_sets();
    lemma_attachment_sets();
}

proof fn lemma_item_at(t: TemplateItem, s: Setting)
    ensures
        at(item_entries(t, s), "id"@) == Some(ydoc::ystr(t.id@)),
        at(item_entries(t, s), "title"@) == Some(ydoc::ystr(t.title@)),
        at(item_entries(t, s), "labels"@) == Some(config::str_map_tree(t.labels@)),
        at(item_entries(t, s), "due_date"@) == date_entry(s.start, t.due_date_offset_days),
        at(item_entries(t, s), "start_date"@) == date_entry(s.start, t.start_date_offset_days),
        at(item_entries(t, s), "milestone_id"@) == str_entry(text::opt_text(t.milestone_id)),
        at(item_entries(t, s), "cycle_id"@) == str_entry(text::opt_text(t.cycle_id)),
        at(item_entries(t, s), "parent_id"@) == str_entry(text::opt_text(t.parent_id)),
        at(item_entries(t, s), "blocked_by"@) == strs_entry(t.blocked_by@),
        at(item_entries(t, s), "description"@) == blob_entry(text::opt_text(t.description_yjs), s.shown),
        at(item_entries(t, s), "attachments"@) == attachments_entry(t.attachment_ids@, s),
        at(item_entries(t, s), "created_by"@) == Some(ydoc::ystr(s.created_by)),
        at(item_entries(t, s), "created_at"@) == Some(ydoc::ystr(s.now)),
        at(item_entries(t, s), "updated_at"@) == Some(ydoc::ystr(s.now)),
{
    lemma_at();
    lemma_item_keys();
}

proof fn lemma_attachment_keys()
    ensures
        "id"@ != "filename"@,
        "id"@ != "content_type"@,
        "id"@ != "size_bytes"@,
        "filename"@ != "content_type"@,
        "filename"@ != "size_bytes"@,
        "content_type"@ != "size_bytes"@,
{
    reveal_strlit("id");
    reveal_strlit("filename");
    reveal_strlit("content_type");
    reveal_strlit("size_bytes");
    assert("id"@.len() == 2);
    assert("filename"@.len() == 8);
    assert("content_type"@.len() == 12);
    assert("size_bytes"@.len() == 10);
}

/// The entries, one after the other.
spec fn attachment_entries(a: TemplateAttachment, new_id: Seq<char>) -> Map<Seq<char>, YTree> {
    let m = put(Map::empty(), "id"@, Some(ydoc::ystr(new_id)));
    let m = put(m, "filename"@, Some(ydoc::ystr(a.filename@)));
    let m = put(m, "content_type"@, Some(ydoc::ystr(a.content_type@)));
    put(m, "size_bytes"@, Some(ydoc::ynumber(a.size_bytes as int)))
}

proof fn lemma_attachment_entries(a: TemplateAttachment, new_id: Seq<char>)
    ensures
        items::attachment_tree(a, new_id) == YTree::Dict(attachment_entries(a, new_id)),
{
    lemma_sets();
}

proof fn lemma_attachment_at(a: TemplateAttachment, new_id: Seq<char>)
    ensures
        at(attachment_entries(a, new_id), "id"@) == Some(ydoc::ystr(new_id)),
        at(attachment_entries(a, new_id), "filename"@) == Some(ydoc::ystr(a.filename@)),
        at(attachment_entries(a, new_id), "content_type"@) == Some(ydoc::ystr(a.content_type@)),
        at(attachment_entries(a, new_id), "size_bytes"@) == Some(ydoc::ynumber(a.size_bytes as int)),
{
    lemma_at();
    lemma_attachment_keys();
}

/// An attachment of an item as it stands in the document.
pub open spec fn attachment_read_back(t: YTree, a: TemplateAttachment, new_id: Seq<char>) -> bool {
    &&& has_text(t, "id"@, new_id)
    &&& has_text(t, "filename"@, a.filename@)
    &&& has_text(t, "content_type"@, a.content_type@)
    &&& has_number(t, "size_bytes"@, a.size_bytes as int)
}

proof fn lemma_attachment_read_back(a: TemplateAttachment, new_id: Seq<char>)
    ensures
        attachment_read_back(items::attachment_tree(a, new_id), a, new_id),
{
    lemma_attachment_entries(a, new_id);
    lemma_attachment_at(a, new_id);
    lemma_entry(attachment_entries(a, new_id));
}

/// The last attachment with an id is found.
proof fn lemma_attachment_with(v: Seq<TemplateAttachment>, id: Seq<char>)
    ensures
        match items::attachment_with(v, id) {
            Some(a) => exists|x: int|
                0 <= x < v.len() && #[trigger] v[x] == a && a.id@ == id && forall|y: int|
                    x < y < v.len() ==> (#[trigger] v[y]).id@ != id,
            None => forall|y: int| 0 <= y < v.len() ==> (#[trigger] v[y]).id@ != id,
        },
    decreases v.len(),
{
    if v.len() > 0 {
        let w = v.drop_last();
        if v.last().id@ == id {
            assert(v[v.len() - 1] == v.last());
        } else {
            lemma_attachment_with(w, id);
            if let Some(a) = items::attachment_with(w, id) {
                let x = choose|x: int|
                    0 <= x < w.len() && #[trigger] w[x] == a && a.id@ == id && forall|y: int|
                        x < y < w.len() ==> (#[trigger] w[y]).id@ != id;
                assert(v[x] == a);
                assert forall|y: int| x < y < v.len() implies (#[trigger] v[y]).id@ != id by {
                    if y < w.len() {
                        assert(w[y] == v[y]);
                    }
                }
            } else {
                assert forall|y: int| 0 <= y < v.len() implies (#[trigger] v[y]).id@ != id by {
                    if y < w.len() {
                        assert(w[y] == v[y]);
                    }
                }
            }
        }
    }
}

/// Every attachment of an item that is in the template stands in its list, in order, as
/// the template has it and under its new id.
proof fn lemma_attachments_read_back(ids: Seq<String>, s: Setting)
    requires
        forall|i: int|
            0 <= i < ids.len() ==> items::attachment_with(s.attachments, (#[trigger] ids[i])@) is Some
                && s.attachment_ids.contains_key(ids[i]@),
    ensures
        items::attachment_trees(ids, s).len() == ids.len(),
        forall|i: int|
            0 <= i < ids.len() ==> attachment_read_back(
                #[trigger] items::attachment_trees(ids, s)[i],
                items::attachment_with(s.attachments, ids[i]@)->0,
                s.attachment_ids[ids[i]@]@,
            ),
    decreases ids.len(),
{
    if ids.len() > 0 {
        let w = ids.drop_last();
        assert forall|i: int| 0 <= i < w.len() implies items::attachment_with(
            s.attachments,
            (#[trigger] w[i])@,
        ) is Some && s.attachment_ids.contains_key(w[i]@) by {
            assert(w[i] == ids[i]);
        }
        lemma_attachments_read_back(w, s);
        let id = ids.last()@;
        assert(items::attachment_with(s.attachments, ids[ids.len() - 1]@) is Some);
        lemma_attachment_with(s.attachments, id);
        let a = items::attachment_with(s.attachments, id)->0;
        lemma_attachment_read_back(a, s.attachment_ids[id]@);
        let all = items::attachment_trees(ids, s);
        let rest = items::attachment_trees(w, s);
        assert forall|i: int| 0 <= i < ids.len() implies attachment_read_back(
            #[trigger] all[i],
            items::attachment_with(s.attachments, ids[i]@)->0,
            s.attachment_ids[ids[i]@]@,
        ) by {
            if i < w.len() {
                assert(all[i] == rest[i]);
            }
        }
    }
}

/// Whether no later item has the same id.
pub open spec fn is_last_item(v: Seq<TemplateItem>, k: int) -> bool {
    &&& 0 <= k < v.len()
    &&& forall|j: int| k < j < v.len() ==> (#[trigger] v[j]).id@ != v[k].id@
}

proof fn lemma_item_entry(v: Seq<TemplateItem>, k: int, s: Setting)
    requires
        is_last_item(v, k),
    ensures
        items::items_tree(v, s).contains_key(v[k].id@),
        items::items_tree(v, s)[v[k].id@] == items::item_tree(v[k], s),
    decreases v.len(),
{
    if k < v.len() - 1 {
        let before = v.drop_last();
        assert forall|j: int| k < j < before.len() implies (#[trigger] before[j]).id@
            != before[k].id@ by {
            assert(before[j] == v[j]);
        }
        lemma_item_entry(before, k, s);
        assert(v[v.len() - 1] == v.last());
    }
}

/// The fields of an item as they stand in the space document.
pub open spec fn item_read_back(
    t: YTree,
    i: TemplateItem,
    start: Date,
    created_by: Seq<char>,
    now: Seq<char>,
    shown: Map<Seq<char>, Vec<XmlIn>>,
) -> bool {
    &&& has_text(t, "id"@, i.id@)
    &&& has_text(t, "title"@, i.title@)
    &&& has_text_map(t, "labels"@, i.labels@)
    &&& has_date(t, "due_date"@, start, i.due_date_offset_days)
    &&& has_date(t, "start_date"@, start, i.start_date_offset_days)
    &&& has_opt(t, "milestone_id"@, i.milestone_id)
    &&& has_opt(t, "cycle_id"@, i.cycle_id)
    &&& has_opt(t, "parent_id"@, i.parent_id)
    &&& (if i.blocked_by@.len() > 0 {
        has_texts(t, "blocked_by"@, text::texts(i.blocked_by@))
    } else {
        entry(t, "blocked_by"@) is None
    })
    &&& (match i.description_yjs {
        Some(b) => has_fragment(t, "description"@, blob::blob_nodes(b@, shown)),
        None => entry(t, "description"@) is None,
    })
    &&& has_text(t, "created_by"@, created_by)
    &&& has_text(t, "created_at"@, now)
    &&& has_text(t, "updated_at"@, now)
}

/// Whether an attachment with the id is in the template.
pub open spec fn has_attachment(v: Seq<TemplateAttachment>, id: Seq<char>) -> bool {
    exists|x: int| 0 <= x < v.len() && (#[trigger] v[x]).id@ == id
}

/// Every item of a template stands in the space document under its own id, with its own
/// fields: its dates as they lie after the start, created by the given user at the time of
/// the instantiation. Where all of its attachments are in the template, they are listed in
/// order; where none is, there is no list. Of items with one id the last counts.
pub proof fn lemma_item_read_back(
    content: TemplateContent,
    start: Date,
    prefix: Option<Seq<char>>,
    created_by: Seq<char>,
    new_space: Option<Seq<char>>,
    r: InstantiationResult,
    now: Seq<char>,
    doc_ids: Map<Seq<char>, String>,
    attachment_ids: Map<Seq<char>, String>,
    pairs: Seq<(String, String)>,
    shown: Map<Seq<char>, Vec<XmlIn>>,
    k: int,
)
    requires
        instantiator::instance_with(
            content,
            start,
            prefix,
            created_by,
            new_space,
            r,
            now,
            doc_ids,
            attachment_ids,
            pairs,
            shown,
        ),
        is_last_item(content.items@, k),
    ensures
        ({
            let i = content.items@[k];
            let all = ydoc::dict_under(ydoc::doc_roots(r.space_doc), "items"@);
            let t = all[i.id@];
            let ids = i.attachment_ids@;
            &&& all.contains_key(i.id@)
            &&& item_read_back(t, i, start, created_by, now, shown)
            &&& (forall|x: int|
                0 <= x < ids.len() ==> !has_attachment(content.attachments@, (#[trigger] ids[x])@))
                ==> entry(t, "attachments"@) is None
            &&& ids.len() > 0 && (forall|x: int|
                0 <= x < ids.len() ==> has_attachment(content.attachments@, (#[trigger] ids[x])@))
                ==> match entry(t, "attachments"@) {
                Some(YTree::List(list)) => list.len() == ids.len() && forall|x: int|
                    0 <= x < ids.len() ==> exists|a: int|
                        0 <= a < content.attachments@.len() && (
                        #[trigger] content.attachments@[a]).id@ == ids[x]@ && attachment_read_back(
                            #[trigger] list[x],
                            content.attachments@[a],
                            attachment_ids[ids[x]@]@,
                        ),
                _ => false,
            }
        }),
        are_texts(
            ydoc::list_under(ydoc::doc_roots(r.space_doc), "items_order"@),
            content.items@.map_values(|t: TemplateItem| t.id@),
        ),
{
    let s = instantiator::setting(content, start, created_by, now, shown, attachment_ids);
    let i = content.items@[k];
    let ids = i.attachment_ids@;
    lemma_item_entry(content.items@, k, s);
    lemma_item_entries(i, s);
    lemma_item_at(i, s);
    lemma_entry(item_entries(i, s));
    lemma_str_map(i.labels@);
    lemma_strs(text::texts(i.blocked_by@));
    assert forall|x: int| 0 <= x < ids.len() implies (has_attachment(
        content.attachments@,
        (#[trigger] ids[x])@,
    ) <==> items::attachment_with(s.attachments, ids[x]@) is Some) by {
        lemma_attachment_with(s.attachments, ids[x]@);
    }
    if ids.len() > 0 && (forall|x: int|
        0 <= x < ids.len() ==> has_attachment(content.attachments@, (#[trigger] ids[x])@)) {
        assert forall|x: int| 0 <= x < ids.len() implies items::attachment_with(
            s.attachments,
            (#[trigger] ids[x])@,
        ) is Some && s.attachment_ids.contains_key(ids[x]@) by {
            assert(has_attachment(content.attachments@, ids[x]@));
            let a = choose|a: int|
                0 <= a < content.attachments@.len() && (#[trigger] content.attachments@[a]).id@
                    == ids[x]@;
            assert(attachment_ids.contains_key(content.attachments@[a].id@));
        }
        lemma_attachments_read_back(ids, s);
        assert(items::attachment_with(s.attachments, ids[0]@) is Some);
        let list = items::attachment_trees(ids, s);
        assert forall|x: int| 0 <= x < ids.len() implies exists|a: int|
            0 <= a < content.attachments@.len() && (#[trigger] content.attachments@[a]).id@
                == ids[x]@ && attachment_read_back(
                #[trigger] list[x],
                content.attachments@[a],
                attachment_ids[ids[x]@]@,
            ) by {
            lemma_attachment_with(s.attachments, ids[x]@);
            assert(attachment_read_back(
                list[x],
                items::attachment_with(s.attachments, ids[x]@)->0,
                attachment_ids[ids[x]@]@,
            ));
        }
    }
}

// ---------------------------------------------------------------------------
// Comments
// ---------------------------------------------------------------------------

proof fn lemma_comment_keys()
    ensures
        "id"@ != "item_id"@,
        "id"@ != "author_id"@,
        "id"@ != "author_name"@,
        "id"@ != "created_at"@,
        "id"@ != "deleted"@,
        "id"@ != "parent_id"@,
        "id"@ != "content"@,
        "item_id"@ != "author_id"@,
        "item_id"@ != "author_name"@,
        "item_id"@ != "created_at"@,
        "item_id"@ != "deleted"@,
        "item_id"@ != "parent_id"@,
        "item_id"@ != "content"@,
        "author_id"@ != "author_name"@,
        "author_id"@ != "created_at"@,
        "author_id"@ != "deleted"@,
        "author_id"@ != "parent_id"@,
        "author_id"@ != "content"@,
        "author_name"@ != "created_at"@,
        "author_name"@ != "deleted"@,
        "author_name"@ != "parent_id"@,
        "author_name"@ != "content"@,
        "created_at"@ != "deleted"@,
        "created_at"@ != "parent_id"@,
        "created_at"@ != "content"@,
        "deleted"@ != "parent_id"@,
        "deleted"@ != "content"@,
        "parent_id"@ != "content"@,
{
    reveal_strlit("id");
    reveal_strlit("item_id");
    reveal_strlit("author_id");
    reveal_strlit("author_name");
    reveal_strlit("created_at");
    reveal_strlit("deleted");
    reveal_strlit("parent_id");
    reveal_strlit("content");
    assert("id"@.len() == 2);
    assert("item_id"@.len() == 7);
    assert("author_id"@.len() == 9);
    assert("author_name"@.len() == 11);
    assert("created_at"@.len() == 10);
    assert("deleted"@.len() == 7);
    assert("parent_id"@.len() == 9);
    assert("content"@.len() == 7);
    assert("item_id"@[0] == 'i');
    assert("deleted"@[0] == 'd');
    assert("content"@[0] == 'c');
    assert("author_id"@[0] == 'a');
    assert("parent_id"@[0] == 'p');
}

/// The entries, one after the other.
spec fn comment_entries(c: TemplateComment, item_id: Seq<char>, start: Date, shown: Map<Seq<char>, Vec<XmlIn>>) -> Map<Seq<char>, YTree> {
    let m = put(Map::empty(), "id"@, Some(ydoc::ystr(c.id@)));
    let m = put(m, "item_id"@, Some(ydoc::ystr(item_id)));
    let m = put(m, "author_id"@, Some(ydoc::ystr(codec::nil_uuid_text())));
    let m = put(m, "author_name"@, Some(ydoc::ystr(c.author_name@)));
    let m = put(m, "created_at"@, Some(ydoc::ystr(match start.plus_seconds(c.created_at_offset_seconds as int) { Some(s) => s, None => seq![] })));
    let m = put(m, "deleted"@, Some(ydoc::ybool(false)));
    let m = put(m, "parent_id"@, str_entry(text::opt_text(c.parent_id)));
    put(m, "content"@, Some(YTree::Fragment(match c.content_yjs { Some(b) => blob::blob_nodes(b@, shown), None => seq![] })))
}

proof fn lemma_comment_entries(c: TemplateComment, item_id: Seq<char>, start: Date, shown: Map<Seq<char>, Vec<XmlIn>>)
    ensures
        items::comment_tree(c, item_id, start, shown) == YTree::Dict(comment_entries(c, item_id, start, shown)),
{
    lemma_sets();
}

proof fn lemma_comment_at(c: TemplateComment, item_id: Seq<char>, start: Date, shown: Map<Seq<char>, Vec<XmlIn>>)
    ensures
        at(comment_entries(c, item_id, start, shown), "id"@) == Some(ydoc::ystr(c.id@)),
        at(comment_entries(c, item_id, start, shown), "item_id"@) == Some(ydoc::ystr(item_id)),
        at(comment_entries(c, item_id, start, shown), "author_id"@) == Some(ydoc::ystr(codec::nil_uuid_text())),
        at(comment_entries(c, item_id, start, shown), "author_name"@) == Some(ydoc::ystr(c.author_name@)),
        at(comment_entries(c, item_id, start, shown), "created_at"@) == Some(ydoc::ystr(match start.plus_seconds(c.created_at_offset_seconds as int) { Some(s) => s, None => seq![] })),
        at(comment_entries(c, item_id, start, shown), "deleted"@) == Some(ydoc::ybool(false)),
        at(comment_entries(c, item_id, start, shown), "parent_id"@) == str_entry(text::opt_text(c.parent_id)),
        at(comment_entries(c, item_id, start, shown), "content"@) == Some(YTree::Fragment(match c.content_yjs { Some(b) => blob::blob_nodes(b@, shown), None => seq![] })),
{
    lemma_at();
    lemma_comment_keys();
}

/// The time that lies `offset` seconds after midnight of the start.
pub open spec fn time_after(start: Date, offset: i64) -> Option<Seq<char>> {
    match calendar::later_time(
        start.year as int,
        start.month as int,
        start.day as int,
        0,
        offset as int,
    ) {
        Some((year, month, day, second)) => calendar::time_text(year, month, day, second),
        None => None,
    }
}

/// The fields of a comment as they stand in the comments document.
pub open spec fn comment_read_back(
    t: YTree,
    c: TemplateComment,
    item_id: Seq<char>,
    start: Date,
    shown: Map<Seq<char>, Vec<XmlIn>>,
) -> bool {
    &&& has_text(t, "id"@, c.id@)
    &&& has_text(t, "item_id"@, item_id)
    &&& has_text(t, "author_id"@, codec::nil_uuid_text())
    &&& has_text(t, "author_name"@, c.author_name@)
    &&& time_after(start, c.created_at_offset_seconds) matches Some(s) ==> has_text(
        t,
        "created_at"@,
        s,
    )
    &&& has_bool(t, "deleted"@, false)
    &&& has_opt(t, "parent_id"@, c.parent_id)
    &&& (match c.content_yjs {
        Some(b) => has_fragment(t, "content"@, blob::blob_nodes(b@, shown)),
        None => has_fragment(t, "content"@, seq![]),
    })
}

/// Whether the item has comments, and no later item with comments has the same id.
pub open spec fn is_last_thread(v: Seq<TemplateItem>, k: int) -> bool {
    &&& 0 <= k < v.len()
    &&& v[k].comments@.len() > 0
    &&& forall|j: int|
        k < j < v.len() && v[j].comments@.len() > 0 ==> (#[trigger] v[j]).id@ != v[k].id@
}

/// Whether no later comment of the thread has the same id.
pub open spec fn is_last_comment(v: Seq<TemplateComment>, c: int) -> bool {
    &&& 0 <= c < v.len()
    &&& forall|j: int| c < j < v.len() ==> (#[trigger] v[j]).id@ != v[c].id@
}

proof fn lemma_thread_entry(
    v: Seq<TemplateItem>,
    k: int,
    start: Date,
    shown: Map<Seq<char>, Vec<XmlIn>>,
)
    requires
        is_last_thread(v, k),
    ensures
        ({
            let (t, o) = (items::threads_tree(v, start, shown), items::threads_order(v));
            &&& t.contains_key(v[k].id@)
            &&& t[v[k].id@] == YTree::Dict(
                items::thread_tree(v[k].comments@, v[k].id@, start, shown),
            )
            &&& o.contains_key(v[k].id@)
            &&& o[v[k].id@] == YTree::List(items::thread_ids(v[k].comments@))
        }),
    decreases v.len(),
{
    if k < v.len() - 1 {
        let before = v.drop_last();
        assert forall|j: int|
            k < j < before.len() && before[j].comments@.len() > 0 implies (#[trigger] before[j]).id@
            != before[k].id@ by {
            assert(before[j] == v[j]);
        }
        lemma_thread_entry(before, k, start, shown);
        assert(v[v.len() - 1] == v.last());
    }
}

proof fn lemma_comment_entry(
    v: Seq<TemplateComment>,
    c: int,
    item_id: Seq<char>,
    start: Date,
    shown: Map<Seq<char>, Vec<XmlIn>>,
)
    requires
        is_last_comment(v, c),
    ensures
        items::thread_tree(v, item_id, start, shown).contains_key(v[c].id@),
        items::thread_tree(v, item_id, start, shown)[v[c].id@] == items::comment_tree(
            v[c],
            item_id,
            start,
            shown,
        ),
    decreases v.len(),
{
    if c < v.len() - 1 {
        let before = v.drop_last();
        assert forall|j: int| c < j < before.len() implies (#[trigger] before[j]).id@
            != before[c].id@ by {
            assert(before[j] == v[j]);
        }
        lemma_comment_entry(before, c, item_id, start, shown);
        assert(v[v.len() - 1] == v.last());
    }
}

proof fn lemma_thread_ids(v: Seq<TemplateComment>)
    ensures
        are_texts(
            items::thread_ids(v),
            v.filter(|c: TemplateComment| c.parent_id is None).map_values(
                |c: TemplateComment| c.id@,
            ),
        ),
    decreases v.len(),
{
    reveal(Seq::filter);
    if v.len() > 0 {
        lemma_thread_ids(v.drop_last());
    }
}

/// Every comment of a template stands in the thread of its item in the comments document,
/// under its own id, with its own fields and nobody as its author. The order of the thread
/// lists the comments that are no replies. There is such a document exactly where an item
/// has comments.
pub proof fn lemma_comment_read_back(
    content: TemplateContent,
    start: Date,
    prefix: Option<Seq<char>>,
    created_by: Seq<char>,
    new_space: Option<Seq<char>>,
    r: InstantiationResult,
    now: Seq<char>,
    doc_ids: Map<Seq<char>, String>,
    attachment_ids: Map<Seq<char>, String>,
    pairs: Seq<(String, String)>,
    shown: Map<Seq<char>, Vec<XmlIn>>,
    k: int,
    c: int,
)
    requires
        instantiator::instance_with(
            content,
            start,
            prefix,
            created_by,
            new_space,
            r,
            now,
            doc_ids,
            attachment_ids,
            pairs,
            shown,
        ),
        is_last_thread(content.items@, k),
        is_last_comment(content.items@[k].comments@, c),
    ensures
        r.comments_doc is Some,
        ({
            let i = content.items@[k];
            let x = i.comments@[c];
            let roots = ydoc::doc_roots(r.comments_doc->0);
            let threads = ydoc::dict_under(roots, "threads"@);
            let orders = ydoc::dict_under(roots, "threads_order"@);
            &&& threads.contains_key(i.id@)
            &&& (match entry(threads[i.id@], x.id@) {
                Some(t) => comment_read_back(t, x, i.id@, start, shown),
                None => false,
            })
            &&& orders.contains_key(i.id@)
            &&& (match orders[i.id@] {
                YTree::List(ids) => are_texts(
                    ids,
                    i.comments@.filter(|c: TemplateComment| c.parent_id is None).map_values(
                        |c: TemplateComment| c.id@,
                    ),
                ),
                _ => false,
            })
        }),
{
    let i = content.items@[k];
    lemma_thread_entry(content.items@, k, start, shown);
    lemma_comment_entry(i.comments@, c, i.id@, start, shown);
    lemma_thread_ids(i.comments@);
    lemma_comment_entries(i.comments@[c], i.id@, start, shown);
    lemma_comment_at(i.comments@[c], i.id@, start, shown);
    lemma_entry(comment_entries(i.comments@[c], i.id@, start, shown));
    assert(items::any_comments(content.items@));
}

// ---------------------------------------------------------------------------
// Documents and manifests
// ---------------------------------------------------------------------------

/// The owners of a document.
spec fn owners_of(d: TemplateDocument, created_by: Seq<char>) -> Map<Seq<char>, YTree> {
    Map::empty().insert(
        "users"@,
        ydoc::ystrs(items::owner_users(d.owners_default.users@, created_by)),
    ).insert("teams"@, ydoc::ystrs(text::texts(d.owners_default.teams@)))
}

proof fn lemma_document_keys()
    ensures
        "id"@ != "title"@,
        "id"@ != "labels"@,
        "id"@ != "created_by"@,
        "id"@ != "created_at"@,
        "id"@ != "updated_at"@,
        "id"@ != "owners"@,
        "id"@ != "parent_item_id"@,
        "id"@ != "parent_milestone_id"@,
        "id"@ != "review_cadence_days"@,
        "id"@ != "last_reviewed_at"@,
        "id"@ != "is_template"@,
        "id"@ != "forked_from"@,
        "title"@ != "labels"@,
        "title"@ != "created_by"@,
        "title"@ != "created_at"@,
        "title"@ != "updated_at"@,
        "title"@ != "owners"@,
        "title"@ != "parent_item_id"@,
        "title"@ != "parent_milestone_id"@,
        "title"@ != "review_cadence_days"@,
        "title"@ != "last_reviewed_at"@,
        "title"@ != "is_template"@,
        "title"@ != "forked_from"@,
        "labels"@ != "created_by"@,
        "labels"@ != "created_at"@,
        "labels"@ != "updated_at"@,
        "labels"@ != "owners"@,
        "labels"@ != "parent_item_id"@,
        "labels"@ != "parent_milestone_id"@,
        "labels"@ != "review_cadence_days"@,
        "labels"@ != "last_reviewed_at"@,
        "labels"@ != "is_template"@,
        "labels"@ != "forked_from"@,
        "created_by"@ != "created_at"@,
        "created_by"@ != "updated_at"@,
        "created_by"@ != "owners"@,
        "created_by"@ != "parent_item_id"@,
        "created_by"@ != "parent_milestone_id"@,
        "created_by"@ != "review_cadence_days"@,
        "created_by"@ != "last_reviewed_at"@,
        "created_by"@ != "is_template"@,
        "created_by"@ != "forked_from"@,
        "created_at"@ != "updated_at"@,
        "created_at"@ != "owners"@,
        "created_at"@ != "parent_item_id"@,
        "created_at"@ != "parent_milestone_id"@,
        "created_at"@ != "review_cadence_days"@,
        "created_at"@ != "last_reviewed_at"@,
        "created_at"@ != "is_template"@,
        "created_at"@ != "forked_from"@,
        "updated_at"@ != "owners"@,
        "updated_at"@ != "parent_item_id"@,
        "updated_at"@ != "parent_milestone_id"@,
        "updated_at"@ != "review_cadence_days"@,
        "updated_at"@ != "last_reviewed_at"@,
        "updated_at"@ != "is_template"@,
        "updated_at"@ != "forked_from"@,
        "owners"@ != "parent_item_id"@,
        "owners"@ != "parent_milestone_id"@,
        "owners"@ != "review_cadence_days"@,
        "owners"@ != "last_reviewed_at"@,
        "owners"@ != "is_template"@,
        "owners"@ != "forked_from"@,
        "parent_item_id"@ != "parent_milestone_id"@,
        "parent_item_id"@ != "review_cadence_days"@,
        "parent_item_id"@ != "last_reviewed_at"@,
        "parent_item_id"@ != "is_template"@,
        "parent_item_id"@ != "forked_from"@,
        "parent_milestone_id"@ != "review_cadence_days"@,
        "parent_milestone_id"@ != "last_reviewed_at"@,
        "parent_milestone_id"@ != "is_template"@,
        "parent_milestone_id"@ != "forked_from"@,
        "review_cadence_days"@ != "last_reviewed_at"@,
        "review_cadence_days"@ != "is_template"@,
        "review_cadence_days"@ != "forked_from"@,
        "last_reviewed_at"@ != "is_template"@,
        "last_reviewed_at"@ != "forked_from"@,
        "is_template"@ != "forked_from"@,
{
    reveal_strlit("id");
    reveal_strlit("title");
    reveal_strlit("labels");
    reveal_strlit("created_by");
    reveal_strlit("created_at");
    reveal_strlit("updated_at");
    reveal_strlit("owners");
    reveal_strlit("parent_item_id");
    reveal_strlit("parent_milestone_id");
    reveal_strlit("review_cadence_days");
    reveal_strlit("last_reviewed_at");
    reveal_strlit("is_template");
    reveal_strlit("forked_from");
    assert("id"@.len() == 2);
    assert("title"@.len() == 5);
    assert("labels"@.len() == 6);
    assert("created_by"@.len() == 10);
    assert("created_at"@.len() == 10);
    assert("updated_at"@.len() == 10);
    assert("owners"@.len() == 6);
    assert("parent_item_id"@.len() == 14);
    assert("parent_milestone_id"@.len() == 19);
    assert("review_cadence_days"@.len() == 19);
    assert("last_reviewed_at"@.len() == 16);
    assert("is_template"@.len() == 11);
    assert("forked_from"@.len() == 11);
    assert("labels"@[0] == 'l');
    assert("owners"@[0] == 'o');
    assert("created_by"@[0] == 'c');
    assert("created_at"@[0] == 'c');
    assert("updated_at"@[0] == 'u');
    assert("created_by"@[8] == 'b');
    assert("created_at"@[8] == 'a');
    assert("parent_milestone_id"@[0] == 'p');
    assert("review_cadence_days"@[0] == 'r');
    assert("is_template"@[0] == 'i');
    assert("forked_from"@[0] == 'f');
}

/// The entries, one after the other.
spec fn document_entries(d: TemplateDocument, new_id: Seq<char>, created_by: Seq<char>, now: Seq<char>) -> Map<Seq<char>, YTree> {
    let m = put(Map::empty(), "id"@, Some(ydoc::ystr(new_id)));
    let m = put(m, "title"@, Some(ydoc::ystr(d.title@)));
    let m = put(m, "labels"@, Some(config::str_map_tree(d.labels@)));
    let m = put(m, "created_by"@, Some(ydoc::ystr(created_by)));
    let m = put(m, "created_at"@, Some(ydoc::ystr(now)));
    let m = put(m, "updated_at"@, Some(ydoc::ystr(now)));
    let m = put(m, "owners"@, Some(YTree::Dict(owners_of(d, created_by))));
    let m = put(m, "parent_item_id"@, Some(items::str_or_null(text::opt_text(d.parent_item_id))));
    let m = put(m, "parent_milestone_id"@, Some(items::str_or_null(text::opt_text(d.parent_milestone_id))));
    let m = put(m, "review_cadence_days"@, Some(match d.review_cadence_days { Some(n) => ydoc::ybig(n as int), None => ydoc::ynull() }));
    let m = put(m, "last_reviewed_at"@, Some(ydoc::ynull()));
    let m = put(m, "is_template"@, Some(ydoc::ybool(d.is_template)));
    put(m, "forked_from"@, Some(ydoc::ynull()))
}

proof fn lemma_document_entries(d: TemplateDocument, new_id: Seq<char>, created_by: Seq<char>, now: Seq<char>)
    ensures
        items::document_tree(d, new_id, created_by, now) == YTree::Dict(document_entries(d, new_id, created_by, now)),
{
    lemma_sets();
}

proof fn lemma_document_at(d: TemplateDocument, new_id: Seq<char>, created_by: Seq<char>, now: Seq<char>)
    ensures
        at(document_entries(d, new_id, created_by, now), "id"@) == Some(ydoc::ystr(new_id)),
        at(document_entries(d, new_id, created_by, now), "title"@) == Some(ydoc::ystr(d.title@)),
        at(document_entries(d, new_id, created_by, now), "labels"@) == Some(config::str_map_tree(d.labels@)),
        at(document_entries(d, new_id, created_by, now), "created_by"@) == Some(ydoc::ystr(created_by)),
        at(document_entries(d, new_id, created_by, now), "created_at"@) == Some(ydoc::ystr(now)),
        at(document_entries(d, new_id, created_by, now), "updated_at"@) == Some(ydoc::ystr(now)),
        at(document_entries(d, new_id, created_by, now), "owners"@) == Some(YTree::Dict(owners_of(d, created_by))),
        at(document_entries(d, new_id, created_by, now), "parent_item_id"@) == Some(items::str_or_null(text::opt_text(d.parent_item_id))),
        at(document_entries(d, new_id, created_by, now), "parent_milestone_id"@) == Some(items::str_or_null(text::opt_text(d.parent_milestone_id))),
        at(document_entries(d, new_id, created_by, now), "review_cadence_days"@) == Some(match d.review_cadence_days { Some(n) => ydoc::ybig(n as int), None => ydoc::ynull() }),
        at(document_entries(d, new_id, created_by, now), "last_reviewed_at"@) == Some(ydoc::ynull()),
        at(document_entries(d, new_id, created_by, now), "is_template"@) == Some(ydoc::ybool(d.is_template)),
        at(document_entries(d, new_id, created_by, now), "forked_from"@) == Some(ydoc::ynull()),
{
    lemma_at();
    lemma_document_keys();
}

/// The text, or null where there is none.
pub open spec fn has_text_or_null(t: YTree, key: Seq<char>, o: Option<String>) -> bool {
    match o {
        Some(s) => has_text(t, key, s@),
        None => has_null(t, key),
    }
}

/// The fields of a document as they stand in the space document.
pub open spec fn document_read_back(
    t: YTree,
    d: TemplateDocument,
    new_id: Seq<char>,
    created_by: Seq<char>,
    now: Seq<char>,
) -> bool {
    &&& has_text(t, "id"@, new_id)
    &&& has_text(t, "title"@, d.title@)
    &&& has_text_map(t, "labels"@, d.labels@)
    &&& has_text(t, "created_by"@, created_by)
    &&& has_text(t, "created_at"@, now)
    &&& has_text(t, "updated_at"@, now)
    &&& (match entry(t, "owners"@) {
        Some(o) => has_texts(
            o,
            "users"@,
            d.owners_default.users@.map_values(
                |u: String|
                    if u@ == "creator"@ {
                        created_by
                    } else {
                        u@
                    },
            ),
        ) && has_texts(o, "teams"@, text::texts(d.owners_default.teams@)),
        None => false,
    })
    &&& has_text_or_null(t, "parent_item_id"@, d.parent_item_id)
    &&& has_text_or_null(t, "parent_milestone_id"@, d.parent_milestone_id)
    &&& (match d.review_cadence_days {
        Some(n) => entry(t, "review_cadence_days"@) == Some(
            YTree::Value(AnyTree::BigInt(n as int)),
        ),
        None => has_null(t, "review_cadence_days"@),
    })
    &&& has_null(t, "last_reviewed_at"@)
    &&& has_bool(t, "is_template"@, d.is_template)
    &&& has_null(t, "forked_from"@)
}

proof fn lemma_owner_keys()
    ensures
        "users"@ != "teams"@,
{
    reveal_strlit("users");
    reveal_strlit("teams");
    assert("users"@.len() == 5);
    assert("teams"@.len() == 5);
    assert("users"@[0] == 'u');
    assert("teams"@[0] == 't');
}

/// Whether no later document gets the same new id.
pub open spec fn is_last_document(
    v: Seq<TemplateDocument>,
    ids: Map<Seq<char>, String>,
    k: int,
) -> bool {
    &&& 0 <= k < v.len()
    &&& forall|j: int|
        k < j < v.len() && ids.contains_key(v[j].id@) ==> ids[(#[trigger] v[j]).id@]@
            != ids[v[k].id@]@
}

proof fn lemma_document_entry(
    v: Seq<TemplateDocument>,
    k: int,
    ids: Map<Seq<char>, String>,
    created_by: Seq<char>,
    now: Seq<char>,
)
    requires
        is_last_document(v, ids, k),
        ids.contains_key(v[k].id@),
    ensures
        ({
            let new_id = ids[v[k].id@]@;
            let all = items::documents_tree(v, ids, created_by, now);
            &&& all.contains_key(new_id)
            &&& all[new_id] == items::document_tree(v[k], new_id, created_by, now)
        }),
    decreases v.len(),
{
    if k < v.len() - 1 {
        let before = v.drop_last();
        assert forall|j: int| k < j < before.len() && ids.contains_key(before[j].id@) implies ids[(
        #[trigger] before[j]).id@]@ != ids[before[k].id@]@ by {
            assert(before[j] == v[j]);
        }
        lemma_document_entry(before, k, ids, created_by, now);
        assert(v[v.len() - 1] == v.last());
    }
}

proof fn lemma_documents_listed(v: Seq<TemplateDocument>, ids: Map<Seq<char>, String>)
    requires
        forall|i: int| 0 <= i < v.len() ==> ids.contains_key((#[trigger] v[i]).id@),
    ensures
        are_texts(
            items::document_ids(v, ids),
            v.map_values(|d: TemplateDocument| ids[d.id@]@),
        ),
        instantiator::manifest_of(v, ids) == v.map_values(
            |d: TemplateDocument| (ids[d.id@]@, d.title@),
        ),
    decreases v.len(),
{
    if v.len() > 0 {
        let w = v.drop_last();
        assert forall|i: int| 0 <= i < w.len() implies ids.contains_key((#[trigger] w[i]).id@) by {
            assert(w[i] == v[i]);
        }
        lemma_documents_listed(w, ids);
        assert(ids.contains_key(v[v.len() - 1].id@));
    }
    assert(instantiator::manifest_of(v, ids) =~= v.map_values(
        |d: TemplateDocument| (ids[d.id@]@, d.title@),
    ));
}

/// Every document of a template stands in the space document under its new id, with its
/// own fields and the creator in the place of an owner who is called `creator`. The order
/// and the manifest list all documents in the order of the template.
pub proof fn lemma_document_read_back(
    content: TemplateContent,
    start: Date,
    prefix: Option<Seq<char>>,
    created_by: Seq<char>,
    new_space: Option<Seq<char>>,
    r: InstantiationResult,
    now: Seq<char>,
    doc_ids: Map<Seq<char>, String>,
    attachment_ids: Map<Seq<char>, String>,
    pairs: Seq<(String, String)>,
    shown: Map<Seq<char>, Vec<XmlIn>>,
    k: int,
)
    requires
        instantiator::instance_with(
            content,
            start,
            prefix,
            created_by,
            new_space,
            r,
            now,
            doc_ids,
            attachment_ids,
            pairs,
            shown,
        ),
        is_last_document(content.documents@, doc_ids, k),
    ensures
        ({
            let d = content.documents@[k];
            let docs = ydoc::dict_under(ydoc::doc_roots(r.space_doc), "documents"@);
            &&& doc_ids.contains_key(d.id@)
            &&& docs.contains_key(doc_ids[d.id@]@)
            &&& document_read_back(
                docs[doc_ids[d.id@]@],
                d,
                doc_ids[d.id@]@,
                created_by,
                now,
            )
        }),
        are_texts(
            ydoc::list_under(ydoc::doc_roots(r.space_doc), "documents_order"@),
            content.documents@.map_values(|d: TemplateDocument| doc_ids[d.id@]@),
        ),
        r.document_manifest@.len() == content.documents@.len(),
        forall|i: int|
            0 <= i < content.documents@.len() ==> (#[trigger] r.document_manifest@[i]).new_id@
                == doc_ids[content.documents@[i].id@]@ && r.document_manifest@[i].title@
                == content.documents@[i].title@,
{
    let v = content.documents@;
    let d = v[k];
    let new_id = doc_ids[d.id@]@;
    assert forall|i: int| 0 <= i < v.len() implies doc_ids.contains_key((#[trigger] v[i]).id@) by {}
    lemma_document_entry(v, k, doc_ids, created_by, now);
    lemma_document_entries(d, new_id, created_by, now);
    lemma_document_at(d, new_id, created_by, now);
    lemma_entry(document_entries(d, new_id, created_by, now));
    lemma_owner_keys();
    lemma_strs(items::owner_users(d.owners_default.users@, created_by));
    lemma_strs(text::texts(d.owners_default.teams@));
    assert(items::owner_users(d.owners_default.users@, created_by)
        =~= d.owners_default.users@.map_values(
        |u: String|
            if u@ == "creator"@ {
                created_by
            } else {
                u@
            },
    ));
    lemma_str_map(d.labels@);
    lemma_documents_listed(v, doc_ids);
    let views = instantiator::manifest_view(r.document_manifest@);
    assert(views.len() == r.document_manifest@.len());
    assert forall|i: int| 0 <= i < v.len() implies (#[trigger] r.document_manifest@[i]).new_id@
        == doc_ids[v[i].id@]@ && r.document_manifest@[i].title@ == v[i].title@ by {
        assert(views[i] == (r.document_manifest@[i].new_id@, r.document_manifest@[i].title@));
    }
}

proof fn lemma_attachments_listed(v: Seq<TemplateAttachment>, ids: Map<Seq<char>, String>)
    requires
        forall|i: int| 0 <= i < v.len() ==> ids.contains_key((#[trigger] v[i]).id@),
    ensures
        instantiator::attachment_manifest_of(v, ids) == v.map_values(
            |a: TemplateAttachment|
                (a.id@, ids[a.id@]@, a.filename@, a.content_type@, a.size_bytes),
        ),
    decreases v.len(),
{
    if v.len() > 0 {
        let w = v.drop_last();
        assert forall|i: int| 0 <= i < w.len() implies ids.contains_key((#[trigger] w[i]).id@) by {
            assert(w[i] == v[i]);
        }
        lemma_attachments_listed(w, ids);
        assert(ids.contains_key(v[v.len() - 1].id@));
    }
    assert(instantiator::attachment_manifest_of(v, ids) =~= v.map_values(
        |a: TemplateAttachment| (a.id@, ids[a.id@]@, a.filename@, a.content_type@, a.size_bytes),
    ));
}

/// The manifest of the attachments lists each attachment of the template in order, with
/// its old and its new id, its name, its type and its size.
pub proof fn lemma_attachments_kept(
    content: TemplateContent,
    start: Date,
    prefix: Option<Seq<char>>,
    created_by: Seq<char>,
    new_space: Option<Seq<char>>,
    r: InstantiationResult,
    now: Seq<char>,
    doc_ids: Map<Seq<char>, String>,
    attachment_ids: Map<Seq<char>, String>,
    pairs: Seq<(String, String)>,
    shown: Map<Seq<char>, Vec<XmlIn>>,
    i: int,
)
    requires
        instantiator::instance_with(
            content,
            start,
            prefix,
            created_by,
            new_space,
            r,
            now,
            doc_ids,
            attachment_ids,
            pairs,
            shown,
        ),
        0 <= i < content.attachments@.len(),
    ensures
        r.attachment_manifest@.len() == content.attachments@.len(),
        ({
            let (m, a) = (r.attachment_manifest@[i], content.attachments@[i]);
            &&& m.old_id@ == a.id@
            &&& m.new_id@ == attachment_ids[a.id@]@
            &&& m.filename@ == a.filename@
            &&& m.content_type@ == a.content_type@
            &&& m.size_bytes == a.size_bytes
        }),
{
    let v = content.attachments@;
    assert forall|i: int| 0 <= i < v.len() implies attachment_ids.contains_key(
        (#[trigger] v[i]).id@,
    ) by {}
    lemma_attachments_listed(v, attachment_ids);
    let views = instantiator::attachment_manifest_view(r.attachment_manifest@);
    assert(views.len() == r.attachment_manifest@.len());
    assert(views[i] == instantiator::attachment_entry(r.attachment_manifest@[i]));
}

// ---------------------------------------------------------------------------
// The documents and what is listed of them
// ---------------------------------------------------------------------------

proof fn lemma_loaded(
    v: Seq<TemplateDocument>,
    ids: Map<Seq<char>, String>,
    pairs: Seq<(String, String)>,
    out: Seq<(String, Doc)>,
    k: int,
    u: Seq<u8>,
) -> (n: int)
    requires
        instantiator::documents_loaded(v, ids, pairs, out),
        0 <= k < v.len(),
        ids.contains_key(v[k].id@),
        instantiator::document_update(text::opt_text(v[k].content_yjs), pairs) == Some(u),
    ensures
        0 <= n < out.len(),
        out[n].0@ == ids[v[k].id@]@,
        instantiator::holds_update(out[n].1, u),
    decreases v.len(),
{
    let w = v.drop_last();
    if k == v.len() - 1 {
        out.len() - 1
    } else {
        assert(w[k] == v[k]);
        let d = v.last();
        let more = instantiator::document_update(text::opt_text(d.content_yjs), pairs) is Some
            && ids.contains_key(d.id@);
        if more {
            lemma_loaded(w, ids, pairs, out.drop_last(), k, u)
        } else {
            lemma_loaded(w, ids, pairs, out, k, u)
        }
    }
}

proof fn lemma_manifest(v: Seq<TemplateDocument>, ids: Map<Seq<char>, String>)
    requires
        forall|i: int| 0 <= i < v.len() ==> ids.contains_key((#[trigger] v[i]).id@),
    ensures
        instantiator::manifest_of(v, ids).len() == v.len(),
        forall|i: int|
            0 <= i < v.len() ==> #[trigger] instantiator::manifest_of(v, ids)[i] == (
                ids[v[i].id@]@,
                v[i].title@,
            ),
    decreases v.len(),
{
    if v.len() > 0 {
        let w = v.drop_last();
        assert forall|i: int| 0 <= i < w.len() implies ids.contains_key((#[trigger] w[i]).id@) by {
            assert(w[i] == v[i]);
        }
        lemma_manifest(w, ids);
        assert(ids.contains_key(v[v.len() - 1].id@));
    }
}

proof fn lemma_files_listed(v: Seq<TemplateAttachment>, ids: Map<Seq<char>, String>)
    requires
        forall|i: int| 0 <= i < v.len() ==> ids.contains_key((#[trigger] v[i]).id@),
    ensures
        instantiator::attachment_manifest_of(v, ids).len() == v.len(),
        forall|i: int|
            0 <= i < v.len() ==> #[trigger] instantiator::attachment_manifest_of(v, ids)[i] == (
                v[i].id@,
                ids[v[i].id@]@,
                v[i].filename@,
                v[i].content_type@,
                v[i].size_bytes,
            ),
    decreases v.len(),
{
    if v.len() > 0 {
        let w = v.drop_last();
        assert forall|i: int| 0 <= i < w.len() implies ids.contains_key((#[trigger] w[i]).id@) by {
            assert(w[i] == v[i]);
        }
        lemma_files_listed(w, ids);
        assert(ids.contains_key(v[v.len() - 1].id@));
    }
}

/// A document whose content is an update, in which no id has to be replaced, is loaded with
/// that content under its new id.
pub proof fn lemma_document_loaded(
    content: TemplateContent,
    start: Date,
    prefix: Option<Seq<char>>,
    created_by: Seq<char>,
    new_space: Option<Seq<char>>,
    r: InstantiationResult,
    now: Seq<char>,
    doc_ids: Map<Seq<char>, String>,
    attachment_ids: Map<Seq<char>, String>,
    pairs: Seq<(String, String)>,
    shown: Map<Seq<char>, Vec<XmlIn>>,
    k: int,
    b: Seq<u8>,
)
    requires
        instantiator::instance_with(
            content,
            start,
            prefix,
            created_by,
            new_space,
            r,
            now,
            doc_ids,
            attachment_ids,
            pairs,
            shown,
        ),
        0 <= k < content.documents@.len(),
        content.documents@[k].content_yjs is Some,
        content.documents@[k].content_yjs->0@.len() > 0,
        codec::base64_bytes(content.documents@[k].content_yjs->0@) == Some(b),
        crate::update_scan::sound_update(b),
        ydoc::is_update(b),
        forall|i: int|
            0 <= i < pairs.len() ==> !blob::occurs_in(b, blob::utf8((#[trigger] pairs[i]).0@)),
    ensures
        exists|n: int|
            0 <= n < r.document_docs@.len() && (#[trigger] r.document_docs@[n]).0@
                == doc_ids[content.documents@[k].id@]@ && instantiator::holds_update(
                r.document_docs@[n].1,
                b,
            ),
{
    blob::lemma_remap_untouched(b, pairs);
    assert(doc_ids.contains_key(content.documents@[k].id@));
    let n = lemma_loaded(content.documents@, doc_ids, pairs, r.document_docs@, k, b);
}

/// The manifests list the documents and the attachments in order: a document with its new
/// id and its title, an attachment with both its ids, its name, its type and its size.
/// Where the template has an overview, it stands in the description of the space.
pub proof fn lemma_listed(
    content: TemplateContent,
    start: Date,
    prefix: Option<Seq<char>>,
    created_by: Seq<char>,
    new_space: Option<Seq<char>>,
    r: InstantiationResult,
    now: Seq<char>,
    doc_ids: Map<Seq<char>, String>,
    attachment_ids: Map<Seq<char>, String>,
    pairs: Seq<(String, String)>,
    shown: Map<Seq<char>, Vec<XmlIn>>,
)
    requires
        instantiator::instance_with(
            content,
            start,
            prefix,
            created_by,
            new_space,
            r,
            now,
            doc_ids,
            attachment_ids,
            pairs,
            shown,
        ),
    ensures
        r.document_manifest@.len() == content.documents@.len(),
        forall|i: int|
            0 <= i < content.documents@.len() ==> (#[trigger] r.document_manifest@[i]).new_id@
                == doc_ids[content.documents@[i].id@]@ && r.document_manifest@[i].title@
                == content.documents@[i].title@,
        r.attachment_manifest@.len() == content.attachments@.len(),
        forall|i: int|
            0 <= i < content.attachments@.len() ==> {
                let m = #[trigger] r.attachment_manifest@[i];
                let a = content.attachments@[i];
                &&& m.old_id@ == a.id@
                &&& m.new_id@ == attachment_ids[a.id@]@
                &&& m.filename@ == a.filename@
                &&& m.content_type@ == a.content_type@
                &&& m.size_bytes == a.size_bytes
            },
        ydoc::fragment_under(ydoc::doc_roots(r.space_doc), "description"@) == (
        match content.overview_yjs {
            Some(b) => Some(blob::blob_nodes(b@, shown)),
            None => None,
        }),
{
    let v = content.documents@;
    assert forall|i: int| 0 <= i < v.len() implies doc_ids.contains_key((#[trigger] v[i]).id@) by {}
    lemma_manifest(v, doc_ids);
    let view = instantiator::manifest_view(r.document_manifest@);
    assert(view.len() == v.len());
    assert forall|i: int| 0 <= i < v.len() implies (#[trigger] r.document_manifest@[i]).new_id@
        == doc_ids[v[i].id@]@ && r.document_manifest@[i].title@ == v[i].title@ by {
        assert(view[i] == (r.document_manifest@[i].new_id@, r.document_manifest@[i].title@));
    }
    let f = content.attachments@;
    assert forall|i: int| 0 <= i < f.len() implies attachment_ids.contains_key(
        (#[trigger] f[i]).id@,
    ) by {}
    lemma_files_listed(f, attachment_ids);
    let list = instantiator::attachment_manifest_view(r.attachment_manifest@);
    assert(list.len() == f.len());
    assert forall|i: int| 0 <= i < f.len() implies {
        let m = #[trigger] r.attachment_manifest@[i];
        let a = f[i];
        &&& m.old_id@ == a.id@
        &&& m.new_id@ == attachment_ids[a.id@]@
        &&& m.filename@ == a.filename@
        &&& m.content_type@ == a.content_type@
        &&& m.size_bytes == a.size_bytes
    } by {
        assert(list[i] == instantiator::attachment_entry(r.attachment_manifest@[i]));
    }
}

/// In the blobs of an instance the id of the space of the template gives way to the new
/// one, and those of attachments and documents to their new ids; no other id is replaced.
pub proof fn lemma_ids_replaced(
    content: TemplateContent,
    start: Date,
    prefix: Option<Seq<char>>,
    created_by: Seq<char>,
    new_space: Option<Seq<char>>,
    r: InstantiationResult,
    now: Seq<char>,
    doc_ids: Map<Seq<char>, String>,
    attachment_ids: Map<Seq<char>, String>,
    pairs: Seq<(String, String)>,
    shown: Map<Seq<char>, Vec<XmlIn>>,
    id: Seq<char>,
)
    requires
        instantiator::instance_with(
            content,
            start,
            prefix,
            created_by,
            new_space,
            r,
            now,
            doc_ids,
            attachment_ids,
            pairs,
            shown,
        ),
    ensures
        ({
            let map = crate::str_map::map_of(pairs);
            let is_space = content.source_space_id is Some && content.source_space_id->0@ == id
                && new_space is Some && new_space->0 != id;
            let is_file = exists|i: int|
                0 <= i < content.attachments@.len() && (#[trigger] content.attachments@[i]).id@
                    == id;
            let is_doc = exists|i: int|
                0 <= i < content.documents@.len() && (#[trigger] content.documents@[i]).id@ == id;
            &&& is_space ==> map.contains_key(id) && map[id]@ == new_space->0
            &&& !is_space && is_file ==> map.contains_key(id) && map[id]@ == attachment_ids[id]@
            &&& !is_space && !is_file && is_doc ==> map.contains_key(id) && map[id]@ == doc_ids[id]@
            &&& !is_space && !is_file && !is_doc ==> !map.contains_key(id)
        }),
{
    let map = crate::str_map::map_of(pairs);
    let base = doc_ids.union_prefer_right(attachment_ids);
    assert(doc_ids.contains_key(id) <==> exists|i: int|
        0 <= i < content.documents@.len() && (#[trigger] content.documents@[i]).id@ == id);
    assert(attachment_ids.contains_key(id) <==> exists|i: int|
        0 <= i < content.attachments@.len() && (#[trigger] content.attachments@[i]).id@ == id);
    match instantiator::space_pair(content, new_space) {
        None => {},
        Some((old, new)) => {
            if id != old {
                assert(map.remove(old).contains_key(id) == map.contains_key(id));
                assert(base.remove(old).contains_key(id) == base.contains_key(id));
                assert(map.contains_key(id) ==> map.remove(old)[id] == map[id]);
                assert(base.contains_key(id) ==> base.remove(old)[id] == base[id]);
            }
        },
    }
}

} // verus!
