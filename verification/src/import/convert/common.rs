//! What the converters share.

use vstd::prelude::*;
use vstd::string::StringExecFns;
use yrs::types::xml::XmlIn;

use crate::codec;
use crate::export::types::{
    ExportAttachment, ExportMilestoneDef, ExportMilestones, ExportSpaceMetadata,
};
use crate::markdown::block;
use crate::order::{self, Key, KeyView};
use crate::str_map::StrMap;
use crate::template::blob;
use crate::template::types::{
    TemplateLabelDef, TemplateLabelValue, TemplateLabels, TemplateViewDef, TemplateViews,
};
use crate::text;
use crate::update_scan;
use crate::yrs_xml_copy;

verus! {

// ---------------------------------------------------------------------------
// Ids
// ---------------------------------------------------------------------------

/// The id of an entity: the version-5 UUID for its kind and its id in the source.
pub open spec fn det(namespace: u128, kind: Seq<char>, id: Seq<char>) -> Seq<char> {
    codec::v5_uuid(namespace, kind + ":"@ + id)
}

/// The id of an entity. The kind keeps entities of different kinds apart that share
/// an id.
pub(crate) fn det_id(namespace: u128, kind: &str, id: &str) -> (r: String)
    ensures
        r@ == det(namespace, kind@, id@),
        codec::is_hyphenated(r@),
{
    let name = kind.to_owned().concat(":").concat(id);
    codec::uuid_v5(namespace, name.as_str())
}

/// The id of an entity, where there is one.
pub open spec fn opt_det(namespace: u128, kind: Seq<char>, id: Option<Seq<char>>) -> Option<
    Seq<char>,
> {
    match id {
        Some(i) => Some(det(namespace, kind, i)),
        None => None,
    }
}

// ---------------------------------------------------------------------------
// Slugs
// ---------------------------------------------------------------------------

pub open spec fn is_alnum(c: char) -> bool {
    text::is_digit(c) || ('a' <= c && c <= 'z') || ('A' <= c && c <= 'Z')
}

/// The lower-case letter for an upper-case one of ASCII, any other character as it
/// is.
pub open spec fn lower(c: char) -> char {
    if 'A' <= c && c <= 'Z' {
        ((c as u32) + 32) as char
    } else {
        c
    }
}

/// The text in lower case, as far as ASCII goes.
pub open spec fn lowered(s: Seq<char>) -> Seq<char> {
    s.map_values(|c: char| lower(c))
}

pub fn char_is_alnum(c: char) -> (r: bool)
    ensures
        r == is_alnum(c),
{
    ('0' <= c && c <= '9') || ('a' <= c && c <= 'z') || ('A' <= c && c <= 'Z')
}

pub fn to_lower(c: char) -> (r: char)
    ensures
        r == lower(c),
{
    if 'A' <= c && c <= 'Z' {
        let n: u8 = c as u8;
        (n + 32) as char
    } else {
        c
    }
}

pub(crate) fn lower_text(s: &[char]) -> (r: Vec<char>)
    ensures
        r@ == lowered(s@),
{
    let mut out: Vec<char> = Vec::new();
    let mut i: usize = 0;
    while i < s.len()
        invariant
            i <= s@.len(),
            out@ =~= lowered(s@.take(i as int)),
        decreases s@.len() - i,
    {
        out.push(to_lower(s[i]));
        i = i + 1;
    }
    assert(s@.take(s@.len() as int) =~= s@);
    out
}

/// The letters and digits in lower case, with one dash for each run of other
/// characters after the first of them.
pub open spec fn dashed(s: Seq<char>) -> Seq<char>
    decreases s.len(),
{
    if s.len() == 0 {
        seq![]
    } else {
        let rest = dashed(s.drop_last());
        if is_alnum(s.last()) {
            rest.push(lower(s.last()))
        } else if rest.len() > 0 && rest.last() != '-' {
            rest.push('-')
        } else {
            rest
        }
    }
}

/// `s` without a dash at its end.
pub open spec fn without_end_dash(s: Seq<char>) -> Seq<char> {
    if s.len() > 0 && s.last() == '-' {
        s.drop_last()
    } else {
        s
    }
}

/// The slug for a name.
pub open spec fn slug_of(name: Seq<char>) -> Seq<char> {
    let s = without_end_dash(dashed(name));
    if s.len() == 0 {
        "space"@
    } else {
        s
    }
}

/// A slug for a name: letters and digits in lower case, with dashes between them;
/// `space` where the name has neither.
pub fn slugify(name: &str) -> (r: String)
    ensures
        r@ == slug_of(name@),
{
    let chars = text::to_chars(name);
    let ghost all = name@;
    let mut slug: Vec<char> = Vec::new();
    let mut i: usize = 0;
    assert(all.take(0) =~= seq![]);
    while i < chars.len()
        invariant
            i <= all.len(),
            chars@ == all,
            slug@ == dashed(all.take(i as int)),
        decreases all.len() - i,
    {
        assert(all.take(i + 1).drop_last() =~= all.take(i as int));
        let c = chars[i];
        if char_is_alnum(c) {
            slug.push(to_lower(c));
        } else if slug.len() > 0 && slug[slug.len() - 1] != '-' {
            slug.push('-');
        }
        i = i + 1;
    }
    assert(all.take(all.len() as int) =~= all);
    let len: usize = slug.len();
    let end: usize = if len > 0 && slug[len - 1] == '-' {
        len - 1
    } else {
        len
    };
    assert(slug@.subrange(0, end as int) =~= without_end_dash(dashed(all)));
    if end == 0 {
        "space".to_owned()
    } else {
        text::to_text(vstd::slice::slice_subrange(slug.as_slice(), 0, end))
    }
}

/// What a slug may hold.
pub open spec fn is_slug_char(c: char) -> bool {
    text::is_digit(c) || ('a' <= c && c <= 'z') || c == '-'
}

proof fn lemma_dashed(s: Seq<char>)
    ensures
        forall|i: int| 0 <= i < dashed(s).len() ==> is_slug_char(#[trigger] dashed(s)[i]),
        dashed(s).len() > 0 ==> dashed(s)[0] != '-',
        forall|i: int, j: int|
            0 <= i && j == i + 1 && j < dashed(s).len() ==> !(#[trigger] dashed(s)[i] == '-'
                && #[trigger] dashed(s)[j] == '-'),
    decreases s.len(),
{
    if s.len() > 0 {
        lemma_dashed(s.drop_last());
    }
}

/// A slug is never empty, holds only lower-case letters, digits and dashes, and has
/// no dash at either end or beside another.
pub proof fn lemma_slug_shape(name: Seq<char>)
    ensures
        slug_of(name).len() > 0,
        forall|i: int| 0 <= i < slug_of(name).len() ==> is_slug_char(#[trigger] slug_of(name)[i]),
        slug_of(name)[0] != '-',
        slug_of(name).last() != '-',
        forall|i: int, j: int|
            0 <= i && j == i + 1 && j < slug_of(name).len() ==> !(#[trigger] slug_of(name)[i] == '-'
                && #[trigger] slug_of(name)[j] == '-'),
{
    lemma_dashed(name);
    reveal_strlit("space");
    let d = dashed(name);
    let s = slug_of(name);
    assert forall|i: int, j: int| 0 <= i && j == i + 1 && j < s.len() implies !(#[trigger] s[i] == '-'
        && #[trigger] s[j] == '-') by {
        if without_end_dash(d).len() > 0 {
            assert(s[i] == d[i] && s[j] == d[j]);
        }
    }
    if without_end_dash(d).len() > 0 && d.last() == '-' {
        let n = d.len() as int;
        assert(!(d[n - 2] == '-' && d[n - 1] == '-'));
    }
}

/// A text that has the shape of a slug so far.
spec fn is_slug_start(s: Seq<char>) -> bool {
    &&& forall|i: int| 0 <= i < s.len() ==> is_slug_char(#[trigger] s[i])
    &&& s.len() > 0 ==> s[0] != '-'
    &&& forall|i: int, j: int|
        0 <= i && j == i + 1 && j < s.len() ==> !(#[trigger] s[i] == '-' && #[trigger] s[j] == '-')
}

proof fn lemma_dashed_again(s: Seq<char>)
    requires
        is_slug_start(s),
    ensures
        dashed(s) == s,
    decreases s.len(),
{
    if s.len() > 0 {
        let n = s.len() as int;
        let init = s.drop_last();
        assert forall|i: int| 0 <= i < init.len() implies is_slug_char(#[trigger] init[i]) by {
            assert(init[i] == s[i]);
        }
        assert forall|i: int, j: int| 0 <= i && j == i + 1 && j < init.len() implies !(
        #[trigger] init[i] == '-' && #[trigger] init[j] == '-') by {
            assert(init[i] == s[i] && init[j] == s[j]);
        }
        lemma_dashed_again(init);
        assert(is_slug_char(s[n - 1]));
        if s[n - 1] == '-' && n > 1 {
            assert(!(s[n - 2] == '-' && s[n - 1] == '-'));
        }
        assert(init.push(s.last()) =~= s);
    } else {
        assert(dashed(s) =~= s);
    }
}

/// The slug of a slug is the slug.
pub proof fn lemma_slug_again(name: Seq<char>)
    ensures
        slug_of(slug_of(name)) == slug_of(name),
{
    lemma_slug_shape(name);
    lemma_dashed_again(slug_of(name));
}

// ---------------------------------------------------------------------------
// Rich text
// ---------------------------------------------------------------------------

/// Whether `b` is the blob for Markdown: nothing where there is only white space,
/// else one that holds the blocks under `content`.
pub open spec fn content_is(b: Option<String>, markdown: Seq<char>) -> bool {
    match b {
        None => text::trim_of(markdown).len() == 0,
        Some(s) => text::trim_of(markdown).len() > 0 && blob::blob_holds(
            s@,
            "content"@,
            block::markdown_blocks(markdown, Map::empty()),
        ),
    }
}

/// What an import or an instantiation takes from the blob for a Markdown text is the
/// blocks of the text, as long as no UUID to replace stands in the blob.
pub proof fn lemma_read_back(
    b: Option<String>,
    markdown: Seq<char>,
    pairs: Seq<(String, String)>,
    shown: Map<Seq<char>, Vec<XmlIn>>,
)
    requires
        content_is(b, markdown),
        b is Some,
        codec::base64_bytes(b->0@)->0.len() <= update_scan::MAX_CLOCK,
        forall|i: int|
            0 <= i < pairs.len() ==> !blob::occurs_in(
                codec::base64_bytes(b->0@)->0,
                blob::utf8((#[trigger] pairs[i]).0@),
            ),
        blob::all_copied(shown, pairs),
        blob::is_shown(b, shown),
    ensures
        blob::blob_nodes(b->0@, shown) == block::markdown_blocks(markdown, Map::empty()),
{
    let nodes = block::markdown_blocks(markdown, Map::empty());
    block::lemma_markdown_levels(markdown, Map::empty());
    yrs_xml_copy::lemma_within_more(
        nodes,
        block::BLOCK_LEVELS as int,
        yrs_xml_copy::MAX_COPY_DEPTH as int,
    );
    blob::lemma_held_copied(b->0@, "content"@, nodes, pairs, blob::blob_nodes(b->0@, shown));
}

/// Whether `s` holds nothing but white space.
pub(crate) fn is_blank(s: &str) -> (r: bool)
    ensures
        r == (text::trim_of(s@).len() == 0),
{
    let chars = text::to_chars(s);
    text::trim(chars.as_slice()).len() == 0
}

/// Encodes Markdown as a rich-text blob. Nothing comes of white space.
pub fn markdown_to_content_yjs(markdown: &str) -> (r: Option<String>)
    ensures
        content_is(r, markdown@),
{
    if is_blank(markdown) {
        return None;
    }
    let blocks = block::parse_blocks(markdown, None);
    Some(blob::encode_nodes("content", &blocks))
}

// ---------------------------------------------------------------------------
// Labels
// ---------------------------------------------------------------------------

/// A value of a label.
pub struct ValueView {
    pub id: Seq<char>,
    pub name: Seq<char>,
    pub color: Seq<char>,
    pub is_completion_state: bool,
    pub completion_prompt: Option<Seq<char>>,
    pub deprecated: bool,
    pub deprecated_at: Option<Seq<char>>,
    pub deprecated_by: Option<Seq<char>>,
}

/// A label.
pub struct LabelView {
    pub id: Seq<char>,
    pub name: Seq<char>,
    pub description: Seq<char>,
    pub icon: Seq<char>,
    pub values_order: Seq<Seq<char>>,
    pub values: Map<Seq<char>, ValueView>,
    pub deprecated: bool,
    pub deprecated_at: Option<Seq<char>>,
    pub deprecated_by: Option<Seq<char>>,
}

/// The labels of a space.
pub struct LabelsView {
    pub order: Seq<Seq<char>>,
    pub primary: Option<Seq<char>>,
    pub definitions: Map<Seq<char>, LabelView>,
}

pub open spec fn value_view(v: TemplateLabelValue) -> ValueView {
    ValueView {
        id: v.id@,
        name: v.name@,
        color: v.color@,
        is_completion_state: v.is_completion_state,
        completion_prompt: text::opt_text(v.completion_prompt),
        deprecated: v.deprecated,
        deprecated_at: text::opt_text(v.deprecated_at),
        deprecated_by: text::opt_text(v.deprecated_by),
    }
}

pub open spec fn label_view(d: TemplateLabelDef) -> LabelView {
    LabelView {
        id: d.id@,
        name: d.name@,
        description: d.description@,
        icon: d.icon@,
        values_order: text::texts(d.values_order@),
        values: d.values@.map_values(|v: TemplateLabelValue| value_view(v)),
        deprecated: d.deprecated,
        deprecated_at: text::opt_text(d.deprecated_at),
        deprecated_by: text::opt_text(d.deprecated_by),
    }
}

pub open spec fn labels_view(t: TemplateLabels) -> LabelsView {
    LabelsView {
        order: text::texts(t.order@),
        primary: text::opt_text(t.primary_label_id),
        definitions: t.definitions@.map_values(|d: TemplateLabelDef| label_view(d)),
    }
}

/// A value of a label that is neither deprecated nor prompts.
pub open spec fn plain_value(id: Seq<char>, name: Seq<char>, color: Seq<char>, done: bool) -> ValueView {
    ValueView {
        id,
        name,
        color,
        is_completion_state: done,
        completion_prompt: None,
        deprecated: false,
        deprecated_at: None,
        deprecated_by: None,
    }
}

/// The values by id. Of two with one id the later counts.
pub open spec fn value_map(v: Seq<ValueView>) -> Map<Seq<char>, ValueView>
    decreases v.len(),
{
    if v.len() == 0 {
        Map::empty()
    } else {
        value_map(v.drop_last()).insert(v.last().id, v.last())
    }
}

/// A label that is not deprecated and has no description.
pub open spec fn plain_label(id: Seq<char>, name: Seq<char>, icon: Seq<char>, v: Seq<ValueView>) -> LabelView {
    LabelView {
        id,
        name,
        description: ""@,
        icon,
        values_order: v.map_values(|x: ValueView| x.id),
        values: value_map(v),
        deprecated: false,
        deprecated_at: None,
        deprecated_by: None,
    }
}

/// The labels by id. Of two with one id the later counts.
pub open spec fn label_map(v: Seq<LabelView>) -> Map<Seq<char>, LabelView>
    decreases v.len(),
{
    if v.len() == 0 {
        Map::empty()
    } else {
        label_map(v.drop_last()).insert(v.last().id, v.last())
    }
}

/// The ids of labels.
pub open spec fn label_ids(v: Seq<LabelView>) -> Seq<Seq<char>> {
    v.map_values(|l: LabelView| l.id)
}

/// The labels of a space, of which the one with the id `status` is the primary one,
/// or else the first.
pub open spec fn labels_of(v: Seq<LabelView>, status: Seq<char>) -> LabelsView {
    LabelsView {
        order: label_ids(v),
        primary: if label_map(v).contains_key(status) {
            Some(status)
        } else if v.len() > 0 {
            Some(v[0].id)
        } else {
            None
        },
        definitions: label_map(v),
    }
}

/// What a value of a label comes from.
pub struct Candidate {
    /// The id in the source.
    pub id: String,
    /// By what values are ordered.
    pub rank: i64,
    pub by: String,
    pub name: String,
    pub color: String,
    pub done: bool,
}

/// What a candidate says.
pub struct CandidateView {
    pub id: Seq<char>,
    pub rank: int,
    pub by: Seq<char>,
    pub name: Seq<char>,
    pub color: Seq<char>,
    pub done: bool,
}

pub open spec fn candidate_view(c: Candidate) -> CandidateView {
    CandidateView {
        id: c.id@,
        rank: c.rank as int,
        by: c.by@,
        name: c.name@,
        color: c.color@,
        done: c.done,
    }
}

pub open spec fn candidate_views(v: Seq<Candidate>) -> Seq<CandidateView> {
    v.map_values(|c: Candidate| candidate_view(c))
}

pub open spec fn key_of(c: CandidateView) -> KeyView {
    KeyView { rank: c.rank, by: c.by }
}

/// The order of the candidates.
pub open spec fn candidate_order(v: Seq<CandidateView>) -> Seq<int> {
    order::order_of(v.map_values(|c: CandidateView| key_of(c)))
}

/// The value that a candidate gives.
pub open spec fn candidate_value(namespace: u128, kind: Seq<char>, c: CandidateView) -> ValueView {
    plain_value(det(namespace, kind, c.id), c.name, c.color, c.done)
}

/// The values that the candidates give, in order.
pub open spec fn candidate_values(namespace: u128, kind: Seq<char>, v: Seq<CandidateView>) -> Seq<
    ValueView,
> {
    candidate_order(v).map_values(|i: int| candidate_value(namespace, kind, v[i]))
}

/// The label for the candidates, if there are any.
pub open spec fn label_for(
    namespace: u128,
    kind: Seq<char>,
    id: Seq<char>,
    name: Seq<char>,
    icon: Seq<char>,
    v: Seq<CandidateView>,
) -> Seq<LabelView> {
    if v.len() == 0 {
        seq![]
    } else {
        seq![plain_label(id, name, icon, candidate_values(namespace, kind, v))]
    }
}

/// Whether a label with the id `label` has the value with the id `value`.
pub open spec fn offers(v: Seq<LabelView>, label: Seq<char>, value: Seq<char>) -> bool {
    exists|k: int|
        0 <= k < v.len() && (#[trigger] v[k]).id == label && v[k].values.contains_key(value)
}

/// Whether every value that `m` sets is one that its label has.
pub open spec fn all_offered(v: Seq<LabelView>, m: Map<Seq<char>, Seq<char>>) -> bool {
    forall|l: Seq<char>| #[trigger] m.contains_key(l) ==> offers(v, l, m[l])
}

proof fn lemma_value_map(v: Seq<ValueView>, k: int)
    requires
        0 <= k < v.len(),
    ensures
        value_map(v).contains_key(v[k].id),
    decreases v.len(),
{
    if k < v.len() - 1 {
        lemma_value_map(v.drop_last(), k);
    }
}

/// The label for some candidates has a value for each of them, and says of it what
/// the candidate says.
pub proof fn lemma_label_for(
    namespace: u128,
    kind: Seq<char>,
    id: Seq<char>,
    name: Seq<char>,
    icon: Seq<char>,
    v: Seq<CandidateView>,
    c: int,
)
    requires
        0 <= c < v.len(),
    ensures
        offers(label_for(namespace, kind, id, name, icon, v), id, det(namespace, kind, v[c].id)),
        candidate_values(namespace, kind, v).contains(candidate_value(namespace, kind, v[c])),
{
    let keys = v.map_values(|c: CandidateView| key_of(c));
    order::lemma_order(keys);
    let o = candidate_order(v);
    let values = candidate_values(namespace, kind, v);
    assert(o.contains(c));
    let k = choose|k: int| 0 <= k < o.len() && o[k] == c;
    assert(values[k] == candidate_value(namespace, kind, v[c]));
    lemma_value_map(values, k);
    assert(label_for(namespace, kind, id, name, icon, v)[0].id == id);
}

/// What either of two lists of labels has, both together have.
pub proof fn lemma_offers_append(
    a: Seq<LabelView>,
    b: Seq<LabelView>,
    label: Seq<char>,
    value: Seq<char>,
)
    requires
        offers(a, label, value) || offers(b, label, value),
    ensures
        offers(a + b, label, value),
{
    if offers(a, label, value) {
        let k = choose|k: int|
            0 <= k < a.len() && (#[trigger] a[k]).id == label && a[k].values.contains_key(value);
        assert((a + b)[k] == a[k]);
    } else {
        let k = choose|k: int|
            0 <= k < b.len() && (#[trigger] b[k]).id == label && b[k].values.contains_key(value);
        assert((a + b)[a.len() + k] == b[k]);
    }
}

pub(crate) proof fn lemma_label_map(v: Seq<LabelView>, k: int)
    requires
        0 <= k < v.len(),
        label_ids(v).no_duplicates(),
    ensures
        label_map(v).contains_key(v[k].id),
        label_map(v)[v[k].id] == v[k],
    decreases v.len(),
{
    assert(label_ids(v)[k] == v[k].id);
    assert(label_ids(v)[v.len() - 1] == v.last().id);
    if k < v.len() - 1 {
        assert(label_ids(v.drop_last()) =~= label_ids(v).drop_last());
        lemma_label_map(v.drop_last(), k);
    }
}

/// Where no two labels share an id, a label that is listed is defined, with the
/// values that it has.
pub proof fn lemma_offered_defined(
    t: TemplateLabels,
    v: Seq<LabelView>,
    status: Seq<char>,
    label: Seq<char>,
    value: Seq<char>,
)
    requires
        labels_view(t) == labels_of(v, status),
        text::texts(t.order@).no_duplicates(),
        offers(v, label, value),
    ensures
        t.definitions@.contains_key(label),
        t.definitions@[label].values@.contains_key(value),
{
    let k = choose|k: int|
        0 <= k < v.len() && (#[trigger] v[k]).id == label && v[k].values.contains_key(value);
    assert(labels_view(t).order == label_ids(v));
    lemma_label_map(v, k);
    let views = t.definitions@.map_values(|d: TemplateLabelDef| label_view(d));
    assert(views == label_map(v));
    assert(views.contains_key(label));
    assert(views[label] == label_view(t.definitions@[label]));
}

/// Where no two labels share an id, a label that is listed is defined as it stands in
/// the list.
pub proof fn lemma_listed_defined(t: TemplateLabels, v: Seq<LabelView>, status: Seq<char>, k: int)
    requires
        labels_view(t) == labels_of(v, status),
        text::texts(t.order@).no_duplicates(),
        0 <= k < v.len(),
    ensures
        t.definitions@.contains_key(v[k].id),
        label_view(t.definitions@[v[k].id]) == v[k],
{
    assert(labels_view(t).order == label_ids(v));
    lemma_label_map(v, k);
    let views = t.definitions@.map_values(|d: TemplateLabelDef| label_view(d));
    assert(views == label_map(v));
    assert(views.contains_key(v[k].id));
    assert(views[v[k].id] == label_view(t.definitions@[v[k].id]));
}

proof fn lemma_value_at(v: Seq<ValueView>, k: int)
    requires
        0 <= k < v.len(),
        forall|j: int| k < j < v.len() ==> (#[trigger] v[j]).id != v[k].id,
    ensures
        value_map(v).contains_key(v[k].id),
        value_map(v)[v[k].id] == v[k],
    decreases v.len(),
{
    if k < v.len() - 1 {
        let before = v.drop_last();
        assert forall|j: int| k < j < before.len() implies (#[trigger] before[j]).id
            != before[k].id by {
            assert(before[j] == v[j]);
        }
        lemma_value_at(before, k);
        assert(v[v.len() - 1].id != v[k].id);
    }
}

/// Whether a space has a label with the id `label` and the name `name`, and this has a
/// value with the id `value` that is so named and colored, and completes an item or not.
pub open spec fn defines(
    t: TemplateLabels,
    label: Seq<char>,
    name: Seq<char>,
    value: Seq<char>,
    value_name: Seq<char>,
    color: Seq<char>,
    done: bool,
) -> bool {
    &&& t.definitions@.contains_key(label)
    &&& t.definitions@[label].name@ == name
    &&& t.definitions@[label].values@.contains_key(value)
    &&& t.definitions@[label].values@[value].id@ == value
    &&& t.definitions@[label].values@[value].name@ == value_name
    &&& t.definitions@[label].values@[value].color@ == color
    &&& t.definitions@[label].values@[value].is_completion_state == done
    &&& !t.definitions@[label].values@[value].deprecated
}

/// Whether no two labels, and no two values of a label, share an id.
pub open spec fn ids_apart(t: TemplateLabels) -> bool {
    &&& text::texts(t.order@).no_duplicates()
    &&& forall|l: Seq<char>| #[trigger]
        t.definitions@.contains_key(l) ==> text::texts(
            t.definitions@[l].values_order@,
        ).no_duplicates()
}

/// A label that is listed for some candidates is defined with a value for each of them.
pub proof fn lemma_candidate_defined(
    t: TemplateLabels,
    list: Seq<LabelView>,
    status: Seq<char>,
    k: int,
    namespace: u128,
    kind: Seq<char>,
    id: Seq<char>,
    name: Seq<char>,
    icon: Seq<char>,
    v: Seq<CandidateView>,
    c: int,
)
    requires
        labels_view(t) == labels_of(list, status),
        ids_apart(t),
        0 <= k < list.len(),
        0 <= c < v.len(),
        label_for(namespace, kind, id, name, icon, v) == seq![list[k]],
    ensures
        defines(
            t,
            id,
            name,
            det(namespace, kind, v[c].id),
            v[c].name,
            v[c].color,
            v[c].done,
        ),
        t.definitions@[id].icon@ == icon,
        t.definitions@[id].description@ == ""@,
        !t.definitions@[id].deprecated,
{
    lemma_listed_defined(t, list, status, k);
    let label = list[k];
    let values = candidate_values(namespace, kind, v);
    assert(label_for(namespace, kind, id, name, icon, v)[0] == plain_label(id, name, icon, values));
    assert(label == plain_label(id, name, icon, values));
    let d = t.definitions@[id];
    order::lemma_order(v.map_values(|c: CandidateView| key_of(c)));
    let o = candidate_order(v);
    assert(o.contains(c));
    let j = choose|j: int| 0 <= j < o.len() && o[j] == c;
    assert(values[j] == candidate_value(namespace, kind, v[c]));
    assert(label.values_order == text::texts(d.values_order@));
    assert forall|i: int| j < i < values.len() implies (#[trigger] values[i]).id != values[j].id by {
        assert(label.values_order[i] == values[i].id);
        assert(label.values_order[j] == values[j].id);
    }
    lemma_value_at(values, j);
    let views = d.values@.map_values(|x: TemplateLabelValue| value_view(x));
    assert(views == value_map(values));
    assert(views.contains_key(values[j].id));
    assert(views[values[j].id] == value_view(d.values@[values[j].id]));
}

/// Whether one of the candidates has the id.
pub open spec fn known(v: Seq<CandidateView>, id: Seq<char>) -> bool {
    exists|i: int| 0 <= i < v.len() && (#[trigger] v[i]).id == id
}

pub(crate) fn is_known(v: &Vec<Candidate>, id: &str) -> (r: bool)
    ensures
        r == known(candidate_views(v@), id@),
{
    let ghost views = candidate_views(v@);
    let mut i: usize = 0;
    while i < v.len()
        invariant
            i <= v@.len(),
            views == candidate_views(v@),
            forall|k: int| 0 <= k < i ==> (#[trigger] views[k]).id != id@,
        decreases v@.len() - i,
    {
        assert(views[i as int].id == v@[i as int].id@);
        if text::str_eq(v[i].id.as_str(), id) {
            return true;
        }
        i = i + 1;
    }
    false
}

/// The candidates with one more, if its id is not empty and not there yet.
pub open spec fn with_new(v: Seq<CandidateView>, c: CandidateView) -> Seq<CandidateView> {
    if c.id.len() > 0 && !known(v, c.id) {
        v.push(c)
    } else {
        v
    }
}

/// Adds a candidate with an id that is not empty and not there yet.
pub(crate) fn add_new(v: &mut Vec<Candidate>, c: Candidate)
    ensures
        candidate_views(final(v)@) == with_new(candidate_views(old(v)@), candidate_view(c)),
{
    let ghost before = v@;
    let ghost cv = candidate_view(c);
    if !c.id.as_str().is_empty() && !is_known(v, c.id.as_str()) {
        v.push(c);
        assert(candidate_views(v@) =~= candidate_views(before).push(cv));
    }
}

/// The list of the labels of a space, while it is built.
pub struct LabelList {
    pub order: Vec<String>,
    pub definitions: StrMap<TemplateLabelDef>,
}

impl LabelList {
    /// Whether the list holds the labels.
    pub open spec fn holds(self, v: Seq<LabelView>) -> bool {
        &&& text::texts(self.order@) == label_ids(v)
        &&& self.definitions@.map_values(|d: TemplateLabelDef| label_view(d)) == label_map(v)
    }

    pub fn new() -> (r: Self)
        ensures
            r.holds(seq![]),
    {
        let r = LabelList { order: Vec::new(), definitions: StrMap::new() };
        assert(text::texts(r.order@) =~= label_ids(seq![]));
        assert(r.definitions@.map_values(|d: TemplateLabelDef| label_view(d)) =~= label_map(seq![]));
        r
    }

    fn push(&mut self, d: TemplateLabelDef)
        ensures
            forall|v: Seq<LabelView>| #[trigger]
                old(self).holds(v) ==> final(self).holds(v.push(label_view(d))),
    {
        let ghost was = *self;
        let id = d.id.clone();
        self.order.push(d.id.clone());
        self.definitions.insert(id, d);
        proof {
            assert forall|v: Seq<LabelView>| #[trigger] was.holds(v) implies self.holds(
                v.push(label_view(d)),
            ) by {
                let w = v.push(label_view(d));
                assert(w.drop_last() =~= v);
                assert(text::texts(self.order@) =~= text::texts(was.order@).push(d.id@));
                assert(label_ids(w) =~= label_ids(v).push(d.id@));
                assert(self.definitions@.map_values(|x: TemplateLabelDef| label_view(x))
                    =~= label_map(w));
            }
        }
    }

    /// Adds the label for the candidates, if there are any.
    pub fn add_label(
        &mut self,
        namespace: u128,
        kind: &str,
        id: &str,
        name: &str,
        icon: &str,
        v: &Vec<Candidate>,
    )
        ensures
            forall|l: Seq<LabelView>| #[trigger]
                old(self).holds(l) ==> final(self).holds(
                    l + label_for(namespace, kind@, id@, name@, icon@, candidate_views(v@)),
                ),
    {
        let ghost was = *self;
        if v.len() == 0 {
            proof {
                assert forall|l: Seq<LabelView>| #[trigger] was.holds(l) implies self.holds(
                    l + label_for(namespace, kind@, id@, name@, icon@, candidate_views(v@)),
                ) by {
                    assert(l + seq![] =~= l);
                }
            }
            return ;
        }
        let (values_order, values) = build_values(namespace, kind, v);
        let d = TemplateLabelDef {
            id: id.to_owned(),
            name: name.to_owned(),
            description: "".to_owned(),
            icon: icon.to_owned(),
            values_order,
            values,
            deprecated: false,
            deprecated_at: None,
            deprecated_by: None,
        };
        let ghost lv = label_view(d);
        self.push(d);
        proof {
            let label = label_for(namespace, kind@, id@, name@, icon@, candidate_views(v@));
            assert(label =~= seq![lv]);
            assert forall|l: Seq<LabelView>| #[trigger] was.holds(l) implies self.holds(
                l + label,
            ) by {
                assert(l + label =~= l.push(lv));
            }
        }
    }

    /// The labels, of which the one with the id `status` is the primary one, or else
    /// the first.
    pub fn into_labels(self, status: &str) -> (r: TemplateLabels)
        ensures
            forall|v: Seq<LabelView>| #[trigger]
                self.holds(v) ==> labels_view(r) == labels_of(v, status@),
    {
        let primary_label_id = if self.definitions.contains_key(status) {
            Some(status.to_owned())
        } else if self.order.len() > 0 {
            Some(self.order[0].clone())
        } else {
            None
        };
        let r = TemplateLabels {
            order: self.order,
            primary_label_id,
            definitions: self.definitions,
        };
        proof {
            assert forall|v: Seq<LabelView>| #[trigger] self.holds(v) implies labels_view(r)
                == labels_of(v, status@) by {
                assert(text::texts(self.order@).len() == label_ids(v).len());
                assert(self.definitions@.map_values(
                    |d: TemplateLabelDef| label_view(d),
                ).contains_key(status@) <==> label_map(v).contains_key(status@));
                if v.len() > 0 {
                    assert(text::texts(self.order@)[0] == label_ids(v)[0]);
                }
            }
        }
        r
    }
}

/// The ids and the values that the candidates give, in order.
fn build_values(namespace: u128, kind: &str, v: &Vec<Candidate>) -> (r: (
    Vec<String>,
    StrMap<TemplateLabelValue>,
))
    ensures
        ({
            let values = candidate_values(namespace, kind@, candidate_views(v@));
            &&& text::texts(r.0@) == values.map_values(|x: ValueView| x.id)
            &&& r.1@.map_values(|x: TemplateLabelValue| value_view(x)) == value_map(values)
        }),
{
    let ghost views = candidate_views(v@);
    let mut keys: Vec<Key> = Vec::new();
    let mut i: usize = 0;
    while i < v.len()
        invariant
            i <= v@.len(),
            keys@.len() == i,
            forall|k: int|
                0 <= k < i ==> (#[trigger] keys@[k]).rank == v@[k].rank && keys@[k].by@
                    == v@[k].by@,
        decreases v@.len() - i,
    {
        keys.push(Key { rank: v[i].rank, by: v[i].by.clone() });
        i = i + 1;
    }
    assert(order::key_views(keys@) =~= views.map_values(|c: CandidateView| key_of(c)));
    let order = order::sort_order(&keys);
    let ghost values = candidate_values(namespace, kind@, views);
    proof {
        order::lemma_order(order::key_views(keys@));
        assert(order::ints(order@).len() == order@.len());
        assert(values.len() == order@.len());
    }
    let mut values_order: Vec<String> = Vec::new();
    let mut map: StrMap<TemplateLabelValue> = StrMap::new();
    let mut n: usize = 0;
    assert(values.take(0) =~= seq![]);
    assert(text::texts(values_order@) =~= values.take(0).map_values(|x: ValueView| x.id));
    assert(map@.map_values(|x: TemplateLabelValue| value_view(x)) =~= value_map(values.take(0)));
    while n < order.len()
        invariant
            n <= order@.len(),
            views == candidate_views(v@),
            order::ints(order@) == candidate_order(views),
            values == candidate_values(namespace, kind@, views),
            values.len() == order@.len(),
            forall|k: int| 0 <= k < order@.len() ==> (#[trigger] order::ints(order@)[k]) < v@.len(),
            text::texts(values_order@) == values.take(n as int).map_values(|x: ValueView| x.id),
            map@.map_values(|x: TemplateLabelValue| value_view(x)) == value_map(
                values.take(n as int),
            ),
        decreases order@.len() - n,
    {
        assert(order::ints(order@)[n as int] == order@[n as int]);
        let c = &v[order[n]];
        let value_id = det_id(namespace, kind, c.id.as_str());
        let value = TemplateLabelValue {
            id: value_id.clone(),
            name: c.name.clone(),
            color: c.color.clone(),
            is_completion_state: c.done,
            completion_prompt: None,
            deprecated: false,
            deprecated_at: None,
            deprecated_by: None,
        };
        let ghost before = values_order@;
        let ghost was = map@;
        let ghost vv = value_view(value);
        values_order.push(value_id.clone());
        map.insert(value_id, value);
        proof {
            let t = values.take(n + 1);
            assert(views[order@[n as int] as int] == candidate_view(*c));
            assert(t.drop_last() =~= values.take(n as int));
            assert(t.last() == vv);
            assert(text::texts(values_order@) =~= text::texts(before).push(vv.id));
            assert(t.map_values(|x: ValueView| x.id) =~= values.take(n as int).map_values(
                |x: ValueView| x.id,
            ).push(vv.id));
            assert(map@.map_values(|x: TemplateLabelValue| value_view(x)) =~= value_map(t));
        }
        n = n + 1;
    }
    assert(values.take(values.len() as int) =~= values);
    (values_order, map)
}

// ---------------------------------------------------------------------------
// Attachments
// ---------------------------------------------------------------------------

/// What an attachment says.
pub struct AttachmentView {
    pub id: Seq<char>,
    pub filename: Seq<char>,
    pub content_type: Seq<char>,
    pub size_bytes: int,
    pub uploaded_by: Seq<char>,
    pub uploaded_at: Seq<char>,
    pub document_id: Option<Seq<char>>,
    pub orphaned: bool,
}

pub open spec fn attachment_view(a: ExportAttachment) -> AttachmentView {
    AttachmentView {
        id: a.id@,
        filename: a.filename@,
        content_type: a.content_type@,
        size_bytes: a.size_bytes as int,
        uploaded_by: a.uploaded_by@,
        uploaded_at: a.uploaded_at@,
        document_id: text::opt_text(a.document_id),
        orphaned: a.orphaned,
    }
}

pub open spec fn attachment_views(v: Seq<ExportAttachment>) -> Seq<AttachmentView> {
    v.map_values(|a: ExportAttachment| attachment_view(a))
}

/// The texts of a map.
pub open spec fn text_map(m: Map<Seq<char>, String>) -> Map<Seq<char>, Seq<char>> {
    m.map_values(|s: String| s@)
}

/// Sets a key of a map of texts.
pub(crate) fn put_text(m: &mut StrMap<String>, key: String, value: String)
    ensures
        text_map(final(m)@) == text_map(old(m)@).insert(key@, value@),
{
    let ghost before = m@;
    m.insert(key, value);
    assert(text_map(m@) =~= text_map(before).insert(key@, value@));
}

/// Attachments and the URLs to fetch them from, while they are gathered.
pub struct Attachments {
    pub list: Vec<ExportAttachment>,
    /// URL by attachment id.
    pub urls: StrMap<String>,
}

/// What has been gathered.
pub struct Gathered {
    pub list: Seq<AttachmentView>,
    pub urls: Map<Seq<char>, Seq<char>>,
}

impl View for Attachments {
    type V = Gathered;

    open spec fn view(&self) -> Gathered {
        Gathered { list: attachment_views(self.list@), urls: text_map(self.urls@) }
    }
}

/// Nothing has been gathered.
pub open spec fn none_gathered() -> Gathered {
    Gathered { list: seq![], urls: Map::empty() }
}

impl Attachments {
    pub fn new() -> (r: Self)
        ensures
            r@ == none_gathered(),
    {
        let r = Attachments { list: Vec::new(), urls: StrMap::new() };
        assert(attachment_views(r.list@) =~= seq![]);
        assert(text_map(r.urls@) =~= Map::empty());
        r
    }

    pub(crate) fn push(&mut self, a: ExportAttachment)
        ensures
            final(self)@ == (Gathered {
                list: old(self)@.list.push(attachment_view(a)),
                urls: old(self)@.urls,
            }),
    {
        let ghost before = self.list@;
        let ghost av = attachment_view(a);
        self.list.push(a);
        assert(attachment_views(self.list@) =~= attachment_views(before).push(av));
    }

    pub(crate) fn put_url(&mut self, id: String, url: String)
        ensures
            final(self)@ == (Gathered {
                list: old(self)@.list,
                urls: old(self)@.urls.insert(id@, url@),
            }),
    {
        let ghost before = self.urls@;
        self.urls.insert(id, url);
        assert(text_map(self.urls@) =~= text_map(before).insert(id@, url@));
    }
}

/// The path under which a space serves an attachment.
pub open spec fn route_of(space: Seq<char>, attachment: Seq<char>) -> Seq<char> {
    "/api/spaces/"@ + space + "/attachments/"@ + attachment
}

pub(crate) fn route(space: &str, attachment: &str) -> (r: String)
    ensures
        r@ == route_of(space@, attachment@),
{
    "/api/spaces/".to_owned().concat(space).concat("/attachments/").concat(attachment)
}

// ---------------------------------------------------------------------------
// Views and the space
// ---------------------------------------------------------------------------

/// Whether `v` is a board of items with the given columns.
pub open spec fn is_board(
    v: TemplateViewDef,
    id: Seq<char>,
    name: Seq<char>,
    columns: Seq<char>,
    sort_order: Seq<char>,
) -> bool {
    &&& v.id@ == id
    &&& v.name@ == name
    &&& v.content_type@ == "items"@
    &&& v.view_type@ == "board"@
    &&& text::opt_text(v.column_grouping) == Some(columns)
    &&& v.row_grouping is None
    &&& v.sort_order@ == sort_order
    &&& !v.show_archived
    &&& v.filters is None
    &&& v.zoom_level is None
}

/// Whether the views are a board by status and, for a space with cycles, one by
/// cycle with the given id and name. Where the two ids are one, the later view
/// counts.
pub open spec fn views_are(
    t: TemplateViews,
    by_status: Seq<char>,
    status: Seq<char>,
    cycles: Option<(Seq<char>, Seq<char>)>,
) -> bool {
    let defs = t.definitions@;
    match cycles {
        None => {
            &&& text::texts(t.order@) == seq![by_status]
            &&& defs.dom() == Set::empty().insert(by_status)
            &&& is_board(defs[by_status], by_status, "By Status"@, status, "0"@)
        },
        Some((by_cycle, name)) => {
            &&& text::texts(t.order@) == seq![by_status, by_cycle]
            &&& defs.dom() == Set::empty().insert(by_status).insert(by_cycle)
            &&& is_board(defs[by_cycle], by_cycle, name, "cycle"@, "1"@)
            &&& by_status != by_cycle ==> is_board(
                defs[by_status],
                by_status,
                "By Status"@,
                status,
                "0"@,
            )
        },
    }
}

fn board(id: &str, name: &str, columns: &str, sort_order: &str) -> (r: TemplateViewDef)
    ensures
        is_board(r, id@, name@, columns@, sort_order@),
{
    TemplateViewDef {
        id: id.to_owned(),
        name: name.to_owned(),
        content_type: "items".to_owned(),
        view_type: "board".to_owned(),
        column_grouping: Some(columns.to_owned()),
        row_grouping: None,
        sort_order: sort_order.to_owned(),
        show_archived: false,
        filters: None,
        zoom_level: None,
    }
}

/// The views of a converted space: always by status, and by cycle where the space
/// has cycles.
pub(crate) fn build_boards(by_status: &str, status: &str, cycles: Option<(&str, &str)>) -> (r:
    TemplateViews)
    ensures
        views_are(
            r,
            by_status@,
            status@,
            (match cycles {
                Some((id, name)) => Some((id@, name@)),
                None => None,
            }),
        ),
{
    let mut order: Vec<String> = Vec::new();
    let mut definitions: StrMap<TemplateViewDef> = StrMap::new();
    order.push(by_status.to_owned());
    definitions.insert(by_status.to_owned(), board(by_status, "By Status", status, "0"));
    assert(text::texts(order@) =~= seq![by_status@]);
    assert(definitions@.dom() =~= Set::empty().insert(by_status@));
    if let Some((by_cycle, name)) = cycles {
        order.push(by_cycle.to_owned());
        definitions.insert(by_cycle.to_owned(), board(by_cycle, name, "cycle", "1"));
        assert(text::texts(order@) =~= seq![by_status@, by_cycle@]);
        assert(definitions@.dom() =~= Set::empty().insert(by_status@).insert(by_cycle@));
    }
    TemplateViews { order, definitions }
}

/// Whether `s` describes a space that was converted at the time `now`.
pub open spec fn space_is(
    s: ExportSpaceMetadata,
    id: Seq<char>,
    name: Seq<char>,
    prefix: Seq<char>,
    now: Seq<char>,
) -> bool {
    &&& s.id@ == id
    &&& s.name@ == name
    &&& s.slug@ == slug_of(name)
    &&& s.region@ == "eu"@
    &&& text::opt_text(s.short_id_prefix) == Some(prefix)
    &&& s.short_id_visible
    &&& s.created_at@ == now
}

pub(crate) fn space_metadata(id: &str, name: &str, prefix: &str, now: &str) -> (r:
    ExportSpaceMetadata)
    ensures
        space_is(r, id@, name@, prefix@, now@),
{
    ExportSpaceMetadata {
        id: id.to_owned(),
        name: name.to_owned(),
        slug: slugify(name),
        region: "eu".to_owned(),
        short_id_prefix: Some(prefix.to_owned()),
        short_id_visible: true,
        created_at: now.to_owned(),
    }
}

/// The text, or the other one where it is empty.
pub open spec fn or_if_empty(s: Seq<char>, other: Seq<char>) -> Seq<char> {
    if s.len() == 0 {
        other
    } else {
        s
    }
}

pub(crate) fn text_or_if_empty<'a>(s: &'a str, other: &'a str) -> (r: &'a str)
    ensures
        r@ == or_if_empty(s@, other@),
{
    if s.is_empty() {
        other
    } else {
        s
    }
}

/// The text, or an empty one.
pub open spec fn or_empty(o: Option<String>) -> Seq<char> {
    match o {
        Some(s) => s@,
        None => ""@,
    }
}

pub(crate) fn text_or_empty(o: &Option<String>) -> (r: String)
    ensures
        r@ == or_empty(*o),
{
    match o {
        Some(s) => s.clone(),
        None => "".to_owned(),
    }
}

// ---------------------------------------------------------------------------
// Lists of texts
// ---------------------------------------------------------------------------

/// The list with one more text, if it is not there yet.
pub open spec fn with_text(v: Seq<Seq<char>>, s: Seq<char>) -> Seq<Seq<char>> {
    if v.contains(s) {
        v
    } else {
        v.push(s)
    }
}

/// Adds a text that is not there yet.
pub(crate) fn add_text(v: &mut Vec<String>, s: &str)
    ensures
        text::texts(final(v)@) == with_text(text::texts(old(v)@), s@),
{
    let ghost before = v@;
    let ghost all = text::texts(v@);
    let mut i: usize = 0;
    while i < v.len()
        invariant
            i <= v@.len(),
            all == text::texts(v@),
            v@ == before,
            forall|k: int| 0 <= k < i ==> #[trigger] all[k] != s@,
        decreases v@.len() - i,
    {
        assert(all[i as int] == v@[i as int]@);
        if text::str_eq(v[i].as_str(), s) {
            return ;
        }
        i = i + 1;
    }
    v.push(s.to_owned());
    assert(text::texts(v@) =~= all.push(s@));
}

/// The last position of a text in a list.
pub open spec fn index_of(v: Seq<Seq<char>>, id: Seq<char>) -> Option<int>
    decreases v.len(),
{
    if v.len() == 0 {
        None
    } else if v.last() == id {
        Some(v.len() - 1)
    } else {
        index_of(v.drop_last(), id)
    }
}

/// A position that is found is one of the list.
pub proof fn lemma_index_of(v: Seq<Seq<char>>, id: Seq<char>)
    ensures
        match index_of(v, id) {
            Some(i) => 0 <= i < v.len() && v[i] == id,
            None => !v.contains(id),
        },
    decreases v.len(),
{
    if v.len() > 0 && v.last() != id {
        lemma_index_of(v.drop_last(), id);
        if v.contains(id) {
            let i = choose|i: int| 0 <= i < v.len() && v[i] == id;
            assert(v.drop_last()[i] == id);
        }
    }
}

/// The last position of a text is found.
pub proof fn lemma_last_index(v: Seq<Seq<char>>, k: int)
    requires
        0 <= k < v.len(),
        forall|i: int| k < i < v.len() ==> #[trigger] v[i] != v[k],
    ensures
        index_of(v, v[k]) == Some(k),
    decreases v.len(),
{
    if k < v.len() - 1 {
        assert(v[v.len() - 1] != v[k]);
        let w = v.drop_last();
        assert forall|i: int| k < i < w.len() implies #[trigger] w[i] != w[k] by {
            assert(w[i] == v[i]);
        }
        lemma_last_index(w, k);
    }
}

/// Whether the index gives the last position of each text.
pub open spec fn is_index(m: Map<Seq<char>, usize>, v: Seq<Seq<char>>) -> bool {
    forall|k: Seq<char>|
        match index_of(v, k) {
            Some(i) => #[trigger] m.contains_key(k) && m[k] == i,
            None => !m.contains_key(k),
        }
}

pub(crate) fn build_index(v: &Vec<String>) -> (r: StrMap<usize>)
    ensures
        is_index(r@, text::texts(v@)),
{
    let ghost all = text::texts(v@);
    let mut m: StrMap<usize> = StrMap::new();
    let mut i: usize = 0;
    assert(all.take(0) =~= seq![]);
    while i < v.len()
        invariant
            i <= v@.len(),
            all == text::texts(v@),
            is_index(m@, all.take(i as int)),
        decreases v@.len() - i,
    {
        let ghost before = m@;
        m.insert(v[i].clone(), i);
        proof {
            let t = all.take(i + 1);
            assert(t.drop_last() =~= all.take(i as int));
            assert(t.last() == v@[i as int]@);
            assert forall|k: Seq<char>|
                match index_of(t, k) {
                    Some(j) => #[trigger] m@.contains_key(k) && m@[k] == j,
                    None => !m@.contains_key(k),
                } by {
                assert(before.contains_key(k) || !before.contains_key(k));
            }
        }
        i = i + 1;
    }
    assert(all.take(all.len() as int) =~= all);
    m
}

/// Looks up the last position of a text.
pub(crate) fn position_of(m: &StrMap<usize>, Ghost(v): Ghost<Seq<Seq<char>>>, id: &str) -> (r: Option<
    usize,
>)
    requires
        is_index(m@, v),
    ensures
        text::opt_pos(r) == index_of(v, id@),
        r is Some ==> r->0 < v.len() && v[r->0 as int] == id@,
        r is None ==> !v.contains(id@),
{
    proof {
        lemma_index_of(v, id@);
        assert(m@.contains_key(id@) || !m@.contains_key(id@));
    }
    match m.get(id) {
        Some(i) => Some(*i),
        None => None,
    }
}

// ---------------------------------------------------------------------------
// Milestones
// ---------------------------------------------------------------------------

/// What a milestone says.
pub struct MilestoneView {
    pub id: Seq<char>,
    pub name: Seq<char>,
    pub description: Option<Seq<char>>,
    pub deadline: Option<Seq<char>>,
    pub deprecated: bool,
}

/// The milestones of a space.
pub struct MilestonesView {
    pub order: Seq<Seq<char>>,
    pub definitions: Map<Seq<char>, MilestoneView>,
}

pub open spec fn milestone_view(m: ExportMilestoneDef) -> MilestoneView {
    MilestoneView {
        id: m.id@,
        name: m.name@,
        description: text::opt_text(m.description),
        deadline: text::opt_text(m.deadline),
        deprecated: m.deprecated,
    }
}

pub open spec fn milestones_view(m: ExportMilestones) -> MilestonesView {
    MilestonesView {
        order: text::texts(m.order@),
        definitions: m.definitions@.map_values(|d: ExportMilestoneDef| milestone_view(d)),
    }
}

/// There are no milestones.
pub open spec fn no_milestones() -> MilestonesView {
    MilestonesView { order: seq![], definitions: Map::empty() }
}

/// The milestones with one more, if its id is new.
pub open spec fn with_milestone(v: MilestonesView, m: MilestoneView) -> MilestonesView {
    if v.definitions.contains_key(m.id) {
        v
    } else {
        MilestonesView { order: v.order.push(m.id), definitions: v.definitions.insert(m.id, m) }
    }
}

pub(crate) fn new_milestones() -> (r: ExportMilestones)
    ensures
        milestones_view(r) == no_milestones(),
{
    let r = ExportMilestones { order: Vec::new(), definitions: StrMap::new() };
    assert(milestones_view(r).order =~= seq![]);
    assert(milestones_view(r).definitions =~= Map::empty());
    r
}

/// Adds a milestone, if its id is new.
pub(crate) fn add_milestone(v: &mut ExportMilestones, m: ExportMilestoneDef)
    ensures
        milestones_view(*final(v)) == with_milestone(milestones_view(*old(v)), milestone_view(m)),
{
    let ghost was = milestones_view(*v);
    let ghost mv = milestone_view(m);
    assert(was.definitions.contains_key(m.id@) == v.definitions@.contains_key(m.id@));
    if !v.definitions.contains_key(m.id.as_str()) {
        let id = m.id.clone();
        v.order.push(m.id.clone());
        v.definitions.insert(id, m);
        assert(milestones_view(*v).order =~= was.order.push(mv.id));
        assert(milestones_view(*v).definitions =~= was.definitions.insert(mv.id, mv));
    }
}

/// Whether one text stands before another in a list.
pub open spec fn before(v: Seq<Seq<char>>, a: Seq<char>, b: Seq<char>) -> bool {
    exists|i: int, j: int| 0 <= i < j < v.len() && #[trigger] v[i] == a && #[trigger] v[j] == b
}

/// Of the values of a label the one of lesser rank comes first; of equal ranks the one whose
/// text comes first; and of equal texts the one that is listed first.
pub proof fn lemma_candidate_before(
    t: TemplateLabels,
    list: Seq<LabelView>,
    status: Seq<char>,
    k: int,
    namespace: u128,
    kind: Seq<char>,
    id: Seq<char>,
    name: Seq<char>,
    icon: Seq<char>,
    v: Seq<CandidateView>,
    a: int,
    b: int,
)
    requires
        labels_view(t) == labels_of(list, status),
        ids_apart(t),
        0 <= k < list.len(),
        0 <= a < v.len(),
        0 <= b < v.len(),
        label_for(namespace, kind, id, name, icon, v) == seq![list[k]],
        v[a].rank < v[b].rank || (v[a].rank == v[b].rank && (if v[a].by == v[b].by {
            a < b
        } else {
            order::lex_le(v[a].by, v[b].by)
        })),
    ensures
        before(
            text::texts(t.definitions@[id].values_order@),
            det(namespace, kind, v[a].id),
            det(namespace, kind, v[b].id),
        ),
{
    lemma_listed_defined(t, list, status, k);
    let label = list[k];
    let values = candidate_values(namespace, kind, v);
    assert(label_for(namespace, kind, id, name, icon, v)[0] == plain_label(id, name, icon, values));
    let keys = v.map_values(|c: CandidateView| key_of(c));
    order::lemma_order(keys);
    let o = candidate_order(v);
    assert(o.contains(a) && o.contains(b));
    let i = choose|i: int| 0 <= i < o.len() && o[i] == a;
    let j = choose|j: int| 0 <= j < o.len() && o[j] == b;
    assert(keys[a] == key_of(v[a]) && keys[b] == key_of(v[b]));
    if j < i {
        order::lemma_ordered_by(keys, j, i);
        if v[a].by != v[b].by {
            order::lemma_lex_antisymmetric(v[a].by, v[b].by);
        }
    }
    let out = text::texts(t.definitions@[id].values_order@);
    assert(label.values_order == out);
    assert(out[i] == values[i].id && values[i] == candidate_value(namespace, kind, v[a]));
    assert(out[j] == values[j].id && values[j] == candidate_value(namespace, kind, v[b]));
}

/// The letters of the alphabet are written in lower case, and every other character stays
/// as it is.
pub proof fn lemma_lowered()
    ensures
        lowered("ABCDEFGHIJKLMNOPQRSTUVWXYZ"@) == "abcdefghijklmnopqrstuvwxyz"@,
        forall|c: char| !('A' <= c && c <= 'Z') ==> #[trigger] lower(c) == c,
{
    reveal_strlit("ABCDEFGHIJKLMNOPQRSTUVWXYZ");
    reveal_strlit("abcdefghijklmnopqrstuvwxyz");
    assert(lowered("ABCDEFGHIJKLMNOPQRSTUVWXYZ"@) =~= "abcdefghijklmnopqrstuvwxyz"@);
}

proof fn lemma_dashed_word(s: Seq<char>, w: Seq<char>)
    requires
        forall|i: int| 0 <= i < w.len() ==> is_alnum(#[trigger] w[i]),
    ensures
        dashed(s + w) == dashed(s) + lowered(w),
    decreases w.len(),
{
    if w.len() == 0 {
        assert(s + w =~= s);
        assert(dashed(s) + lowered(w) =~= dashed(s));
    } else {
        let x = w.drop_last();
        lemma_dashed_word(s, x);
        assert((s + w).drop_last() =~= s + x);
        assert((s + w).last() == w[w.len() - 1]);
        assert(dashed(s + w) =~= dashed(s) + lowered(w));
    }
}

proof fn lemma_dashed_gap(s: Seq<char>, gap: Seq<char>)
    requires
        dashed(s).len() > 0,
        dashed(s).last() != '-',
        forall|i: int| 0 <= i < gap.len() ==> !is_alnum(#[trigger] gap[i]),
    ensures
        gap.len() > 0 ==> dashed(s + gap) == dashed(s).push('-'),
    decreases gap.len(),
{
    if gap.len() > 0 {
        let x = gap.drop_last();
        lemma_dashed_gap(s, x);
        assert((s + gap).drop_last() =~= s + x);
        assert((s + gap).last() == gap[gap.len() - 1]);
        if x.len() == 0 {
            assert(s + x =~= s);
        }
    }
}

proof fn lemma_dashed_none(s: Seq<char>)
    requires
        forall|i: int| 0 <= i < s.len() ==> !is_alnum(#[trigger] s[i]),
    ensures
        dashed(s).len() == 0,
    decreases s.len(),
{
    if s.len() > 0 {
        lemma_dashed_none(s.drop_last());
        assert(!is_alnum(s[s.len() - 1]));
    }
}

/// The slug of a name with two words is made of both in lower case with a dash between
/// them, whatever stands before, between and behind the words; that of a name without
/// letters and digits is `space`.
pub proof fn lemma_slug_words(
    front: Seq<char>,
    a: Seq<char>,
    gap: Seq<char>,
    b: Seq<char>,
    back: Seq<char>,
)
    requires
        a.len() > 0,
        b.len() > 0,
        gap.len() > 0,
        forall|i: int| 0 <= i < a.len() ==> is_alnum(#[trigger] a[i]),
        forall|i: int| 0 <= i < b.len() ==> is_alnum(#[trigger] b[i]),
        forall|i: int| 0 <= i < gap.len() ==> !is_alnum(#[trigger] gap[i]),
        forall|i: int| 0 <= i < front.len() ==> !is_alnum(#[trigger] front[i]),
        forall|i: int| 0 <= i < back.len() ==> !is_alnum(#[trigger] back[i]),
    ensures
        slug_of(front + a + gap + b + back) == lowered(a) + "-"@ + lowered(b),
        slug_of(front) == "space"@,
{
    reveal_strlit("-");
    lemma_dashed_none(front);
    lemma_dashed_word(front, a);
    assert(dashed(front) =~= seq![]);
    assert(dashed(front + a) =~= lowered(a));
    assert(is_alnum(a[a.len() - 1]));
    assert(lowered(a).last() == lower(a[a.len() - 1]));
    lemma_dashed_gap(front + a, gap);
    lemma_dashed_word(front + a + gap, b);
    let s = lowered(a) + "-"@ + lowered(b);
    assert(dashed(front + a + gap + b) =~= s);
    assert(is_alnum(b[b.len() - 1]));
    assert(s.last() == lower(b[b.len() - 1]));
    lemma_dashed_gap(front + a + gap + b, back);
    if back.len() == 0 {
        assert(front + a + gap + b + back =~= front + a + gap + b);
    } else {
        assert(s.push('-').drop_last() =~= s);
    }
}

} // verus!
