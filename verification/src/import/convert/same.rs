//! When two exports say the same.
//!
//! An export tells when it was made. Two exports of one source differ in that, and in
//! the bytes of their rich-text blobs, which carry ids of their own.

use vstd::prelude::*;

use crate::codec;
use crate::export::types::{
    ExportComment, ExportCycle, ExportDocument, ExportItem, ExportSpaceMetadata, ExportUser,
    SpaceExport,
};
use crate::import::convert::common::{
    self, AttachmentView, Gathered, content_is, text_map, views_are,
};
use crate::rich_text::XmlTree;
use crate::template::types::{TemplateViewDef, TemplateViews};
use crate::text;
use crate::ydoc;

verus! {

/// The nodes that a blob holds under `content`.
pub open spec fn blob_content(b: Option<String>) -> Option<Seq<XmlTree>> {
    match b {
        None => None,
        Some(s) => match codec::base64_bytes(s@) {
            Some(u) => Some(ydoc::nodes_or_none(ydoc::update_fragment(u, "content"@))),
            None => None,
        },
    }
}

/// Whether two blobs hold the same.
pub open spec fn same_blob(a: Option<String>, b: Option<String>) -> bool {
    &&& a is Some <==> b is Some
    &&& blob_content(a) == blob_content(b)
}

pub open spec fn same_user(a: ExportUser, b: ExportUser) -> bool {
    &&& a.id@ == b.id@
    &&& a.display_name@ == b.display_name@
    &&& text::opt_text(a.email) == text::opt_text(b.email)
}

pub open spec fn same_cycle(a: ExportCycle, b: ExportCycle) -> bool {
    &&& a.id@ == b.id@
    &&& a.name@ == b.name@
    &&& a.start_date@ == b.start_date@
    &&& a.end_date@ == b.end_date@
    &&& a.archived == b.archived
}

pub open spec fn same_comment(a: ExportComment, b: ExportComment) -> bool {
    &&& a.id@ == b.id@
    &&& a.author_id@ == b.author_id@
    &&& text::opt_text(a.author_name) == text::opt_text(b.author_name)
    &&& text::opt_text(a.content_text) == text::opt_text(b.content_text)
    &&& same_blob(a.content_yjs, b.content_yjs)
    &&& text::opt_text(a.created_at) == text::opt_text(b.created_at)
    &&& text::opt_text(a.edited_at) == text::opt_text(b.edited_at)
    &&& a.deleted == b.deleted
    &&& text::opt_text(a.deleted_at) == text::opt_text(b.deleted_at)
    &&& text::opt_text(a.parent_id) == text::opt_text(b.parent_id)
}

/// Whether two lists of comments say the same.
pub open spec fn same_comments(a: Seq<ExportComment>, b: Seq<ExportComment>) -> bool {
    a.len() == b.len() && forall|i: int| 0 <= i < a.len() ==> same_comment(#[trigger] a[i], b[i])
}

/// Whether two items say the same, comments apart.
pub open spec fn same_item_fields(a: ExportItem, b: ExportItem) -> bool {
    &&& a.id@ == b.id@
    &&& a.short_id == b.short_id
    &&& a.title@ == b.title@
    &&& text::opt_text(a.description_text) == text::opt_text(b.description_text)
    &&& same_blob(a.description_yjs, b.description_yjs)
    &&& text_map(a.labels@) == text_map(b.labels@)
    &&& text::texts(a.assignee_user_ids@) == text::texts(b.assignee_user_ids@)
    &&& text::texts(a.assignee_team_ids@) == text::texts(b.assignee_team_ids@)
    &&& text::opt_text(a.due_date) == text::opt_text(b.due_date)
    &&& text::opt_text(a.start_date) == text::opt_text(b.start_date)
    &&& text::opt_text(a.milestone_id) == text::opt_text(b.milestone_id)
    &&& text::opt_text(a.cycle_id) == text::opt_text(b.cycle_id)
    &&& text::opt_text(a.parent_id) == text::opt_text(b.parent_id)
    &&& text::texts(a.blocked_by@) == text::texts(b.blocked_by@)
    &&& text::opt_text(a.duplicate_of) == text::opt_text(b.duplicate_of)
    &&& a.archived == b.archived
    &&& a.deep_archived == b.deep_archived
    &&& text::opt_text(a.created_at) == text::opt_text(b.created_at)
    &&& text::opt_text(a.created_by) == text::opt_text(b.created_by)
    &&& text::opt_text(a.updated_at) == text::opt_text(b.updated_at)
    &&& text::opt_text(a.archived_at) == text::opt_text(b.archived_at)
    &&& text::opt_text(a.completion_prompt) == text::opt_text(b.completion_prompt)
    &&& text::opt_text(a.completion_note_text) == text::opt_text(b.completion_note_text)
    &&& same_blob(a.completion_note_yjs, b.completion_note_yjs)
}

pub open spec fn same_item(a: ExportItem, b: ExportItem) -> bool {
    same_item_fields(a, b) && same_comments(a.comments@, b.comments@)
}

pub open spec fn same_document(a: ExportDocument, b: ExportDocument) -> bool {
    &&& a.id@ == b.id@
    &&& a.title@ == b.title@
    &&& text_map(a.labels@) == text_map(b.labels@)
    &&& text::opt_text(a.content_text) == text::opt_text(b.content_text)
    &&& same_blob(a.content_yjs, b.content_yjs)
    &&& a.archived == b.archived
    &&& text::texts(a.owner_user_ids@) == text::texts(b.owner_user_ids@)
    &&& text::texts(a.owner_team_ids@) == text::texts(b.owner_team_ids@)
    &&& text::opt_text(a.parent_item_id) == text::opt_text(b.parent_item_id)
    &&& text::opt_text(a.parent_milestone_id) == text::opt_text(b.parent_milestone_id)
    &&& a.review_cadence_days == b.review_cadence_days
    &&& text::opt_text(a.last_reviewed_at) == text::opt_text(b.last_reviewed_at)
    &&& a.is_template == b.is_template
    &&& text::opt_text(a.forked_from) == text::opt_text(b.forked_from)
    &&& text::opt_text(a.created_at) == text::opt_text(b.created_at)
    &&& text::opt_text(a.created_by) == text::opt_text(b.created_by)
    &&& text::opt_text(a.updated_at) == text::opt_text(b.updated_at)
    &&& text::opt_text(a.archived_at) == text::opt_text(b.archived_at)
}

/// Whether two attachments say the same, but for the time of their upload.
pub open spec fn same_attachment(a: AttachmentView, b: AttachmentView) -> bool {
    a == (AttachmentView { uploaded_at: a.uploaded_at, ..b })
}

/// Whether two lists of attachments say the same.
pub open spec fn same_attachments(a: Seq<AttachmentView>, b: Seq<AttachmentView>) -> bool {
    a.len() == b.len() && forall|i: int| 0 <= i < a.len() ==> same_attachment(#[trigger] a[i], b[i])
}

/// Whether the same has been gathered.
pub open spec fn same_gathered(a: Gathered, b: Gathered) -> bool {
    same_attachments(a.list, b.list) && a.urls == b.urls
}

/// Whether two spaces are the same, but for the time of their making.
pub open spec fn same_space(a: ExportSpaceMetadata, b: ExportSpaceMetadata) -> bool {
    &&& a.id@ == b.id@
    &&& a.name@ == b.name@
    &&& a.slug@ == b.slug@
    &&& a.region@ == b.region@
    &&& text::opt_text(a.short_id_prefix) == text::opt_text(b.short_id_prefix)
    &&& a.short_id_visible == b.short_id_visible
}

pub open spec fn same_view(a: TemplateViewDef, b: TemplateViewDef) -> bool {
    &&& a.id@ == b.id@
    &&& a.name@ == b.name@
    &&& a.content_type@ == b.content_type@
    &&& a.view_type@ == b.view_type@
    &&& text::opt_text(a.column_grouping) == text::opt_text(b.column_grouping)
    &&& text::opt_text(a.row_grouping) == text::opt_text(b.row_grouping)
    &&& a.sort_order@ == b.sort_order@
    &&& a.show_archived == b.show_archived
    &&& text::opt_text(a.filters) == text::opt_text(b.filters)
    &&& text::opt_text(a.zoom_level) == text::opt_text(b.zoom_level)
}

pub open spec fn same_views(a: TemplateViews, b: TemplateViews) -> bool {
    &&& text::texts(a.order@) == text::texts(b.order@)
    &&& a.definitions@.dom() == b.definitions@.dom()
    &&& forall|k: Seq<char>| #[trigger]
        a.definitions@.contains_key(k) ==> same_view(a.definitions@[k], b.definitions@[k])
}

/// Whether two exports say the same, but for the times at which they were made.
pub open spec fn same_export(a: SpaceExport, b: SpaceExport) -> bool {
    &&& a.format@ == b.format@
    &&& same_space(a.space, b.space)
    &&& common::labels_view(a.labels) == common::labels_view(b.labels)
    &&& common::milestones_view(a.milestones) == common::milestones_view(b.milestones)
    &&& a.cycle_config == b.cycle_config
    &&& a.cycles@.len() == b.cycles@.len()
    &&& forall|i: int| 0 <= i < a.cycles@.len() ==> same_cycle(#[trigger] a.cycles@[i], b.cycles@[i])
    &&& a.archive_config == b.archive_config
    &&& same_views(a.views, b.views)
    &&& a.items@.len() == b.items@.len()
    &&& forall|i: int| 0 <= i < a.items@.len() ==> same_item(#[trigger] a.items@[i], b.items@[i])
    &&& a.documents@.len() == b.documents@.len()
    &&& forall|i: int|
        0 <= i < a.documents@.len() ==> same_document(#[trigger] a.documents@[i], b.documents@[i])
    &&& same_attachments(
        common::attachment_views(a.attachments@),
        common::attachment_views(b.attachments@),
    )
    &&& a.users@.len() == b.users@.len()
    &&& forall|i: int| 0 <= i < a.users@.len() ==> same_user(#[trigger] a.users@[i], b.users@[i])
    &&& a.teams@ == b.teams@
    &&& a.overview_text == b.overview_text
    &&& a.overview_yjs == b.overview_yjs
}

/// Blobs for the same Markdown hold the same.
pub proof fn lemma_same_blob(a: Option<String>, b: Option<String>, markdown: Seq<char>)
    requires
        content_is(a, markdown),
        content_is(b, markdown),
    ensures
        same_blob(a, b),
{
}

/// The boards of a converted space are the same.
pub proof fn lemma_same_views(
    a: TemplateViews,
    b: TemplateViews,
    by_status: Seq<char>,
    status: Seq<char>,
    cycles: Option<(Seq<char>, Seq<char>)>,
)
    requires
        views_are(a, by_status, status, cycles),
        views_are(b, by_status, status, cycles),
    ensures
        same_views(a, b),
{
}

} // verus!
