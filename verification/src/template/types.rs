//! Template content.
//!
//! All ids are the UUIDs of the source space. They are kept as they are and
//! remapped at instantiation.

use vstd::prelude::*;

use crate::str_map::StrMap;

verus! {

/// Current schema version written by the serializer.
pub const TEMPLATE_SCHEMA_VERSION: u32 = 3;

/// Root template content
#[derive(Debug)]
pub struct TemplateContent {
    pub schema_version: u32,
    /// Source space UUID (v2). Needed at instantiation to rewrite inline
    /// attachment URLs (`/api/spaces/{source}/attachments/{id}`) inside the
    /// Yjs blobs. Stored in the content — the `templates.source_space_id`
    /// column is `ON DELETE SET NULL` and the rewrite must outlive the
    /// source space.
    pub source_space_id: Option<String>,
    /// Attachment manifest (v2). IDs are original source-space attachment
    /// UUIDs; blobs live at `orgs/{org}/templates/{template_id}/attachments/{id}`.
    /// The serializer emits ID-only entries (metadata zeroed); the save
    /// handler enriches them from Postgres and drops unresolvable refs.
    pub attachments: Vec<TemplateAttachment>,
    pub labels: TemplateLabels,
    pub milestones: TemplateMilestones,
    pub cycle_config: Option<TemplateCycleConfig>,
    pub short_id_config: Option<TemplateShortIdConfig>,
    pub archive_config: Option<TemplateArchiveConfig>,
    pub views: TemplateViews,
    pub items: Vec<TemplateItem>,
    pub documents: Vec<TemplateDocument>,
    /// Space overview content as base64-encoded Yjs binary blob
    pub overview_yjs: Option<String>,
}

/// Attachment manifest entry (v2). Metadata snapshot from the `attachments`
/// table at save time; the blob is a template-owned S3 copy with the
/// template's lifecycle (no `attachments` table row, invisible to the
/// orphan sweep).
#[derive(Debug)]
pub struct TemplateAttachment {
    pub id: String,
    pub filename: String,
    pub content_type: String,
    pub size_bytes: i64,
}

/// Labels configuration
#[derive(Debug)]
pub struct TemplateLabels {
    pub order: Vec<String>,
    pub primary_label_id: Option<String>,
    pub definitions: StrMap<TemplateLabelDef>,
}

/// A single label definition
#[derive(Debug, Default)]
pub struct TemplateLabelDef {
    pub id: String,
    pub name: String,
    pub description: String,
    pub icon: String,
    pub values_order: Vec<String>,
    pub values: StrMap<TemplateLabelValue>,
    /// Deprecated labels appear only in exports (templates skip them — they
    /// are history, not shape). `deprecated_by` is a user UUID.
    pub deprecated: bool,
    pub deprecated_at: Option<String>,
    pub deprecated_by: Option<String>,
}

/// A single label value
#[derive(Debug, Default)]
pub struct TemplateLabelValue {
    pub id: String,
    pub name: String,
    pub color: String,
    pub is_completion_state: bool,
    /// Prompt shown when an item is moved to this completion state (empty/
    /// absent = don't prompt). Carried by both templates and exports.
    pub completion_prompt: Option<String>,
    /// Deprecated values appear only in exports (see `TemplateLabelDef`).
    pub deprecated: bool,
    pub deprecated_at: Option<String>,
    pub deprecated_by: Option<String>,
}

/// Milestones configuration
#[derive(Debug)]
pub struct TemplateMilestones {
    pub order: Vec<String>,
    pub definitions: StrMap<TemplateMilestoneDef>,
}

/// A single milestone definition with date as offset from T=0
#[derive(Debug)]
pub struct TemplateMilestoneDef {
    pub id: String,
    pub name: String,
    pub description: Option<String>,
    /// Days offset from the reference date (T=0). Null if milestone has no deadline.
    pub offset_days: Option<i64>,
}

/// Cycle configuration (instances are auto-generated, not stored)
#[derive(Debug)]
pub struct TemplateCycleConfig {
    pub enabled: bool,
    pub pattern: String,
    pub start_day: String,
    pub prefix: String,
    pub generate_ahead: i64,
    pub retain_past: i64,
}

/// Short ID configuration
#[derive(Debug)]
pub struct TemplateShortIdConfig {
    pub prefix: String,
    pub visible: bool,
}

/// Archive configuration
#[derive(Debug)]
pub struct TemplateArchiveConfig {
    pub migration_days: i64,
}

/// Saved views configuration
#[derive(Debug)]
pub struct TemplateViews {
    pub order: Vec<String>,
    pub definitions: StrMap<TemplateViewDef>,
}

/// A single saved view definition
#[derive(Debug)]
pub struct TemplateViewDef {
    pub id: String,
    pub name: String,
    pub content_type: String,
    pub view_type: String,
    pub column_grouping: Option<String>,
    pub row_grouping: Option<String>,
    pub sort_order: String,
    pub show_archived: bool,
    pub filters: Option<String>,
    pub zoom_level: Option<String>,
}

/// A template item with dates as offsets from T=0
#[derive(Debug)]
pub struct TemplateItem {
    pub id: String,
    pub title: String,
    pub labels: StrMap<String>,
    pub due_date_offset_days: Option<i64>,
    pub start_date_offset_days: Option<i64>,
    pub milestone_id: Option<String>,
    pub cycle_id: Option<String>,
    pub parent_id: Option<String>,
    pub blocked_by: Vec<String>,
    /// Item description as base64-encoded Yjs binary blob
    pub description_yjs: Option<String>,
    /// The item's explicit `attachments` Y.Array as ordered references into
    /// the root manifest (v2). Entries without a manifest match (attachment
    /// deleted between content edit and save) are skipped at instantiation.
    pub attachment_ids: Vec<String>,
    /// Item comments (v3, opt-in via `include_comments`). Ordered: roots in
    /// `threads_order` sequence, each followed by its replies. Soft-deleted
    /// comments are excluded at save time.
    pub comments: Vec<TemplateComment>,
}

/// A template comment (v3). Identity-bound state is reduced to a display
/// snapshot: no `author_id` is carried — the instantiator writes the nil
/// UUID, which the comment-author backfill skips (no users row), so the
/// `author_name` snapshot is permanent and nobody in the new space owns the
/// comment (the edit/delete window is keyed to author_id → effectively
/// read-only sample content). `edited_at` is deliberately dropped: curated
/// content, not history.
#[derive(Debug)]
pub struct TemplateComment {
    /// Original comment UUID — carried over at instantiation (comments live
    /// only in Yjs and are per-space isolated, same rule as item IDs).
    pub id: String,
    /// Display-name snapshot from the source space's comments blob.
    pub author_name: String,
    /// Comment body as base64-encoded Yjs binary (XmlFragment), same
    /// encoding as item descriptions. Inline image refs participate in the
    /// v2 attachment manifest and get rewritten at instantiation.
    pub content_yjs: Option<String>,
    /// Seconds relative to the reference date at T00:00:00Z. Rehydrated as
    /// `start_date + offset` — preserves date, time-of-day, and thread
    /// ordering in one field. May be negative.
    pub created_at_offset_seconds: i64,
    /// Root comment ID when this is a reply; None for root comments.
    pub parent_id: Option<String>,
}

/// Template owners-default — mirrors the doc's `owners` shape in
/// `data.yjs documents.{id}.owners`. Pre-fills the doc with this set
/// on creation; "creator" is a sentinel string the instantiator resolves
/// to the creating user's UUID at instantiation time.
#[derive(Debug, Default)]
pub struct TemplateOwnersDefault {
    /// Either explicit UUIDs or the sentinel "creator" (case-sensitive)
    /// to mean "the user creating the space from this template".
    pub users: Vec<String>,
    pub teams: Vec<String>,
}

/// A template document.
///
/// **What this struct deliberately does NOT carry** (identity-bound state
/// that wouldn't make sense in a new space cloned from this template):
///
/// - `owners.users / owners.teams` (user UUIDs) — preserved structurally
///   via `owners_default` with the `"creator"` sentinel, not by copying
///   actual UUIDs. A new space lives in a different org with different
///   members.
/// - `last_reviewed_at` — the original doc's review stamp would lie about
///   freshness in the new doc; baseline starts fresh from `created_at`.
/// - `forked_from` — points at a doc in the original space; would dangle
///   in the new space.
#[derive(Debug)]
pub struct TemplateDocument {
    pub id: String,
    pub title: String,
    pub labels: StrMap<String>,
    /// Document content as base64-encoded Yjs binary blob
    pub content_yjs: Option<String>,

    /// Pre-filled owner set at instantiation. `users` may contain the
    /// sentinel string "creator" (resolved to the creating user's UUID).
    pub owners_default: TemplateOwnersDefault,

    /// Cadence in days (e.g. 90 for a Runbook). `None` = no cadence.
    pub review_cadence_days: Option<i32>,

    /// `true` for templates living in the Templates tab of a space.
    pub is_template: bool,

    /// Parent item UUID, when the doc is anchored to a unit of work. Item
    /// UUIDs survive template instantiation verbatim
    /// (each space is an isolated document), so this
    /// reference resolves correctly in the new space without remapping.
    pub parent_item_id: Option<String>,

    /// Parent milestone UUID, same reasoning as `parent_item_id`.
    pub parent_milestone_id: Option<String>,
}

/// Whether no owners are set.
pub fn is_default_owners(o: &TemplateOwnersDefault) -> (r: bool)
    ensures
        r == (o.users@.len() == 0 && o.teams@.len() == 0),
{
    o.users.len() == 0 && o.teams.len() == 0
}

} // verus!
