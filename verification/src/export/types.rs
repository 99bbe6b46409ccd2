//! Space exports.
//!
//! A complete snapshot of a space's data. Unlike templates, which use date
//! offsets and leave archived items out, exports keep absolute dates and hold all
//! data, archived items and comments among them.
//!
//! The `attachments` array is the join key to the attachments of the archive,
//! whose entries are named `attachments/{uuid}/{filename}`; `users` and `teams`
//! are snapshots for every UUID that is referenced.

use vstd::prelude::*;

use crate::str_map::StrMap;
use crate::template::types::{
    TemplateArchiveConfig, TemplateCycleConfig, TemplateLabels, TemplateViews,
};

verus! {

/// Root export structure — complete space snapshot
#[derive(Debug)]
pub struct SpaceExport {
    pub format: String,
    pub exported_at: String,
    pub space: ExportSpaceMetadata,
    pub labels: TemplateLabels,
    pub milestones: ExportMilestones,
    pub cycle_config: Option<TemplateCycleConfig>,
    pub cycles: Vec<ExportCycle>,
    pub archive_config: Option<TemplateArchiveConfig>,
    pub views: TemplateViews,
    pub items: Vec<ExportItem>,
    pub documents: Vec<ExportDocument>,
    /// Postgres-sourced; filled by the caller after serialization (the
    /// serializer itself is Yjs-only). Same for `users` and `teams`.
    pub attachments: Vec<ExportAttachment>,
    pub users: Vec<ExportUser>,
    pub teams: Vec<ExportTeam>,
    pub overview_text: Option<String>,
    pub overview_yjs: Option<String>,
}

/// Space metadata — Postgres fields provided by caller, Yjs fields filled by serializer.
#[derive(Debug)]
pub struct ExportSpaceMetadata {
    pub id: String,
    pub name: String,
    pub slug: String,
    pub region: String,
    pub short_id_prefix: Option<String>,
    pub short_id_visible: bool,
    pub created_at: String,
}

/// Caller-provided space metadata (from Postgres). The serializer adds Yjs-derived
/// fields (short_id_prefix, short_id_visible) to produce the final ExportSpaceMetadata.
#[derive(Debug)]
pub struct ExportSpaceMetadataInput {
    pub id: String,
    pub name: String,
    pub slug: String,
    pub region: String,
    pub created_at: String,
}

/// Milestones with absolute dates (not offsets)
#[derive(Debug)]
pub struct ExportMilestones {
    pub order: Vec<String>,
    pub definitions: StrMap<ExportMilestoneDef>,
}

/// A single milestone definition with absolute deadline
#[derive(Debug)]
pub struct ExportMilestoneDef {
    pub id: String,
    pub name: String,
    pub description: Option<String>,
    pub deadline: Option<String>,
    pub deprecated: bool,
}

/// A cycle instance (not just config)
#[derive(Debug)]
pub struct ExportCycle {
    pub id: String,
    pub name: String,
    pub start_date: String,
    pub end_date: String,
    pub archived: bool,
}

/// An exported item with absolute dates, assignees, all relationships
#[derive(Debug, Default)]
pub struct ExportItem {
    pub id: String,
    pub short_id: Option<i64>,
    pub title: String,
    pub description_text: Option<String>,
    pub description_yjs: Option<String>,
    pub labels: StrMap<String>,
    pub assignee_user_ids: Vec<String>,
    pub assignee_team_ids: Vec<String>,
    pub due_date: Option<String>,
    pub start_date: Option<String>,
    pub milestone_id: Option<String>,
    pub cycle_id: Option<String>,
    pub parent_id: Option<String>,
    pub blocked_by: Vec<String>,
    pub duplicate_of: Option<String>,
    pub archived: bool,
    pub deep_archived: bool,
    /// Provenance — preserved on import when present (older exports lack
    /// these; the importer + import time are used instead). `archived_at` is
    /// normalized to RFC 3339 (stored internally as epoch millis).
    pub created_at: Option<String>,
    pub created_by: Option<String>,
    pub updated_at: Option<String>,
    pub archived_at: Option<String>,
    /// Completion snapshot: the prompt text at the moment the item was
    /// completed, and the note the user entered (dual form like descriptions).
    pub completion_prompt: Option<String>,
    pub completion_note_text: Option<String>,
    pub completion_note_yjs: Option<String>,
    pub comments: Vec<ExportComment>,
}

/// A comment on an item.
///
/// `content_text` is a plain-text extraction for human/tooling readability;
/// `content_yjs` is the authoritative XmlFragment as a base64 Yjs update
/// (same dual form as item descriptions). `author_name` is the snapshot
/// maintained in the comments blob by the author-name backfill, frozen at
/// export time. Soft-deleted comments keep their content (v1 behavior).
#[derive(Debug)]
pub struct ExportComment {
    pub id: String,
    pub author_id: String,
    pub author_name: Option<String>,
    pub content_text: Option<String>,
    pub content_yjs: Option<String>,
    pub created_at: Option<String>,
    pub edited_at: Option<String>,
    pub deleted: bool,
    pub deleted_at: Option<String>,
    pub parent_id: Option<String>,
}

/// Attachment metadata from the Postgres `attachments` table. The `id` is the
/// join key to the attachments ZIP, whose entries are named
/// `attachments/{id}/{filename}`. The two artifacts are exported at different
/// moments — importers must tolerate refs missing from the ZIP and vice versa.
#[derive(Debug)]
pub struct ExportAttachment {
    pub id: String,
    pub filename: String,
    pub content_type: String,
    pub size_bytes: i64,
    pub uploaded_by: String,
    pub uploaded_at: String,
    pub document_id: Option<String>,
    /// True when the attachment is no longer referenced by any content and is
    /// pending deletion by the orphan sweep.
    pub orphaned: bool,
}

/// Snapshot of a referenced user (assignee, comment author, or uploader) at
/// export time. Tombstoned accounts export as "Former user" with no email;
/// hard-deleted users are simply absent (importers fall back to the
/// per-comment `author_name` snapshot).
#[derive(Debug)]
pub struct ExportUser {
    pub id: String,
    pub display_name: String,
    pub email: Option<String>,
}

/// Snapshot of a referenced team at export time.
#[derive(Debug)]
pub struct ExportTeam {
    pub id: String,
    pub name: String,
}

/// An exported document with content and full metadata
#[derive(Debug, Default)]
pub struct ExportDocument {
    pub id: String,
    pub title: String,
    pub labels: StrMap<String>,
    pub content_text: Option<String>,
    pub content_yjs: Option<String>,
    pub archived: bool,
    pub owner_user_ids: Vec<String>,
    pub owner_team_ids: Vec<String>,
    /// At most one of the two parent anchors is set.
    pub parent_item_id: Option<String>,
    pub parent_milestone_id: Option<String>,
    pub review_cadence_days: Option<i64>,
    pub last_reviewed_at: Option<String>,
    pub is_template: bool,
    /// Lineage: source document UUID (within the same export). Remapped to
    /// the regenerated document UUID on import; dropped if the source is
    /// absent from the export.
    pub forked_from: Option<String>,
    pub created_at: Option<String>,
    pub created_by: Option<String>,
    pub updated_at: Option<String>,
    pub archived_at: Option<String>,
}

} // verus!
