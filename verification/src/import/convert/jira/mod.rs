//! Jira to space exports.
//!
//! The issues of a Jira project, as its REST search gives them, become a
//! [`SpaceExport`](crate::export::types::SpaceExport).
//!
//! Ids are version-5 UUIDs of the ids in Jira, so converting again gives the same
//! ones and cross-references meet. Rich text is rendered to Markdown and then to
//! rich text of its own; images in it become attachments with a URL to fetch them
//! from.
//!
//! A status completes an issue by its category, whatever its name; components and
//! labels are values of which the first is kept; fix versions are milestones; the
//! sprints of issues are cycles; a parent is an epic or the parent of a subtask; a
//! link is read at the end that it leads out of.

use vstd::prelude::*;

use crate::json::Json;

pub mod conversion;
pub mod kept;
pub mod labels;
pub mod laws;
pub mod media;
pub mod users;

pub use crate::import::convert::jira::conversion::{jira_to_space_export, JiraConversion};

verus! {

/// The namespace of all ids that this converter makes.
pub const NS_JIRA: u128 = 0x4a6972615f776f646f5f636e76745f31;

/// A project, as every issue refers to it.
#[derive(Debug, Clone, Default)]
pub struct JiraProject {
    pub id: String,
    pub key: String,
    pub name: String,
}

/// A user: assignee, reporter, creator, author or mentioned.
#[derive(Debug, Clone, Default)]
pub struct JiraUser {
    pub account_id: String,
    pub display_name: String,
    /// Often hidden, and then absent.
    pub email_address: Option<String>,
}

#[derive(Debug, Clone, Default)]
pub struct JiraStatusCategory {
    /// One of: `new`, `indeterminate`, `done`.
    pub key: String,
    pub name: String,
    pub id: i64,
}

#[derive(Debug, Clone, Default)]
pub struct JiraStatus {
    pub id: String,
    pub name: String,
    pub status_category: JiraStatusCategory,
}

#[derive(Debug, Clone, Default)]
pub struct JiraPriority {
    pub id: String,
    pub name: String,
}

#[derive(Debug, Clone, Default)]
pub struct JiraIssueType {
    pub name: String,
    pub subtask: bool,
}

#[derive(Debug, Clone, Default)]
pub struct JiraComponent {
    pub id: String,
    pub name: String,
}

#[derive(Debug, Clone, Default)]
pub struct JiraVersion {
    pub id: String,
    pub name: String,
    pub description: Option<String>,
    pub release_date: Option<String>,
}

/// A sprint that an issue is or was in.
#[derive(Debug, Clone, Default)]
pub struct JiraSprint {
    pub id: i64,
    pub name: String,
    /// `future`, `active` or `closed`.
    pub state: String,
    pub start_date: Option<String>,
    pub end_date: Option<String>,
}

/// The type of a link: `Blocks`, `Duplicate`, `Relates` among others.
#[derive(Debug, Clone, Default)]
pub struct JiraLinkType {
    pub name: String,
}

/// The issue at the other end of a link.
#[derive(Debug, Clone, Default)]
pub struct JiraLinkedIssue {
    pub id: String,
    pub key: String,
}

/// A link, as one of the two issues lists it. One of the two ends is set.
#[derive(Debug, Clone, Default)]
pub struct JiraIssueLink {
    pub link_type: JiraLinkType,
    pub outward_issue: Option<JiraLinkedIssue>,
    pub inward_issue: Option<JiraLinkedIssue>,
}

/// The parent of a subtask, or the epic of a story.
#[derive(Debug, Clone, Default)]
pub struct JiraParent {
    pub id: String,
    pub key: String,
}

#[derive(Debug, Clone, Default)]
pub struct JiraAttachment {
    pub id: String,
    pub filename: String,
    pub mime_type: Option<String>,
    pub size: i64,
    /// The URL of the content.
    pub content: Option<String>,
    pub created: Option<String>,
    pub author: Option<JiraUser>,
}

#[derive(Debug, Default)]
pub struct JiraComment {
    pub id: String,
    pub author: Option<JiraUser>,
    /// The body as an ADF document.
    pub body: Option<Json>,
    pub created: Option<String>,
    pub updated: Option<String>,
}

#[derive(Debug, Default)]
pub struct JiraComments {
    pub comments: Vec<JiraComment>,
}

/// Story points, which Jira gives as a decimal number.
#[derive(Debug, Clone, Default)]
pub struct StoryPoints {
    /// The rank of the number among those of the project.
    pub rank: i64,
    /// The number as it is shown: a whole one without a fraction.
    pub text: String,
}

/// The fields of an issue.
#[derive(Debug, Default)]
pub struct JiraFields {
    pub summary: String,
    /// The description as an ADF document.
    pub description: Option<Json>,
    pub issuetype: JiraIssueType,
    pub project: JiraProject,
    pub status: JiraStatus,
    pub priority: Option<JiraPriority>,
    pub components: Vec<JiraComponent>,
    pub labels: Vec<String>,
    pub fix_versions: Vec<JiraVersion>,
    pub assignee: Option<JiraUser>,
    pub reporter: Option<JiraUser>,
    pub creator: Option<JiraUser>,
    pub parent: Option<JiraParent>,
    pub issue_links: Vec<JiraIssueLink>,
    pub attachment: Vec<JiraAttachment>,
    pub comment: JiraComments,
    pub created: Option<String>,
    pub updated: Option<String>,
    pub duedate: Option<String>,
    pub story_points: Option<StoryPoints>,
    /// The sprints of team-managed boards.
    pub sprints: Option<Vec<JiraSprint>>,
    /// The key of the epic, in older projects.
    pub epic_link: Option<String>,
}

/// An issue.
#[derive(Debug, Default)]
pub struct JiraIssue {
    pub id: String,
    pub key: String,
    pub fields: JiraFields,
}

} // verus!
