//! Linear to space exports.
//!
//! A flattened snapshot of a Linear team's data (issues, comments, labels, workflow
//! states, cycles, projects, documents, users, relations) becomes a
//! [`SpaceExport`](crate::export::types::SpaceExport).
//!
//! Ids are version-5 UUIDs of the ids in Linear, so converting again gives the same
//! ones, and cross-references (parent issues, blockers, comment authors, labels)
//! meet. Files that Markdown links on `uploads.linear.app` become attachments, and
//! their URLs are rewritten before the Markdown becomes rich text; the bytes are not
//! fetched here.

use vstd::prelude::*;

pub mod conversion;
pub mod kept;
pub mod labels;
pub mod laws;
pub mod uploads;

pub use crate::import::convert::linear::conversion::{
    convert, linear_to_space_export, LinearConversion,
};

verus! {

/// The namespace of all ids that this converter makes.
pub const NS_LINEAR: u128 = 0x4c696e6561725f776f646f5f636e7674;

/// A reference to another entity by id.
#[derive(Debug, Clone, Default)]
pub struct LinearRef {
    pub id: String,
}

#[derive(Debug, Clone, Default)]
pub struct LinearTeam {
    pub id: String,
    pub key: String,
    pub name: String,
    pub description: Option<String>,
    pub issue_estimation_type: Option<String>,
}

#[derive(Debug, Clone, Default)]
pub struct LinearLabelRef {
    pub id: String,
    pub name: String,
    pub color: Option<String>,
    /// The group that the label belongs to. On the labels of issues it has a name;
    /// in the stream of labels often only an id.
    pub parent: Option<LinearLabelParent>,
}

#[derive(Debug, Clone, Default)]
pub struct LinearLabelParent {
    pub id: String,
    pub name: Option<String>,
}

#[derive(Debug, Clone, Default)]
pub struct LinearLabelNodes {
    pub nodes: Vec<LinearLabelRef>,
}

/// An estimate, which Linear gives as a decimal number.
#[derive(Debug, Clone, Default)]
pub struct LinearEstimate {
    /// Whether the number is zero.
    pub is_zero: bool,
    /// The number without its fraction.
    pub units: i64,
}

#[derive(Debug, Clone, Default)]
pub struct LinearIssue {
    pub id: String,
    pub identifier: Option<String>,
    pub number: i64,
    pub title: String,
    pub description: Option<String>,
    /// 0 is none, 1 urgent, 4 low.
    pub priority: i64,
    pub estimate: Option<LinearEstimate>,
    pub due_date: Option<String>,
    pub started_at: Option<String>,
    pub created_at: Option<String>,
    pub updated_at: Option<String>,
    pub archived_at: Option<String>,
    pub state: Option<LinearRef>,
    pub assignee: Option<LinearRef>,
    pub creator: Option<LinearRef>,
    pub parent: Option<LinearRef>,
    pub cycle: Option<LinearRef>,
    pub project: Option<LinearRef>,
    pub project_milestone: Option<LinearRef>,
    pub labels: LinearLabelNodes,
}

#[derive(Debug, Clone, Default)]
pub struct LinearComment {
    pub id: String,
    pub body: String,
    pub created_at: Option<String>,
    pub edited_at: Option<String>,
    pub user: Option<LinearRef>,
    pub parent: Option<LinearRef>,
    pub issue: Option<LinearRef>,
}

#[derive(Debug, Clone, Default)]
pub struct LinearWorkflowState {
    pub id: String,
    pub name: String,
    /// One of: backlog, unstarted, started, completed, canceled, duplicate.
    pub state_type: String,
    /// The rank of the state among the states, by the decimal position that Linear
    /// gives it.
    pub position: i64,
    pub color: Option<String>,
}

#[derive(Debug, Clone, Default)]
pub struct LinearCycle {
    pub id: String,
    pub number: Option<i64>,
    pub name: Option<String>,
    pub starts_at: Option<String>,
    pub ends_at: Option<String>,
    pub completed_at: Option<String>,
}

#[derive(Debug, Clone, Default)]
pub struct LinearProjectMilestone {
    pub id: String,
    pub name: String,
    pub target_date: Option<String>,
}

#[derive(Debug, Clone, Default)]
pub struct LinearProjectMilestoneNodes {
    pub nodes: Vec<LinearProjectMilestone>,
}

#[derive(Debug, Clone, Default)]
pub struct LinearProject {
    pub id: String,
    pub name: String,
    pub description: Option<String>,
    pub project_milestones: LinearProjectMilestoneNodes,
}

#[derive(Debug, Clone, Default)]
pub struct LinearDocument {
    pub id: String,
    pub title: String,
    pub content: Option<String>,
    pub created_at: Option<String>,
    pub updated_at: Option<String>,
    pub creator: Option<LinearRef>,
}

#[derive(Debug, Clone, Default)]
pub struct LinearUser {
    pub id: String,
    pub name: String,
    pub email: Option<String>,
    pub active: bool,
    pub admin: bool,
}

#[derive(Debug, Clone, Default)]
pub struct LinearRelation {
    pub id: String,
    /// `blocks`, `duplicate` and `related` among others.
    pub relation_type: String,
    pub issue: Option<LinearRef>,
    pub related_issue: Option<LinearRef>,
}

/// A flattened snapshot of one Linear team's data.
#[derive(Debug, Clone, Default)]
pub struct LinearWorkspace {
    pub team: LinearTeam,
    pub issues: Vec<LinearIssue>,
    pub comments: Vec<LinearComment>,
    pub issue_labels: Vec<LinearLabelRef>,
    pub workflow_states: Vec<LinearWorkflowState>,
    pub cycles: Vec<LinearCycle>,
    pub projects: Vec<LinearProject>,
    pub documents: Vec<LinearDocument>,
    pub users: Vec<LinearUser>,
    pub issue_relations: Vec<LinearRelation>,
}

} // verus!
