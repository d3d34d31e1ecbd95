//! The errors of the issue tracker itself.

use vstd::prelude::*;

verus! {

/// What the tracker refuses, and why.
#[derive(Debug, Clone, PartialEq, Eq)]
pub enum BeadsError {
    /// A value given for `field` is not acceptable.
    Validation { field: String, reason: String },
    /// The text or number is not a priority.
    InvalidPriority { priority: String },
    /// No issue has this identifier.
    IssueNotFound { id: String },
    /// The identifier is taken.
    IdCollision { id: String },
    /// A command that works outside the tracker failed.
    ExternalCommand { command: String, reason: String },
}

/// What contracts say of a [`BeadsError`].
pub enum BeadsErrorView {
    Validation { field: Seq<char>, reason: Seq<char> },
    InvalidPriority { priority: Seq<char> },
    IssueNotFound { id: Seq<char> },
    IdCollision { id: Seq<char> },
    ExternalCommand { command: Seq<char>, reason: Seq<char> },
}

impl View for BeadsError {
    type V = BeadsErrorView;

    open spec fn view(&self) -> BeadsErrorView {
        match self {
            BeadsError::Validation { field, reason } => BeadsErrorView::Validation {
                field: field@,
                reason: reason@,
            },
            BeadsError::InvalidPriority { priority } => BeadsErrorView::InvalidPriority {
                priority: priority@,
            },
            BeadsError::IssueNotFound { id } => BeadsErrorView::IssueNotFound { id: id@ },
            BeadsError::IdCollision { id } => BeadsErrorView::IdCollision { id: id@ },
            BeadsError::ExternalCommand { command, reason } => BeadsErrorView::ExternalCommand {
                command: command@,
                reason: reason@,
            },
        }
    }
}

} // verus!
