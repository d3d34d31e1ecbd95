//! Doing what a plan says.
//!
//! A bead is paired with its issue the moment that the issue exists: before
//! the next request is sent, the pairs that a step reports are to be stored.
//! So an interrupted run loses at most the answer to one request.
//!
//! That answer is not lost for good. An issue that is created is stamped with
//! its bead, so that the next run finds it and pairs it without creating it
//! again. A link or a comment whose answer was lost is looked for on the
//! mirror before it is called a failure.

pub mod adoptions;
pub mod comment_pushes;
pub mod creates;
pub mod field_pulls;
pub mod field_pushes;
pub mod gate;
pub mod laws;
pub mod link_pushes;
pub mod orphans;
pub mod outcomes;
pub mod pulling;
pub mod pushing;
pub mod reading;
pub mod settling;

pub use crate::remote::execute::adoptions::{
    adopt_everything, import_all_links, plan_adoptions, AdoptStop, AdoptionRun, AdoptionStart,
};
pub use crate::remote::execute::creates::{
    execute_creates, pair, read_create_answer, resolve_project_id, BatchProgress, CreateOutcome,
    CreateReport, CreateStep, PairUpdate, BATCH_SIZE, CREATE_PATH,
};
pub use crate::remote::execute::gate::{first_run_gate, GateRefusal};
pub use crate::remote::execute::orphans::{orphaned_creates, AmbiguousStamp, OrphanScan};
pub use crate::remote::execute::field_pulls::{apply_field_pulls, FieldPull};
pub use crate::remote::execute::pulling::{execute_pull, PullReport, PullStep};
pub use crate::remote::execute::comment_pushes::{push_comments, push_tombstones};
pub use crate::remote::execute::field_pushes::{any_field, push_field_set, PushReport};
pub use crate::remote::execute::link_pushes::{link_change_landed, push_links, LOST_ANSWER};
pub use crate::remote::execute::pushing::{apply_push, execute_push, PushStep, PushStop};
pub use crate::remote::execute::reading::{
    fetch_comment_work, hydrated_issues, reconcile, IssueRows, Reconciliation, RunInputs,
};
use vstd::prelude::*;

verus! {

/// Who local writes are made by.
pub const REMOTE_ACTOR: &'static str = "br-remote";

} // verus!
