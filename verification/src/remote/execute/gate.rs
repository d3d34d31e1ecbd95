//! The first run, which has to be confirmed.

use crate::model::{Issue, Status};
use crate::remote::config::{RemoteConfig, RemoteConfigView};
use crate::remote::execute::reading::reconcile;
use crate::remote::model::RemoteIssueView;
use crate::remote::reconcile;
use crate::remote::reconcile::is_in_scope;
use crate::text;
use crate::text::decimal_of;
use vstd::prelude::*;
use vstd::string::*;

verus! {

broadcast use vstd::string::group_string_axioms;

/// A first run that has not been confirmed.
#[derive(Debug, Clone, Copy, PartialEq, Eq, Structural)]
pub struct GateRefusal {
    /// How many issues it would have created.
    pub would_create: usize,
}

/// The refusal of a first run, in words.
pub open spec fn gate_text(would_create: nat) -> Seq<char> {
    "refusing a first run: no bead in this workspace is paired with an issue in this project yet, so this would create "@
        + text::decimal(would_create as int)
        + " issue(s) in it. br has no code path that deletes a YouTrack issue, so a first run against the wrong project leaves every one of them to be deleted by hand. Check `project` and `url` in .beads/remote.yaml, run `br remote status` to see exactly what would be created, and re-run with --confirm-initial when it is right."@
}

impl GateRefusal {
    /// The refusal, with the number of issues and the way past it.
    pub fn render(&self) -> (r: String)
        ensures
            r@ == gate_text(self.would_create as nat),
    {
        let count = decimal_of(self.would_create as u64);
        let mut out =
            "refusing a first run: no bead in this workspace is paired with an issue in this project yet, so this would create ".to_owned();
        out.append(count.as_str());
        out.append(
            " issue(s) in it. br has no code path that deletes a YouTrack issue, so a first run against the wrong project leaves every one of them to be deleted by hand. Check `project` and `url` in .beads/remote.yaml, run `br remote status` to see exactly what would be created, and re-run with --confirm-initial when it is right.",
        );
        out
    }
}

/// Some bead's reference names an issue of the project.
pub open spec fn is_mirrored_already(beads: Seq<Issue>, cfg: RemoteConfigView) -> bool {
    exists|i: int|
        0 <= i < beads.len() && (text::seen((#[trigger] beads[i]).external_ref) matches Some(r)
            && reconcile::in_scope(cfg, r))
}

/// The beads that a first run would create issues for.
pub open spec fn to_be_created(beads: Seq<Issue>) -> Seq<Issue> {
    text::picked(
        beads,
        |b: Issue|
            if b.external_ref is None && !(b.status@ is Tombstone) {
                Some(b)
            } else {
                None
            },
    )
}

/// Refuses a first run that has not been confirmed. Nothing ever deletes an
/// issue of the mirror, so one against the wrong project could not be undone.
pub fn first_run_gate(beads: &Vec<Issue>, cfg: &RemoteConfig, confirmed: bool) -> (r: Result<
    (),
    GateRefusal,
>)
    ensures
        (match r {
            Ok(_) => confirmed || is_mirrored_already(beads@, cfg@),
            Err(refusal) => !confirmed && !is_mirrored_already(beads@, cfg@)
                && refusal.would_create == to_be_created(beads@).len(),
        }),
{
    if confirmed {
        return Ok(());
    }
    let ghost f = |b: Issue|
        if b.external_ref is None && !(b.status@ is Tombstone) {
            Some(b)
        } else {
            None
        };
    let mut would_create: usize = 0;
    let mut i: usize = 0;
    while i < beads.len()
        invariant
            i <= beads@.len(),
            f == (|b: Issue|
                if b.external_ref is None && !(b.status@ is Tombstone) {
                    Some(b)
                } else {
                    None
                }),
            would_create <= i,
            would_create == text::picked(beads@.take(i as int), f).len(),
            forall|k: int|
                0 <= k < i ==> !(text::seen((#[trigger] beads@[k]).external_ref) matches Some(r)
                    && reconcile::in_scope(cfg@, r)),
        decreases beads@.len() - i,
    {
        proof {
            text::picked_step(beads@, f, i as int);
        }
        match &beads[i].external_ref {
            Some(reference) => {
                if is_in_scope(cfg, reference.as_str()) {
                    return Ok(());
                }
            },
            None => {
                if !matches!(beads[i].status, Status::Tombstone) {
                    would_create += 1;
                }
            },
        }
        i += 1;
    }
    assert(beads@.take(i as int) =~= beads@);
    Err(GateRefusal { would_create })
}

/// A workspace has been mirrored already exactly where some bead's reference
/// is one into the configured project.
pub proof fn references_tell_an_earlier_run(beads: Seq<Issue>, cfg: RemoteConfigView)
    ensures
        is_mirrored_already(beads, cfg) <==> exists|i: int|
            0 <= i < beads.len() && ((#[trigger] beads[i]).external_ref matches Some(r)
                && reconcile::refers_into(cfg.project, r@)),
{
    assert forall|i: int| 0 <= i < beads.len() implies (text::seen(
        (#[trigger] beads[i]).external_ref,
    ) matches Some(r) && reconcile::in_scope(cfg, r)) == (beads[i].external_ref matches Some(r)
        && reconcile::refers_into(cfg.project, r@)) by {
        if let Some(r) = beads[i].external_ref {
            reconcile::scope_is_the_project(cfg, r@);
        }
    }
    if is_mirrored_already(beads, cfg) {
        let i = choose|i: int|
            0 <= i < beads.len() && (text::seen((#[trigger] beads[i]).external_ref) matches Some(r)
                && reconcile::in_scope(cfg, r));
        assert(beads[i].external_ref matches Some(r) && reconcile::refers_into(cfg.project, r@));
    }
    if exists|i: int|
        0 <= i < beads.len() && ((#[trigger] beads[i]).external_ref matches Some(r)
            && reconcile::refers_into(cfg.project, r@)) {
        let i = choose|i: int|
            0 <= i < beads.len() && ((#[trigger] beads[i]).external_ref matches Some(r)
                && reconcile::refers_into(cfg.project, r@));
        assert(text::seen(beads[i].external_ref) matches Some(r) && reconcile::in_scope(cfg, r));
    }
}

/// A refusal names as many issues as the run would create.
pub proof fn refusals_count_what_would_be_created(
    cfg: RemoteConfigView,
    beads: Seq<Issue>,
    remote: Seq<RemoteIssueView>,
)
    ensures
        to_be_created(beads).len() == reconcile::pairing_of(
            cfg,
            beads,
            remote,
        ).unpaired_local.len(),
    decreases beads.len(),
{
    if beads.len() > 0 {
        refusals_count_what_would_be_created(cfg, beads.drop_last(), remote);
    }
}

} // verus!
