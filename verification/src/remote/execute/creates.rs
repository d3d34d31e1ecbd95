//! Creating issues.
//!
//! A bead is paired with its issue the moment that the issue exists: before
//! the next request is sent, the pairs of the report are to be stored.

use crate::json;
use crate::json::{Json, JsonView};
use crate::model::Issue;
use crate::remote::config::{RemoteConfig, RemoteConfigView};
use crate::remote::error;
use crate::remote::error::{RemoteError, RemoteErrorView};
use crate::remote::execute::REMOTE_ACTOR;
use crate::remote::execute::orphans;
use crate::remote::execute::orphans::{
    AmbiguousStamp, AmbiguousStampView, OrphanScan, OrphanScanView, copy_stamps, orphaned_creates,
};
use crate::remote::http;
use crate::remote::http::{Request, RequestView};
use crate::remote::plan;
use crate::remote::plan::{find_bead, ReconcilePlan, ReconcilePlanView};
use crate::remote::talk;
use crate::remote::talk::{Stop, StopView, Talk, TalkView, MOST_REPLIES};
use crate::remote::youtrack::admin;
use crate::remote::youtrack::admin::resolve_project_by_short_name;
use crate::remote::youtrack::mapping;
use crate::remote::youtrack::mapping::issue_create_body;
use crate::text;
use crate::text::{add_pair, find_last};
use vstd::prelude::*;
use vstd::string::*;

verus! {

broadcast use vstd::string::group_string_axioms;

/// Where issues are created.
pub const CREATE_PATH: &'static str = "/api/issues?fields=id,idReadable";

/// How many creations go by between two reports of progress.
pub const BATCH_SIZE: usize = 25;

/// How far the creations have come.
#[derive(Debug, Clone, Copy, PartialEq, Eq, Structural)]
pub struct BatchProgress {
    pub done: usize,
    pub total: usize,
}

/// What the creations came to.
#[derive(Debug, Clone, PartialEq, Eq)]
pub struct CreateReport {
    /// Beads with the issues that were created for them.
    pub created: Vec<(String, String)>,
    /// The bead that could not be created, and why.
    pub failed: Vec<(String, String)>,
    /// Beads with the issues that an earlier run created for them.
    pub recovered: Vec<(String, String)>,
    /// Beads that several issues name.
    pub ambiguous: Vec<AmbiguousStamp>,
}

/// What contracts say of a [`CreateReport`].
pub struct CreateReportView {
    pub created: Seq<(Seq<char>, Seq<char>)>,
    pub failed: Seq<(Seq<char>, Seq<char>)>,
    pub recovered: Seq<(Seq<char>, Seq<char>)>,
    pub ambiguous: Seq<AmbiguousStampView>,
}

impl View for CreateReport {
    type V = CreateReportView;

    open spec fn view(&self) -> CreateReportView {
        CreateReportView {
            created: text::pairs(self.created@),
            failed: text::pairs(self.failed@),
            recovered: text::pairs(self.recovered@),
            ambiguous: text::views(self.ambiguous@),
        }
    }
}

/// A report of nothing.
pub open spec fn no_creates() -> CreateReportView {
    CreateReportView {
        created: Seq::empty(),
        failed: Seq::empty(),
        recovered: Seq::empty(),
        ambiguous: Seq::empty(),
    }
}

impl Default for CreateReport {
    fn default() -> (r: CreateReport)
        ensures
            r@ == no_creates(),
    {
        let r = CreateReport {
            created: Vec::new(),
            failed: Vec::new(),
            recovered: Vec::new(),
            ambiguous: Vec::new(),
        };
        assert(r@.created =~= Seq::empty());
        assert(r@.failed =~= Seq::empty());
        assert(r@.recovered =~= Seq::empty());
        assert(r@.ambiguous =~= Seq::empty());
        r
    }
}

impl CreateReport {
    /// Whether any bead was paired.
    pub fn changed_pairings(&self) -> (r: bool)
        ensures
            r == (self@.created.len() > 0 || self@.recovered.len() > 0),
    {
        self.created.len() > 0 || self.recovered.len() > 0
    }
}

/// What is to be stored of a bead that has been paired: the issue that mirrors
/// it, and who wrote that down.
#[derive(Debug, Clone, PartialEq, Eq)]
pub struct PairUpdate {
    pub bead_id: String,
    pub external_ref: String,
    pub actor: &'static str,
}

/// What is to be stored once `bead_id` has been paired with `remote_id`.
pub fn pair(bead_id: &str, remote_id: &str) -> (r: PairUpdate)
    ensures
        r.bead_id@ == bead_id@,
        r.external_ref@ == remote_id@,
        r.actor@ == REMOTE_ACTOR@,
{
    PairUpdate {
        bead_id: bead_id.to_owned(),
        external_ref: remote_id.to_owned(),
        actor: REMOTE_ACTOR,
    }
}

/// How one creation ends.
#[derive(Debug, Clone, PartialEq, Eq)]
pub enum CreateOutcome {
    Created(String),
    Recovered(String),
    /// Several issues name the bead.
    Skipped,
    Failed(String),
}

/// What contracts say of a [`CreateOutcome`].
pub enum CreateOutcomeView {
    Created(Seq<char>),
    Recovered(Seq<char>),
    Skipped,
    Failed(Seq<char>),
}

impl View for CreateOutcome {
    type V = CreateOutcomeView;

    open spec fn view(&self) -> CreateOutcomeView {
        match self {
            CreateOutcome::Created(id) => CreateOutcomeView::Created(id@),
            CreateOutcome::Recovered(id) => CreateOutcomeView::Recovered(id@),
            CreateOutcome::Skipped => CreateOutcomeView::Skipped,
            CreateOutcome::Failed(why) => CreateOutcomeView::Failed(why@),
        }
    }
}

/// The request that creates an issue.
pub open spec fn create_request(body: JsonView) -> RequestView {
    http::post_of(CREATE_PATH@, body, "issue"@)
}

/// What the answer to a creation means.
pub open spec fn create_answer(reply: Result<JsonView, RemoteErrorView>) -> CreateOutcomeView {
    match reply {
        Err(e) => CreateOutcomeView::Failed(error::error_text(e)),
        Ok(raw) => match json::text_at(raw, "idReadable"@) {
            Some(id) if id.len() > 0 => CreateOutcomeView::Created(id),
            _ => CreateOutcomeView::Failed(
                "the create response carried no idReadable, so the issue could not be paired; the next run will recover it by its Beads ID stamp"@,
            ),
        },
    }
}

/// The creation of an issue for one bead. Nothing is sent for a bead whose
/// issue is there already, nor for one that several issues name.
pub open spec fn creation(
    cfg: RemoteConfigView,
    project_id: Seq<char>,
    beads: Seq<Issue>,
    orphans: OrphanScanView,
    bead_id: Seq<char>,
    t: TalkView,
) -> (Result<CreateOutcomeView, StopView>, TalkView) {
    match text::last_under(orphans.recoverable, bead_id) {
        Some(remote_id) => (Ok(CreateOutcomeView::Recovered(remote_id)), t),
        None => if orphans::in_dispute(orphans, bead_id) {
            (Ok(CreateOutcomeView::Skipped), t)
        } else {
            match plan::bead_called(beads, bead_id) {
                None => (
                    Ok(
                        CreateOutcomeView::Failed(bead_id + " is no longer in this workspace"@),
                    ),
                    t,
                ),
                Some(bead) => match mapping::create_body(cfg, project_id, bead) {
                    Err(e) => (Ok(CreateOutcomeView::Failed(error::error_text(e))), t),
                    Ok(body) => match talk::heard(create_request(body), 0, t) {
                        (Err(stop), after) => (Err(stop), after),
                        (Ok(reply), after) => (Ok(create_answer(reply)), after),
                    },
                },
            }
        },
    }
}

/// The report with the outcome of one creation.
pub open spec fn with_outcome(
    report: CreateReportView,
    bead_id: Seq<char>,
    outcome: CreateOutcomeView,
) -> CreateReportView {
    match outcome {
        CreateOutcomeView::Created(id) => CreateReportView {
            created: report.created.push((bead_id, id)),
            ..report
        },
        CreateOutcomeView::Recovered(id) => CreateReportView {
            recovered: report.recovered.push((bead_id, id)),
            ..report
        },
        CreateOutcomeView::Skipped => report,
        CreateOutcomeView::Failed(why) => CreateReportView {
            failed: report.failed.push((bead_id, why)),
            ..report
        },
    }
}

/// How far the creations have come.
pub struct CreatesView {
    pub report: CreateReportView,
    /// How many beads have been dealt with.
    pub done: int,
    /// What they wait for.
    pub stop: Option<StopView>,
    pub talk: TalkView,
}

/// The creations from the `k`-th on. The first that fails ends them: what
/// stops one would stop the others.
pub open spec fn creations_from(
    cfg: RemoteConfigView,
    project_id: Seq<char>,
    beads: Seq<Issue>,
    orphans: OrphanScanView,
    creates: Seq<Seq<char>>,
    k: int,
    report: CreateReportView,
    t: TalkView,
) -> CreatesView
    decreases creates.len() - k,
{
    if k < 0 || k >= creates.len() {
        CreatesView { report, done: k, stop: None, talk: t }
    } else {
        match creation(cfg, project_id, beads, orphans, creates[k], t) {
            (Err(stop), after) => CreatesView { report, done: k, stop: Some(stop), talk: after },
            (Ok(outcome), after) => {
                let now = with_outcome(report, creates[k], outcome);
                if outcome is Failed {
                    CreatesView { report: now, done: k, stop: None, talk: after }
                } else {
                    creations_from(cfg, project_id, beads, orphans, creates, k + 1, now, after)
                }
            },
        }
    }
}

/// The first bead from the `k`-th on that needs an issue which is not there
/// yet.
pub open spec fn first_to_create(
    orphans: OrphanScanView,
    creates: Seq<Seq<char>>,
    k: int,
) -> Option<Seq<char>>
    decreases creates.len() - k,
{
    if k < 0 || k >= creates.len() {
        None
    } else if text::last_under(orphans.recoverable, creates[k]) is None && !orphans::in_dispute(
        orphans,
        creates[k],
    ) {
        Some(creates[k])
    } else {
        first_to_create(orphans, creates, k + 1)
    }
}

/// All creations of a plan. The project is looked up only where an issue may
/// have to be created. That it cannot be had is the failure of the first
/// creation that needs it, like any other failure of the mirror.
pub open spec fn creations(
    cfg: RemoteConfigView,
    p: ReconcilePlanView,
    beads: Seq<Issue>,
    t: TalkView,
) -> CreatesView {
    let orphans = orphans::orphans_of(p);
    let report = CreateReportView { ambiguous: orphans.ambiguous, ..no_creates() };
    if p.creates.len() == 0 {
        CreatesView { report: no_creates(), done: 0, stop: None, talk: t }
    } else {
        match first_to_create(orphans, p.creates, 0) {
            None => creations_from(cfg, Seq::empty(), beads, orphans, p.creates, 0, report, t),
            Some(bead_id) => match admin::project_from(cfg.project, 0, t) {
                (Err(StopView::Fail(e)), after) => CreatesView {
                    report: with_outcome(
                        report,
                        bead_id,
                        CreateOutcomeView::Failed(error::error_text(e)),
                    ),
                    done: 0,
                    stop: None,
                    talk: after,
                },
                (Err(stop), after) => CreatesView {
                    report,
                    done: 0,
                    stop: Some(stop),
                    talk: after,
                },
                (Ok(project), after) => creations_from(
                    cfg,
                    project.id,
                    beads,
                    orphans,
                    p.creates,
                    0,
                    report,
                    after,
                ),
            },
        }
    }
}

/// The reports of progress that have been due: one for each full batch, and
/// one at the end where the last batch is not full.
pub open spec fn progress_due(done: nat, total: usize, ended: bool) -> Seq<BatchProgress> {
    Seq::new(
        (done / BATCH_SIZE as nat),
        |i: int| BatchProgress { done: ((i + 1) * BATCH_SIZE) as usize, total },
    ) + (if ended && done % BATCH_SIZE as nat != 0 {
        seq![BatchProgress { done: done as usize, total }]
    } else {
        Seq::empty()
    })
}

/// The creations as far as they have come. The pairs in the report are to be
/// stored before anything else is done.
#[derive(Debug, PartialEq, Eq)]
pub struct CreateStep {
    pub report: CreateReport,
    pub progress: Vec<BatchProgress>,
    /// What they wait for, if they have not ended.
    pub stop: Option<Stop>,
}

fn create_one(
    talk: &mut Talk,
    cfg: &RemoteConfig,
    project_id: &str,
    beads: &Vec<Issue>,
    bead_id: &str,
    orphans: &OrphanScan,
) -> (r: Result<CreateOutcome, Stop>)
    ensures
        (talk::seen_step(r), final(talk)@) == creation(
            cfg@,
            project_id@,
            beads@,
            orphans@,
            bead_id@,
            old(talk)@,
        ),
        final(talk)@.rest.len() <= old(talk)@.rest.len(),
{
    if let Some(remote_id) = find_last(&orphans.recoverable, bead_id) {
        return Ok(CreateOutcome::Recovered(remote_id.clone()));
    }
    if orphans.is_ambiguous(bead_id) {
        return Ok(CreateOutcome::Skipped);
    }
    let bead = match find_bead(beads, bead_id) {
        Some(bead) => bead,
        None => {
            let mut why = bead_id.to_owned();
            why.append(" is no longer in this workspace");
            return Ok(CreateOutcome::Failed(why));
        },
    };
    let body = match issue_create_body(cfg, project_id, bead) {
        Ok(body) => body,
        Err(e) => {
            return Ok(CreateOutcome::Failed(e.to_string()));
        },
    };
    match talk.hear(Request::post(CREATE_PATH.to_owned(), body, "issue"), 0) {
        Err(stop) => Err(stop),
        Ok(reply) => Ok(read_create_answer(reply)),
    }
}

/// What the answer to a creation means.
pub fn read_create_answer(reply: &Result<Json, RemoteError>) -> (r: CreateOutcome)
    ensures
        r@ == create_answer(error::seen_result(*reply)),
{
    match reply {
        Err(e) => CreateOutcome::Failed(e.to_string()),
        Ok(raw) => {
            if let Some(id) = raw.text_at("idReadable") {
                if !id.is_empty() {
                    return CreateOutcome::Created(id.to_owned());
                }
            }
            CreateOutcome::Failed(
                "the create response carried no idReadable, so the issue could not be paired; the next run will recover it by its Beads ID stamp".to_owned(),
            )
        },
    }
}

fn add_outcome(report: &mut CreateReport, bead_id: &str, outcome: CreateOutcome)
    ensures
        final(report)@ == with_outcome(old(report)@, bead_id@, outcome@),
{
    match outcome {
        CreateOutcome::Created(id) => {
            add_pair(&mut report.created, bead_id.to_owned(), id);
        },
        CreateOutcome::Recovered(id) => {
            add_pair(&mut report.recovered, bead_id.to_owned(), id);
        },
        CreateOutcome::Skipped => {},
        CreateOutcome::Failed(why) => {
            add_pair(&mut report.failed, bead_id.to_owned(), why);
        },
    }
}

fn find_to_create(orphans: &OrphanScan, creates: &Vec<String>) -> (r: Option<String>)
    ensures
        text::seen(r) == first_to_create(orphans@, text::views(creates@), 0),
{
    let ghost all = text::views(creates@);
    let mut i: usize = 0;
    while i < creates.len()
        invariant
            i <= creates@.len(),
            all == text::views(creates@),
            first_to_create(orphans@, all, 0) == first_to_create(orphans@, all, i as int),
        decreases creates@.len() - i,
    {
        assert(all[i as int] == creates@[i as int]@);
        if find_last(&orphans.recoverable, creates[i].as_str()).is_none() && !orphans.is_ambiguous(
            creates[i].as_str(),
        ) {
            return Some(creates[i].clone());
        }
        i += 1;
    }
    None
}

/// The identifier of the configured project.
pub fn resolve_project_id(talk: &mut Talk, cfg: &RemoteConfig) -> (r: Result<String, Stop>)
    requires
        old(talk)@.rest.len() <= MOST_REPLIES,
    ensures
        (talk::seen_step(r), final(talk)@) == (match admin::project_from(
            cfg@.project,
            0,
            old(talk)@,
        ) {
            (Ok(project), after) => (Ok(project.id), after),
            (Err(stop), after) => (Err(stop), after),
        }),
        final(talk)@.rest.len() <= old(talk)@.rest.len(),
{
    match resolve_project_by_short_name(talk, cfg.project.as_str()) {
        Ok(project) => Ok(project.id),
        Err(stop) => Err(stop),
    }
}

fn report_progress(done: usize, total: usize, ended: bool) -> (r: Vec<BatchProgress>)
    ensures
        r@ == progress_due(done as nat, total, ended),
{
    let mut out: Vec<BatchProgress> = Vec::new();
    let ghost full = Seq::new(
        (done / BATCH_SIZE) as nat,
        |i: int| BatchProgress { done: ((i + 1) * BATCH_SIZE) as usize, total },
    );
    let batches: usize = done / BATCH_SIZE;
    let mut i: usize = 0;
    assert(out@ =~= full.take(0));
    while i < batches
        invariant
            i <= batches,
            batches == done / BATCH_SIZE,
            batches * BATCH_SIZE <= done,
            full == Seq::new(
                (done / BATCH_SIZE) as nat,
                |i: int| BatchProgress { done: ((i + 1) * BATCH_SIZE) as usize, total },
            ),
            out@ == full.take(i as int),
        decreases batches - i,
    {
        i += 1;
        out.push(BatchProgress { done: i * BATCH_SIZE, total });
        assert(out@ =~= full.take(i as int));
    }
    assert(full.take(i as int) =~= full);
    if ended && done % BATCH_SIZE != 0 {
        out.push(BatchProgress { done, total });
    }
    assert(out@ =~= progress_due(done as nat, total, ended));
    out
}

/// Creates every issue that the plan asks for, as far as the replies reach.
#[verifier::loop_isolation(false)]
pub fn execute_creates(
    talk: &mut Talk,
    cfg: &RemoteConfig,
    plan: &ReconcilePlan,
    beads: &Vec<Issue>,
) -> (r: CreateStep)
    requires
        old(talk)@.rest.len() <= MOST_REPLIES,
    ensures
        ({
            let end = creations(cfg@, plan@, beads@, old(talk)@);
            &&& r.report@ == end.report
            &&& text::seen(r.stop) == end.stop
            &&& r.progress@ == progress_due(
                end.done as nat,
                plan.creates@.len() as usize,
                end.stop is None,
            )
            &&& final(talk)@ == end.talk
        }),
        final(talk)@.rest.len() <= old(talk)@.rest.len(),
{
    let mut report = CreateReport::default();
    assert(plan@.creates.len() == plan.creates@.len());
    if plan.creates.len() == 0 {
        return CreateStep { report, progress: report_progress(0, 0, true), stop: None };
    }
    let orphans = orphaned_creates(plan);
    report.ambiguous = copy_stamps(&orphans.ambiguous);
    let total: usize = plan.creates.len();
    let project_id = match find_to_create(&orphans, &plan.creates) {
        None => String::new(),
        Some(bead_id) => match resolve_project_id(talk, cfg) {
            Ok(id) => id,
            Err(Stop::Fail(e)) => {
                add_outcome(&mut report, bead_id.as_str(), CreateOutcome::Failed(e.to_string()));
                return CreateStep {
                    report,
                    progress: report_progress(0, total, true),
                    stop: None,
                };
            },
            Err(stop) => {
                return CreateStep {
                    report,
                    progress: report_progress(0, total, false),
                    stop: Some(stop),
                };
            },
        },
    };
    let ghost start = old(talk)@;
    let ghost creates = text::views(plan.creates@);
    let ghost whole = creations_from(
        cfg@,
        project_id@,
        beads@,
        orphans@,
        creates,
        0,
        report@,
        talk@,
    );
    assert(first_to_create(orphans@, creates, 0) is None ==> project_id@ =~= Seq::empty());
    assert(whole == creations(cfg@, plan@, beads@, start));
    let mut done: usize = 0;
    while done < plan.creates.len()
        invariant
            done <= plan.creates@.len(),
            talk@.rest.len() <= start.rest.len(),
            whole == creations_from(
                cfg@,
                project_id@,
                beads@,
                orphans@,
                creates,
                done as int,
                report@,
                talk@,
            ),
        decreases plan.creates@.len() - done,
    {
        let bead_id = plan.creates[done].as_str();
        assert(creates[done as int] == bead_id@);
        match create_one(talk, cfg, project_id.as_str(), beads, bead_id, &orphans) {
            Ok(outcome) => {
                let failed = matches!(outcome, CreateOutcome::Failed(_));
                add_outcome(&mut report, bead_id, outcome);
                if failed {
                    return CreateStep {
                        report,
                        progress: report_progress(done, total, true),
                        stop: None,
                    };
                }
            },
            Err(stop) => {
                return CreateStep {
                    report,
                    progress: report_progress(done, total, false),
                    stop: Some(stop),
                };
            },
        }
        done += 1;
    }
    CreateStep { report, progress: report_progress(done, total, true), stop: None }
}

} // verus!
