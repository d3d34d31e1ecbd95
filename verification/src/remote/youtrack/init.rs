//! Preparing a project so that a workspace can be mirrored into it.
//!
//! Two things that this does are seen by people who never run it. The
//! prototypes of fields belong to the whole instance, and the defaults of the
//! project's fields are set to what a new bead has. Both are said before they
//! are done.
//!
//! Whether the workspace holds a value that no map names is asked before
//! anything is sent at all.

use crate::json;
use crate::json::{Json, JsonView};
use crate::remote::config;
use crate::remote::config::{map_get, RemoteConfig, RemoteConfigView};
use crate::remote::error::{RemoteError, RemoteErrorView};
use crate::remote::http;
use crate::remote::http::{Request, RequestView};
use crate::remote::talk;
use crate::remote::talk::{Stop, StopView, Talk, TalkView, MOST_REPLIES};
use crate::remote::youtrack::admin;
use crate::remote::youtrack::admin::{
    find_field, AdminClient, FieldRef, FieldRefView, ProjectRef, ProjectRefView, ALL_FIELDS,
};
use crate::remote::youtrack::bundles;
use crate::remote::youtrack::bundles::{
    holds_pending, plan_missing, BundleRef, BundleRefView, PendingValue, PendingValueView,
    ProjectFieldBundle, ProjectFieldBundleView,
};
use crate::remote::youtrack::clone;
use crate::remote::youtrack::clone::{project_field_type, Emptiness};
use crate::remote::youtrack::sharedness;
use crate::remote::youtrack::sharedness::{BundleUsage, BundleUsageView, Sharedness, SharednessView};
use crate::order;
use crate::order::sort_distinct;
use crate::text;
use crate::text::{copy_texts, decimal_of, join, same_text, starts_with};
use vstd::prelude::*;
use vstd::string::*;

verus! {

broadcast use vstd::string::group_string_axioms;

/// The fields with bundles that are looked after, in this order.
pub const RECONCILED_FIELDS: [&'static str; 3] = ["Type", "State", "Priority"];

/// The types and statuses that a workspace holds.
#[derive(Debug, Clone, PartialEq, Eq)]
pub struct WorkspaceVocabulary {
    pub types: Vec<String>,
    pub statuses: Vec<String>,
}

impl WorkspaceVocabulary {
    /// Both lists are in order and hold each value once.
    pub open spec fn well_formed(&self) -> bool {
        order::strictly_rising(text::views(self.types@)) && order::strictly_rising(
            text::views(self.statuses@),
        )
    }

    /// The vocabulary of a workspace with these types and statuses.
    pub fn of(types: &Vec<String>, statuses: &Vec<String>) -> (r: WorkspaceVocabulary)
        ensures
            r.well_formed(),
            text::views(r.types@) == order::distinct_sorted(text::views(types@)),
            text::views(r.statuses@) == order::distinct_sorted(text::views(statuses@)),
    {
        proof {
            order::distinct_sorted_facts(text::views(types@));
            order::distinct_sorted_facts(text::views(statuses@));
        }
        WorkspaceVocabulary { types: sort_distinct(types), statuses: sort_distinct(statuses) }
    }
}

impl Default for WorkspaceVocabulary {
    /// The vocabulary of an empty workspace.
    fn default() -> (r: WorkspaceVocabulary)
        ensures
            r.well_formed(),
            r.types@.len() == 0,
            r.statuses@.len() == 0,
    {
        WorkspaceVocabulary { types: Vec::new(), statuses: Vec::new() }
    }
}

/// What can be chosen.
#[derive(Debug, Clone, Copy, PartialEq, Eq, Structural)]
pub struct InitOptions {
    /// Add values to a bundle although others use it.
    pub allow_shared_bundle: bool,
    /// Leave the defaults of the project's fields as they are.
    pub keep_project_defaults: bool,
    /// Change nothing.
    pub dry_run: bool,
}

impl Default for InitOptions {
    fn default() -> (r: InitOptions)
        ensures
            r == (InitOptions {
                allow_shared_bundle: false,
                keep_project_defaults: false,
                dry_run: false,
            }),
    {
        InitOptions { allow_shared_bundle: false, keep_project_defaults: false, dry_run: false }
    }
}

/// A default that was changed.
#[derive(Debug, Clone, PartialEq, Eq)]
pub struct DefaultChange {
    pub field_name: String,
    pub old: Vec<String>,
    pub new: String,
}

/// What contracts say of a [`DefaultChange`].
pub struct DefaultChangeView {
    pub field_name: Seq<char>,
    pub old: Seq<Seq<char>>,
    pub new: Seq<char>,
}

impl View for DefaultChange {
    type V = DefaultChangeView;

    open spec fn view(&self) -> DefaultChangeView {
        DefaultChangeView {
            field_name: self.field_name@,
            old: text::views(self.old@),
            new: self.new@,
        }
    }
}

/// A bundle that others use, and the copy that took its place.
#[derive(Debug, Clone, PartialEq, Eq)]
pub struct BundleClone {
    pub field_name: String,
    pub source: String,
    pub clone: String,
}

/// What contracts say of a [`BundleClone`].
pub struct BundleCloneView {
    pub field_name: Seq<char>,
    pub source: Seq<char>,
    pub clone: Seq<char>,
}

impl View for BundleClone {
    type V = BundleCloneView;

    open spec fn view(&self) -> BundleCloneView {
        BundleCloneView {
            field_name: self.field_name@,
            source: self.source@,
            clone: self.clone@,
        }
    }
}

/// The values that a field's bundle got.
#[derive(Debug, Clone, PartialEq, Eq)]
pub struct ValuesAdded {
    pub field_name: String,
    pub values: Vec<String>,
}

/// What contracts say of a [`ValuesAdded`].
pub struct ValuesAddedView {
    pub field_name: Seq<char>,
    pub values: Seq<Seq<char>>,
}

impl View for ValuesAdded {
    type V = ValuesAddedView;

    open spec fn view(&self) -> ValuesAddedView {
        ValuesAddedView {
            field_name: self.field_name@,
            values: text::views(self.values@),
        }
    }
}

/// The bundle that a field ends up with.
#[derive(Debug, Clone, PartialEq, Eq)]
pub struct SettledBundle {
    pub field_name: String,
    pub bundle: BundleRef,
}

/// What contracts say of a [`SettledBundle`].
pub struct SettledBundleView {
    pub field_name: Seq<char>,
    pub bundle: BundleRefView,
}

impl View for SettledBundle {
    type V = SettledBundleView;

    open spec fn view(&self) -> SettledBundleView {
        SettledBundleView {
            field_name: self.field_name@,
            bundle: self.bundle@,
        }
    }
}

/// Everything that was done.
#[derive(Debug, Clone, PartialEq, Eq)]
pub struct InitReport {
    pub prototypes_created: Vec<String>,
    pub fields_attached: Vec<String>,
    pub values_added: Vec<ValuesAdded>,
    pub clones: Vec<BundleClone>,
    pub defaults_changed: Vec<DefaultChange>,
    pub projects_seen: Vec<String>,
    pub notes: Vec<String>,
    pub dry_run: bool,
}

/// What contracts say of a [`InitReport`].
pub struct InitReportView {
    pub prototypes_created: Seq<Seq<char>>,
    pub fields_attached: Seq<Seq<char>>,
    pub values_added: Seq<ValuesAddedView>,
    pub clones: Seq<BundleCloneView>,
    pub defaults_changed: Seq<DefaultChangeView>,
    pub projects_seen: Seq<Seq<char>>,
    pub notes: Seq<Seq<char>>,
    pub dry_run: bool,
}

impl View for InitReport {
    type V = InitReportView;

    open spec fn view(&self) -> InitReportView {
        InitReportView {
            prototypes_created: text::views(self.prototypes_created@),
            fields_attached: text::views(self.fields_attached@),
            values_added: text::views(self.values_added@),
            clones: text::views(self.clones@),
            defaults_changed: text::views(self.defaults_changed@),
            projects_seen: text::views(self.projects_seen@),
            notes: text::views(self.notes@),
            dry_run: self.dry_run,
        }
    }
}

/// A field of a project with its defaults.
#[derive(Debug, Clone, PartialEq, Eq)]
pub struct ProjectFieldSummary {
    pub instance_id: String,
    pub field_name: String,
    pub default_values: Vec<String>,
}

/// What contracts say of a [`ProjectFieldSummary`].
pub struct ProjectFieldSummaryView {
    pub instance_id: Seq<char>,
    pub field_name: Seq<char>,
    pub default_values: Seq<Seq<char>>,
}

impl View for ProjectFieldSummary {
    type V = ProjectFieldSummaryView;

    open spec fn view(&self) -> ProjectFieldSummaryView {
        ProjectFieldSummaryView {
            instance_id: self.instance_id@,
            field_name: self.field_name@,
            default_values: text::views(self.default_values@),
        }
    }
}

/// A report of nothing.
pub open spec fn blank_report(dry_run: bool) -> InitReportView {
    InitReportView {
        prototypes_created: Seq::empty(),
        fields_attached: Seq::empty(),
        values_added: Seq::empty(),
        clones: Seq::empty(),
        defaults_changed: Seq::empty(),
        projects_seen: Seq::empty(),
        notes: Seq::empty(),
        dry_run,
    }
}

impl Default for InitReport {
    fn default() -> (r: InitReport)
        ensures
            r@ == blank_report(false),
    {
        let r = InitReport {
            prototypes_created: Vec::new(),
            fields_attached: Vec::new(),
            values_added: Vec::new(),
            clones: Vec::new(),
            defaults_changed: Vec::new(),
            projects_seen: Vec::new(),
            notes: Vec::new(),
            dry_run: false,
        };
        assert(r@.prototypes_created =~= Seq::empty());
        assert(r@.fields_attached =~= Seq::empty());
        assert(r@.values_added =~= Seq::empty());
        assert(r@.clones =~= Seq::empty());
        assert(r@.defaults_changed =~= Seq::empty());
        assert(r@.projects_seen =~= Seq::empty());
        assert(r@.notes =~= Seq::empty());
        r
    }
}

// ---------------------------------------------------------------------------
// Before anything is sent
// ---------------------------------------------------------------------------

/// The complaint about a type that no map names.
pub open spec fn type_problem(cfg: RemoteConfigView, value: Seq<char>) -> Option<Seq<char>> {
    if config::value_under(cfg.type_map, value) is Some {
        None
    } else {
        Some("  issue_type '"@ + value + "' — add it to type_map"@)
    }
}

/// The complaint about a status that no map names. That of a deleted bead
/// needs none.
pub open spec fn status_problem(cfg: RemoteConfigView, value: Seq<char>) -> Option<Seq<char>> {
    if value == "tombstone"@ || config::value_under(cfg.status_map, value) is Some {
        None
    } else {
        Some("  status '"@ + value + "' — add it to status_map"@)
    }
}

/// The complaints about all values that no map names.
pub open spec fn vocabulary_problems(
    cfg: RemoteConfigView,
    types: Seq<Seq<char>>,
    statuses: Seq<Seq<char>>,
) -> Seq<Seq<char>> {
    text::picked(types, |v: Seq<char>| type_problem(cfg, v)) + text::picked(
        statuses,
        |v: Seq<char>| status_problem(cfg, v),
    )
}

/// The refusal of a workspace with such values.
pub open spec fn vocabulary_refusal(problems: Seq<Seq<char>>) -> RemoteErrorView {
    RemoteErrorView::Config(
        "this workspace holds values that .beads/remote.yaml does not map:\n"@ + text::joined(
            problems,
            "\n"@,
        )
            + "\nEvery value must be mapped before a push, because an unmapped value cannot be written to the mirror and cannot be recognised on the way back."@,
    )
}

/// Refuses a workspace with a value that no map names, naming all of them.
pub fn preflight_vocabulary(cfg: &RemoteConfig, vocab: &WorkspaceVocabulary) -> (r: Result<
    (),
    RemoteError,
>)
    ensures
        ({
            let problems = vocabulary_problems(
                cfg@,
                text::views(vocab.types@),
                text::views(vocab.statuses@),
            );
            match r {
                Ok(_) => problems.len() == 0,
                Err(e) => problems.len() > 0 && e@ == vocabulary_refusal(problems),
            }
        }),
{
    let ghost types = text::views(vocab.types@);
    let ghost statuses = text::views(vocab.statuses@);
    let ghost f = |v: Seq<char>| type_problem(cfg@, v);
    let ghost g = |v: Seq<char>| status_problem(cfg@, v);
    let mut problems: Vec<String> = Vec::new();
    let mut i: usize = 0;
    assert(text::views(problems@) =~= text::picked(types.take(0), f));
    while i < vocab.types.len()
        invariant
            i <= vocab.types@.len(),
            types == text::views(vocab.types@),
            f == (|v: Seq<char>| type_problem(cfg@, v)),
            text::views(problems@) == text::picked(types.take(i as int), f),
        decreases vocab.types@.len() - i,
    {
        proof {
            text::picked_step(types, f, i as int);
        }
        if map_get(&cfg.type_map, vocab.types[i].as_str()).is_none() {
            let mut one = "  issue_type '".to_owned();
            one.append(vocab.types[i].as_str());
            one.append("' — add it to type_map");
            proof {
                text::views_push(problems@, one);
            }
            problems.push(one);
        }
        i += 1;
    }
    assert(types.take(i as int) =~= types);
    let ghost first = text::views(problems@);
    let mut k: usize = 0;
    assert(first + text::picked(statuses.take(0), g) =~= first);
    while k < vocab.statuses.len()
        invariant
            k <= vocab.statuses@.len(),
            statuses == text::views(vocab.statuses@),
            g == (|v: Seq<char>| status_problem(cfg@, v)),
            text::views(problems@) == first + text::picked(statuses.take(k as int), g),
        decreases vocab.statuses@.len() - k,
    {
        let ghost had = text::picked(statuses.take(k as int), g);
        proof {
            text::picked_step(statuses, g, k as int);
        }
        let value = vocab.statuses[k].as_str();
        if !same_text(value, "tombstone") && map_get(&cfg.status_map, value).is_none() {
            let mut one = "  status '".to_owned();
            one.append(value);
            one.append("' — add it to status_map");
            proof {
                text::views_push(problems@, one);
                assert((first + had).push(one@) =~= first + had.push(one@));
            }
            problems.push(one);
        }
        k += 1;
    }
    assert(statuses.take(k as int) =~= statuses);
    assert(text::views(problems@).len() == problems@.len());
    if problems.len() == 0 {
        return Ok(());
    }
    let list = join(&problems, "\n");
    let mut out = "this workspace holds values that .beads/remote.yaml does not map:\n".to_owned();
    out.append(list.as_str());
    out.append(
        "\nEvery value must be mapped before a push, because an unmapped value cannot be written to the mirror and cannot be recognised on the way back.",
    );
    Err(RemoteError::Config(out))
}

// ---------------------------------------------------------------------------
// The project's fields
// ---------------------------------------------------------------------------

/// The names of the defaults of a field.
pub open spec fn default_names(raw: JsonView) -> Seq<Seq<char>> {
    json::items_of(json::member(raw, "defaultValues"@)).map_values(
        |v: JsonView| json::text_or_empty(v, "name"@),
    )
}

/// A field of a project, where it has a name.
pub open spec fn summary_read(raw: JsonView) -> Option<ProjectFieldSummaryView> {
    match json::member(raw, "field"@) {
        Some(field) if json::text_or_empty(field, "name"@).len() > 0 => Some(
            ProjectFieldSummaryView {
                instance_id: json::text_or_empty(raw, "id"@),
                field_name: json::text_or_empty(field, "name"@),
                default_values: default_names(raw),
            },
        ),
        _ => None,
    }
}

/// The request for the fields of a project with their defaults.
pub open spec fn summaries_request(project: ProjectRefView) -> RequestView {
    http::get_of(
        "/api/admin/projects/"@ + project.id
            + "/customFields?fields=id,field(name),defaultValues(name)&$top=200"@,
        "project field summaries"@,
    )
}

/// The fields of a project with their defaults.
pub open spec fn summaries(project: ProjectRefView, t: TalkView) -> (
    Result<Seq<ProjectFieldSummaryView>, StopView>,
    TalkView,
) {
    match talk::asked(summaries_request(project), 0, t) {
        (Err(stop), after) => (Err(stop), after),
        (Ok(raw), after) => (
            Ok(text::picked(json::items_of(Some(raw)), |f: JsonView| summary_read(f))),
            after,
        ),
    }
}

/// The first field of the project with the name.
pub open spec fn summary_called(all: Seq<ProjectFieldSummaryView>, name: Seq<char>) -> Option<
    ProjectFieldSummaryView,
>
    decreases all.len(),
{
    if all.len() == 0 {
        None
    } else if all[0].field_name == name {
        Some(all[0])
    } else {
        summary_called(all.drop_first(), name)
    }
}

/// The names of the provided fields that meet a condition.
pub open spec fn provided_names(wanted: spec_fn(Seq<char>) -> bool) -> Seq<Seq<char>> {
    text::picked(
        ALL_FIELDS@,
        |f: (&'static str, &'static str)|
            if wanted(f.0@) {
                Some(f.0@)
            } else {
                None
            },
    )
}

/// The names of the provided fields that the instance lacks, by the same
/// listing that their creation goes by.
pub open spec fn missing_prototypes(t: TalkView) -> (Result<Seq<Seq<char>>, StopView>, TalkView) {
    match admin::prototypes(t) {
        (Err(stop), after) => (Err(stop), after),
        (Ok(present), after) => (
            Ok(provided_names(|name: Seq<char>| admin::field_called(present, name) is None)),
            after,
        ),
    }
}

/// The names of the provided fields that the project lacks.
pub open spec fn names_unattached(attached: Seq<ProjectFieldSummaryView>) -> Seq<Seq<char>> {
    provided_names(|name: Seq<char>| summary_called(attached, name) is None)
}

/// The fields that the project lacks.
pub open spec fn fields_unattached(
    fields: Seq<FieldRefView>,
    attached: Seq<ProjectFieldSummaryView>,
) -> Seq<FieldRefView> {
    text::picked(
        fields,
        |f: FieldRefView|
            if summary_called(attached, f.name) is None {
                Some(f)
            } else {
                None
            },
    )
}

/// What is said before prototypes are created.
pub open spec fn creating_text(missing: Seq<Seq<char>>) -> Seq<char> {
    "creating "@ + text::decimal(missing.len() as int)
        + " custom field prototype(s) — these are INSTANCE-WIDE and will appear in every project's administration: "@
        + text::joined(missing, ", "@)
}

/// The run once it has said which prototypes it creates.
pub open spec fn after_creating(missing: Seq<Seq<char>>, t: TalkView) -> TalkView {
    if missing.len() > 0 {
        talk::saying(creating_text(missing), t)
    } else {
        t
    }
}

/// The names of fields.
pub open spec fn field_names(fields: Seq<FieldRefView>) -> Seq<Seq<char>> {
    fields.map_values(|f: FieldRefView| f.name)
}

/// Providing the fields: the names of the prototypes that were created and of
/// the fields that were attached. A dry run names them only.
pub open spec fn fields_provided(project: ProjectRefView, dry_run: bool, t: TalkView) -> (
    Result<(Seq<Seq<char>>, Seq<Seq<char>>), StopView>,
    TalkView,
) {
    match missing_prototypes(t) {
        (Err(stop), after) => (Err(stop), after),
        (Ok(missing), t1) => {
            let t2 = after_creating(missing, t1);
            if dry_run {
                match summaries(project, t2) {
                    (Err(stop), after) => (Err(stop), after),
                    (Ok(attached), t3) => (Ok((missing, names_unattached(attached))), t3),
                }
            } else {
                match admin::ensured(t2) {
                    (Err(stop), after) => (Err(stop), after),
                    (Ok(fields), t3) => match summaries(project, t3) {
                        (Err(stop), after) => (Err(stop), after),
                        (Ok(attached), t4) => {
                            let pending = fields_unattached(fields, attached);
                            match admin::attached_from(project, pending, 0, t4) {
                                (Err(stop), after) => (Err(stop), after),
                                (Ok(_), t5) => (Ok((missing, field_names(pending))), t5),
                            }
                        },
                    },
                }
            }
        },
    }
}

fn read_defaults(raw: &Json) -> (r: Vec<String>)
    ensures
        text::views(r@) == default_names(raw@),
{
    let items = raw.items_at("defaultValues");
    let ghost want = default_names(raw@);
    let mut out: Vec<String> = Vec::new();
    let mut i: usize = 0;
    assert(text::views(out@) =~= want.take(0));
    while i < items.len()
        invariant
            i <= items@.len(),
            text::views(items@) == json::items_of(json::member(raw@, "defaultValues"@)),
            want == default_names(raw@),
            text::views(out@) == want.take(i as int),
        decreases items@.len() - i,
    {
        let one = items[i].text_or_empty("name").to_owned();
        proof {
            assert(text::views(items@)[i as int] == items@[i as int]@);
            text::views_push(out@, one);
            assert(want.take(i + 1) =~= want.take(i as int).push(one@));
        }
        out.push(one);
        i += 1;
    }
    assert(want.take(i as int) =~= want);
    out
}

fn read_summary(raw: &Json) -> (r: Option<ProjectFieldSummary>)
    ensures
        text::seen(r) == summary_read(raw@),
{
    match raw.get("field") {
        Some(field) => {
            let field_name = field.text_or_empty("name");
            if field_name.is_empty() {
                return None;
            }
            Some(
                ProjectFieldSummary {
                    instance_id: raw.text_or_empty("id").to_owned(),
                    field_name: field_name.to_owned(),
                    default_values: read_defaults(raw),
                },
            )
        },
        None => None,
    }
}

fn find_summary<'a>(all: &'a Vec<ProjectFieldSummary>, name: &str) -> (r: Option<
    &'a ProjectFieldSummary,
>)
    ensures
        text::seen(r) == summary_called(text::views(all@), name@),
{
    let ghost seen = text::views(all@);
    let mut i: usize = 0;
    assert(seen.skip(0) =~= seen);
    while i < all.len()
        invariant
            i <= all@.len(),
            seen == text::views(all@),
            summary_called(seen, name@) == summary_called(seen.skip(i as int), name@),
        decreases all@.len() - i,
    {
        assert(seen.skip(i as int)[0] == all@[i as int]@);
        assert(seen.skip(i as int).drop_first() =~= seen.skip(i + 1));
        if same_text(all[i].field_name.as_str(), name) {
            return Some(&all[i]);
        }
        i += 1;
    }
    None
}

impl AdminClient {
    /// The fields of the project with their defaults.
    pub fn read_project_field_summaries(&self, talk: &mut Talk, project: &ProjectRef) -> (r: Result<
        Vec<ProjectFieldSummary>,
        Stop,
    >)
        ensures
            (match r {
                Ok(list) => Ok(text::views(list@)),
                Err(stop) => Err(stop@),
            }, final(talk)@) == summaries(project@, old(talk)@),
            final(talk)@.rest.len() <= old(talk)@.rest.len(),
    {
        let mut path = "/api/admin/projects/".to_owned();
        path.append(project.id.as_str());
        path.append("/customFields?fields=id,field(name),defaultValues(name)&$top=200");
        let raw = match talk.ask(Request::get(path, "project field summaries"), 0) {
            Ok(raw) => raw,
            Err(stop) => {
                return Err(stop);
            },
        };
        let items = raw.items();
        let ghost all = text::views(items@);
        let ghost f = |f: JsonView| summary_read(f);
        let mut out: Vec<ProjectFieldSummary> = Vec::new();
        let mut i: usize = 0;
        assert(text::views(out@) =~= text::picked(all.take(0), f));
        while i < items.len()
            invariant
                i <= items@.len(),
                all == text::views(items@),
                f == (|f: JsonView| summary_read(f)),
                text::views(out@) == text::picked(all.take(i as int), f),
            decreases items@.len() - i,
        {
            proof {
                text::picked_step(all, f, i as int);
            }
            if let Some(one) = read_summary(&items[i]) {
                proof {
                    text::views_push(out@, one);
                }
                out.push(one);
            }
            i += 1;
        }
        assert(all.take(i as int) =~= all);
        Ok(out)
    }

    /// The names of the provided fields that the instance lacks.
    pub fn missing_field_prototypes(&self, talk: &mut Talk) -> (r: Result<Vec<String>, Stop>)
        requires
            old(talk)@.rest.len() <= MOST_REPLIES,
        ensures
            (match r {
                Ok(list) => Ok(text::views(list@)),
                Err(stop) => Err(stop@),
            }, final(talk)@) == missing_prototypes(old(talk)@),
            final(talk)@.rest.len() <= old(talk)@.rest.len(),
    {
        let present = match self.list_field_prototypes(talk) {
            Ok(present) => present,
            Err(stop) => {
                return Err(stop);
            },
        };
        let ghost all = text::views(present@);
        let ghost f = |f: (&'static str, &'static str)|
            if (|name: Seq<char>| admin::field_called(all, name) is None)(f.0@) {
                Some(f.0@)
            } else {
                None
            };
        let mut out: Vec<String> = Vec::new();
        let mut k: usize = 0;
        assert(text::views(out@) =~= text::picked(ALL_FIELDS@.take(0), f));
        while k < ALL_FIELDS.len()
            invariant
                k <= ALL_FIELDS@.len(),
                all == text::views(present@),
                f == (|f: (&'static str, &'static str)|
                    if (|name: Seq<char>| admin::field_called(all, name) is None)(f.0@) {
                        Some(f.0@)
                    } else {
                        None
                    }),
                text::views(out@) == text::picked(ALL_FIELDS@.take(k as int), f),
            decreases ALL_FIELDS@.len() - k,
        {
            proof {
                text::picked_step(ALL_FIELDS@, f, k as int);
            }
            if find_field(&present, ALL_FIELDS[k].0).is_none() {
                let one = ALL_FIELDS[k].0.to_owned();
                proof {
                    text::views_push(out@, one);
                }
                out.push(one);
            }
            k += 1;
        }
        assert(ALL_FIELDS@.take(k as int) =~= ALL_FIELDS@);
        Ok(out)
    }
}

fn unattached_names(attached: &Vec<ProjectFieldSummary>) -> (r: Vec<String>)
    ensures
        text::views(r@) == names_unattached(text::views(attached@)),
{
    let ghost seen = text::views(attached@);
    let ghost f = |f: (&'static str, &'static str)|
        if (|name: Seq<char>| summary_called(seen, name) is None)(f.0@) {
            Some(f.0@)
        } else {
            None
        };
    let mut out: Vec<String> = Vec::new();
    let mut k: usize = 0;
    assert(text::views(out@) =~= text::picked(ALL_FIELDS@.take(0), f));
    while k < ALL_FIELDS.len()
        invariant
            k <= ALL_FIELDS@.len(),
            seen == text::views(attached@),
            f == (|f: (&'static str, &'static str)|
                if (|name: Seq<char>| summary_called(seen, name) is None)(f.0@) {
                    Some(f.0@)
                } else {
                    None
                }),
            text::views(out@) == text::picked(ALL_FIELDS@.take(k as int), f),
        decreases ALL_FIELDS@.len() - k,
    {
        proof {
            text::picked_step(ALL_FIELDS@, f, k as int);
        }
        if find_summary(attached, ALL_FIELDS[k].0).is_none() {
            let one = ALL_FIELDS[k].0.to_owned();
            proof {
                text::views_push(out@, one);
            }
            out.push(one);
        }
        k += 1;
    }
    assert(ALL_FIELDS@.take(k as int) =~= ALL_FIELDS@);
    out
}

fn unattached_fields(fields: &Vec<FieldRef>, attached: &Vec<ProjectFieldSummary>) -> (r: (
    Vec<FieldRef>,
    Vec<String>,
))
    ensures
        text::views(r.0@) == fields_unattached(text::views(fields@), text::views(attached@)),
        text::views(r.1@) == field_names(text::views(r.0@)),
{
    let ghost all = text::views(fields@);
    let ghost seen = text::views(attached@);
    let ghost f = |f: FieldRefView|
        if summary_called(seen, f.name) is None {
            Some(f)
        } else {
            None
        };
    let mut out: Vec<FieldRef> = Vec::new();
    let mut names: Vec<String> = Vec::new();
    let mut i: usize = 0;
    assert(text::views(out@) =~= text::picked(all.take(0), f));
    assert(text::views(names@) =~= field_names(text::views(out@)));
    while i < fields.len()
        invariant
            i <= fields@.len(),
            all == text::views(fields@),
            seen == text::views(attached@),
            f == (|f: FieldRefView|
                if summary_called(seen, f.name) is None {
                    Some(f)
                } else {
                    None
                }),
            text::views(out@) == text::picked(all.take(i as int), f),
            text::views(names@) == field_names(text::views(out@)),
        decreases fields@.len() - i,
    {
        proof {
            text::picked_step(all, f, i as int);
        }
        if find_summary(attached, fields[i].name.as_str()).is_none() {
            let one = fields[i].copy();
            let name = fields[i].name.clone();
            proof {
                text::views_push(out@, one);
                text::views_push(names@, name);
                assert(field_names(text::views(out@).push(one@)) =~= field_names(
                    text::views(out@),
                ).push(name@));
            }
            out.push(one);
            names.push(name);
        }
        i += 1;
    }
    assert(all.take(i as int) =~= all);
    (out, names)
}

fn announce_creation(talk: &mut Talk, missing: &Vec<String>)
    ensures
        final(talk)@ == after_creating(text::views(missing@), old(talk)@),
{
    assert(text::views(missing@).len() == missing@.len());
    if missing.len() > 0 {
        let count = decimal_of(missing.len() as u64);
        let list = join(missing, ", ");
        let mut line = "creating ".to_owned();
        line.append(count.as_str());
        line.append(
            " custom field prototype(s) — these are INSTANCE-WIDE and will appear in every project's administration: ",
        );
        line.append(list.as_str());
        talk.say(line.as_str());
    }
}

/// Provides the fields, and returns the names of the prototypes that were
/// created and of the fields that were attached.
pub fn provision_fields(
    admin: &AdminClient,
    talk: &mut Talk,
    project: &ProjectRef,
    opts: InitOptions,
) -> (r: Result<(Vec<String>, Vec<String>), Stop>)
    requires
        old(talk)@.rest.len() <= MOST_REPLIES,
    ensures
        (match r {
            Ok(names) => Ok((text::views(names.0@), text::views(names.1@))),
            Err(stop) => Err(stop@),
        }, final(talk)@) == fields_provided(project@, opts.dry_run, old(talk)@),
        final(talk)@.rest.len() <= old(talk)@.rest.len(),
{
    let missing = match admin.missing_field_prototypes(talk) {
        Ok(missing) => missing,
        Err(stop) => {
            return Err(stop);
        },
    };
    announce_creation(talk, &missing);
    if opts.dry_run {
        return match admin.read_project_field_summaries(talk, project) {
            Ok(attached) => Ok((missing, unattached_names(&attached))),
            Err(stop) => Err(stop),
        };
    }
    let fields = match admin.ensure_field_prototypes(talk) {
        Ok(fields) => fields,
        Err(stop) => {
            return Err(stop);
        },
    };
    let attached = match admin.read_project_field_summaries(talk, project) {
        Ok(attached) => attached,
        Err(stop) => {
            return Err(stop);
        },
    };
    let (pending, names) = unattached_fields(&fields, &attached);
    match admin.attach_fields_to_project(talk, project, &pending) {
        Ok(_) => Ok((missing, names)),
        Err(stop) => Err(stop),
    }
}

// ---------------------------------------------------------------------------
// Values for the bundles
// ---------------------------------------------------------------------------

/// The names of pending values.
pub open spec fn pending_names(values: Seq<PendingValueView>) -> Seq<Seq<char>> {
    values.map_values(|v: PendingValueView| v.name)
}

/// The names of pending values, in quotes.
pub open spec fn quoted_text(values: Seq<PendingValueView>) -> Seq<char> {
    text::joined(values.map_values(|v: PendingValueView| "'"@ + v.name + "'"@), ", "@)
}

/// What is said before values are added to a bundle that others use.
pub open spec fn note_shared_text(values: Seq<char>, bundle_name: Seq<char>, others: Seq<char>) -> Seq<char> {
    "--allow-shared-bundle: adding "@
        + values
        + " to '"@
        + bundle_name
        + "', which "@
        + others
        + " also use(s) — those values will appear in their vocabulary too"@
}

fn note_shared_line(values: &str, bundle_name: &str, others: &str) -> (r: String)
    ensures
        r@ == note_shared_text(values@, bundle_name@, others@),
{
    let mut out = "--allow-shared-bundle: adding ".to_owned();
    out.append(values);
    out.append(" to '");
    out.append(bundle_name);
    out.append("', which ");
    out.append(others);
    out.append(" also use(s) — those values will appear in their vocabulary too");
    out
}

/// What is said before values are added to a bundle of which nothing is known.
pub open spec fn note_unscanned_text(values: Seq<char>, bundle_name: Seq<char>, reason: Seq<char>) -> Seq<char> {
    "--allow-shared-bundle: adding "@
        + values
        + " to '"@
        + bundle_name
        + "' without a completed sharedness scan ("@
        + reason
        + ") — if another project uses this bundle, those values will appear in its vocabulary too"@
}

fn note_unscanned_line(values: &str, bundle_name: &str, reason: &str) -> (r: String)
    ensures
        r@ == note_unscanned_text(values@, bundle_name@, reason@),
{
    let mut out = "--allow-shared-bundle: adding ".to_owned();
    out.append(values);
    out.append(" to '");
    out.append(bundle_name);
    out.append("' without a completed sharedness scan (");
    out.append(reason);
    out.append(") — if another project uses this bundle, those values will appear in its vocabulary too");
    out
}

/// The refusal to guess who uses a bundle.
pub open spec fn unavailable_head_text(bundle_name: Seq<char>, field_name: Seq<char>, reason: Seq<char>, values: Seq<char>) -> Seq<char> {
    "cannot tell whether the bundle '"@
        + bundle_name
        + "' behind '"@
        + field_name
        + "' is shared: "@
        + reason
        + ". Adding "@
        + values
        + " to a bundle another project uses would change that project's vocabulary, so this refuses rather than guessing."@
}

fn unavailable_head_line(bundle_name: &str, field_name: &str, reason: &str, values: &str) -> (r: String)
    ensures
        r@ == unavailable_head_text(bundle_name@, field_name@, reason@, values@),
{
    let mut out = "cannot tell whether the bundle '".to_owned();
    out.append(bundle_name);
    out.append("' behind '");
    out.append(field_name);
    out.append("' is shared: ");
    out.append(reason);
    out.append(". Adding ");
    out.append(values);
    out.append(" to a bundle another project uses would change that project's vocabulary, so this refuses rather than guessing.");
    out
}

/// What helps where a scan was refused, and where it did not see the bundle:
/// the two have nothing in common.
pub open spec fn remedy_text(scan_failed: bool) -> Seq<char> {
    if scan_failed {
        "The scan itself was refused, so nothing is known about any bundle. Grant the token read access to every project — a token that cannot read a project cannot see that project's use of this bundle — or re-run with --allow-shared-bundle to add the values anyway."@
    } else {
        "The scan completed; this bundle was simply not in it, so no field of any project the token can read uses it. That usually means the project field was re-pointed between the scan and now, or the bundle is reachable only through a project the token cannot see. Re-run to take a fresh scan, or use --allow-shared-bundle to add the values anyway. Widening the token's access will not change this reading if the bundle is genuinely unreferenced."@
    }
}

/// The refusal of a bundle of which nothing is known.
pub open spec fn unavailable_error(
    field_name: Seq<char>,
    bundle_name: Seq<char>,
    reason: Seq<char>,
    missing: Seq<PendingValueView>,
    scan_failed: bool,
) -> RemoteErrorView {
    RemoteErrorView::Config(
        unavailable_head_text(bundle_name, field_name, reason, quoted_text(missing)) + " "@
            + remedy_text(scan_failed),
    )
}

/// The refusal to copy a bundle under a project that has issues.
pub open spec fn has_issues_text(field_name: Seq<char>, values: Seq<char>, bundle_name: Seq<char>, others: Seq<char>, project: Seq<char>, count: Seq<char>) -> Seq<char> {
    "'"@
        + field_name
        + "' needs "@
        + values
        + " added to the bundle '"@
        + bundle_name
        + "', but "@
        + others
        + " also use(s) that bundle and the project '"@
        + project
        + "' already holds "@
        + count
        + " issue(s). Cloning the bundle now would re-point every existing issue's field at a copy, so this refuses. Either add those values in YouTrack's administration yourself, or re-run with --allow-shared-bundle to accept that they become visible to "@
        + others
        + "."@
}

fn has_issues_line(field_name: &str, values: &str, bundle_name: &str, others: &str, project: &str, count: &str) -> (r: String)
    ensures
        r@ == has_issues_text(field_name@, values@, bundle_name@, others@, project@, count@),
{
    let mut out = "'".to_owned();
    out.append(field_name);
    out.append("' needs ");
    out.append(values);
    out.append(" added to the bundle '");
    out.append(bundle_name);
    out.append("', but ");
    out.append(others);
    out.append(" also use(s) that bundle and the project '");
    out.append(project);
    out.append("' already holds ");
    out.append(count);
    out.append(" issue(s). Cloning the bundle now would re-point every existing issue's field at a copy, so this refuses. Either add those values in YouTrack's administration yourself, or re-run with --allow-shared-bundle to accept that they become visible to ");
    out.append(others);
    out.append(".");
    out
}

/// The refusal to copy a bundle under a project that may have issues.
pub open spec fn unsettled_text(field_name: Seq<char>, values: Seq<char>, bundle_name: Seq<char>, project: Seq<char>) -> Seq<char> {
    "'"@
        + field_name
        + "' needs "@
        + values
        + " added to the shared bundle '"@
        + bundle_name
        + "', and YouTrack's issue count for '"@
        + project
        + "' never settled — it kept answering -1. Cloning a project that turns out to hold issues is exactly what the count guards against, so this refuses rather than assuming the project is empty. Re-run in a moment, or use --allow-shared-bundle to add the values to the shared bundle instead."@
}

fn unsettled_line(field_name: &str, values: &str, bundle_name: &str, project: &str) -> (r: String)
    ensures
        r@ == unsettled_text(field_name@, values@, bundle_name@, project@),
{
    let mut out = "'".to_owned();
    out.append(field_name);
    out.append("' needs ");
    out.append(values);
    out.append(" added to the shared bundle '");
    out.append(bundle_name);
    out.append("', and YouTrack's issue count for '");
    out.append(project);
    out.append("' never settled — it kept answering -1. Cloning a project that turns out to hold issues is exactly what the count guards against, so this refuses rather than assuming the project is empty. Re-run in a moment, or use --allow-shared-bundle to add the values to the shared bundle instead.");
    out
}

/// What is said where a copy of an earlier run is used.
pub open spec fn note_adopted_text(name: Seq<char>) -> Seq<char> {
    "adopted the bundle '"@
        + name
        + "' left behind by an interrupted earlier run instead of creating a second copy"@
}

fn note_adopted_line(name: &str) -> (r: String)
    ensures
        r@ == note_adopted_text(name@),
{
    let mut out = "adopted the bundle '".to_owned();
    out.append(name);
    out.append("' left behind by an interrupted earlier run instead of creating a second copy");
    out
}

/// The refusal to choose between several copies.
pub open spec fn many_copies_text(count: Seq<char>, name: Seq<char>) -> Seq<char> {
    count
        + " bundles are already named '"@
        + name
        + "'. That is the fingerprint of more than one interrupted `br remote init`, and choosing between them here would be a guess. Delete the unused ones in YouTrack's administration (Custom Fields → bundles), leaving at most one, and re-run."@
}

fn many_copies_line(count: &str, name: &str) -> (r: String)
    ensures
        r@ == many_copies_text(count@, name@),
{
    let mut out = count.to_owned();
    out.append(" bundles are already named '");
    out.append(name);
    out.append("'. That is the fingerprint of more than one interrupted `br remote init`, and choosing between them here would be a guess. Delete the unused ones in YouTrack's administration (Custom Fields → bundles), leaving at most one, and re-run.");
    out
}

/// The refusal of a bundle that has the name of a copy and is none.
pub open spec fn no_reuse_text(name: Seq<char>, why: Seq<char>) -> Seq<char> {
    "a bundle named '"@
        + name
        + "' already exists, but "@
        + why
        + ", so `br remote init` will not reuse it — and it will not create a second bundle with the same name either, because YouTrack allows that and the extra copy would be orphaned with nothing to point at it. Rename or delete '"@
        + name
        + "' in YouTrack's administration and re-run."@
}

fn no_reuse_line(name: &str, why: &str) -> (r: String)
    ensures
        r@ == no_reuse_text(name@, why@),
{
    let mut out = "a bundle named '".to_owned();
    out.append(name);
    out.append("' already exists, but ");
    out.append(why);
    out.append(", so `br remote init` will not reuse it — and it will not create a second bundle with the same name either, because YouTrack allows that and the extra copy would be orphaned with nothing to point at it. Rename or delete '");
    out.append(name);
    out.append("' in YouTrack's administration and re-run.");
    out
}

/// Why a bundle is no copy.
pub open spec fn not_a_copy_text(source: Seq<char>) -> Seq<char> {
    "it does not carry every value of '"@
        + source
        + "', so it is not a copy of it"@
}

fn not_a_copy_line(source: &str) -> (r: String)
    ensures
        r@ == not_a_copy_text(source@),
{
    let mut out = "it does not carry every value of '".to_owned();
    out.append(source);
    out.append("', so it is not a copy of it");
    out
}

/// The name of a bundle's copy for a project.
pub open spec fn clone_called(project: ProjectRefView, bundle: BundleRefView) -> Seq<char> {
    let prefix = project.name + ": "@;
    if prefix.is_prefix_of(bundle.name) {
        bundle.name + " (br)"@
    } else {
        prefix + bundle.name
    }
}

/// The candidate has every value of the source.
pub open spec fn covers_source(source: BundleRefView, candidate: BundleRefView) -> bool {
    forall|i: int|
        0 <= i < source.values.len() ==> bundles::has_value(
            candidate.values,
            (#[trigger] source.values[i]).name,
        )
}

/// The candidate has no value but those of the source and the missing ones.
pub open spec fn holds_only_known(
    source: BundleRefView,
    missing: Seq<PendingValueView>,
    candidate: BundleRefView,
) -> bool {
    forall|i: int|
        0 <= i < candidate.values.len() ==> bundles::has_value(
            source.values,
            (#[trigger] candidate.values[i]).name,
        ) || bundles::is_pending(missing, candidate.values[i].name)
}

/// Why a bundle with the name of a copy is none of an earlier run.
pub open spec fn reuse_refusal(
    source: BundleRefView,
    missing: Seq<PendingValueView>,
    usage: BundleUsageView,
    candidate: BundleRefView,
) -> Option<Seq<char>> {
    if sharedness::users_of(usage, candidate.id) is Some {
        Some("something already uses it"@)
    } else if !covers_source(source, candidate) {
        Some(not_a_copy_text(source.name))
    } else if !holds_only_known(source, missing, candidate) {
        Some("it carries values neither the source nor this run would have put there"@)
    } else {
        None
    }
}

/// The bundles with a name.
pub open spec fn bundles_called(all: Seq<BundleRefView>, name: Seq<char>) -> Seq<BundleRefView> {
    text::picked(
        all,
        |b: BundleRefView|
            if b.name == name {
                Some(b)
            } else {
                None
            },
    )
}

/// Which bundle, if any, is the copy of an earlier run.
pub open spec fn copy_among(
    source: BundleRefView,
    missing: Seq<PendingValueView>,
    usage: BundleUsageView,
    name: Seq<char>,
    all: Seq<BundleRefView>,
) -> Result<Option<BundleRefView>, RemoteErrorView> {
    let candidates = bundles_called(all, name);
    if candidates.len() == 0 {
        Ok(None)
    } else if candidates.len() > 1 {
        Err(
            RemoteErrorView::Config(
                many_copies_text(text::decimal(candidates.len() as int), name),
            ),
        )
    } else {
        match reuse_refusal(source, missing, usage, candidates[0]) {
            Some(why) => Err(RemoteErrorView::Config(no_reuse_text(name, why))),
            None => Ok(Some(candidates[0])),
        }
    }
}

/// Looking for the copy of an earlier run.
pub open spec fn copy_looked_for(
    source: BundleRefView,
    missing: Seq<PendingValueView>,
    usage: BundleUsageView,
    name: Seq<char>,
    t: TalkView,
) -> (Result<Option<BundleRefView>, StopView>, TalkView) {
    match clone::bundles_listed(source.kind, t) {
        (Err(stop), after) => (Err(stop), after),
        (Ok(all), after) => match copy_among(source, missing, usage, name, all) {
            Ok(found) => (Ok(found), after),
            Err(e) => (Err(StopView::Fail(e)), after),
        },
    }
}

/// A bundle is used again only where the scan does not list it, it has every value of
/// the source, and it has no other value but those that are missing.
pub proof fn reused_copy_is_ours(
    source: BundleRefView,
    missing: Seq<PendingValueView>,
    usage: BundleUsageView,
    name: Seq<char>,
    all: Seq<BundleRefView>,
)
    ensures
        copy_among(source, missing, usage, name, all) matches Ok(Some(copy)) ==> copy.name == name
            && sharedness::users_of(usage, copy.id) is None && covers_source(source, copy)
            && holds_only_known(source, missing, copy),
{
    if copy_among(source, missing, usage, name, all) matches Ok(Some(copy)) {
        text::picked_comes_from(
            all,
            |b: BundleRefView|
                if b.name == name {
                    Some(b)
                } else {
                    None
                },
            0,
        );
    }
}

fn quoted_list(values: &Vec<PendingValue>) -> (r: String)
    ensures
        r@ == quoted_text(text::views(values@)),
{
    let ghost want = text::views(values@).map_values(|v: PendingValueView| "'"@ + v.name + "'"@);
    let mut out: Vec<String> = Vec::new();
    let mut i: usize = 0;
    assert(text::views(out@) =~= want.take(0));
    while i < values.len()
        invariant
            i <= values@.len(),
            want == text::views(values@).map_values(
                |v: PendingValueView| "'"@ + v.name + "'"@,
            ),
            text::views(out@) == want.take(i as int),
        decreases values@.len() - i,
    {
        let mut one = "'".to_owned();
        one.append(values[i].name.as_str());
        one.append("'");
        proof {
            text::views_push(out@, one);
            assert(want.take(i + 1) =~= want.take(i as int).push(one@));
        }
        out.push(one);
        i += 1;
    }
    assert(want.take(i as int) =~= want);
    join(&out, ", ")
}

fn value_names(values: &Vec<PendingValue>) -> (r: Vec<String>)
    ensures
        text::views(r@) == pending_names(text::views(values@)),
{
    let ghost want = pending_names(text::views(values@));
    let mut out: Vec<String> = Vec::new();
    let mut i: usize = 0;
    assert(text::views(out@) =~= want.take(0));
    while i < values.len()
        invariant
            i <= values@.len(),
            want == pending_names(text::views(values@)),
            text::views(out@) == want.take(i as int),
        decreases values@.len() - i,
    {
        let one = values[i].name.clone();
        proof {
            text::views_push(out@, one);
            assert(want.take(i + 1) =~= want.take(i as int).push(one@));
        }
        out.push(one);
        i += 1;
    }
    assert(want.take(i as int) =~= want);
    out
}

/// The name of a bundle's copy for a project.
pub fn clone_name(project: &ProjectRef, bundle: &BundleRef) -> (r: String)
    ensures
        r@ == clone_called(project@, bundle@),
{
    let mut prefix = project.name.clone();
    prefix.append(": ");
    if starts_with(bundle.name.as_str(), prefix.as_str()) {
        let mut out = bundle.name.clone();
        out.append(" (br)");
        out
    } else {
        let mut out = prefix;
        out.append(bundle.name.as_str());
        out
    }
}

/// The refusal of a bundle of which nothing is known, with what helps.
pub fn unavailable_refusal(
    field_name: &str,
    bundle_name: &str,
    reason: &str,
    missing: &Vec<PendingValue>,
    scan_failed: bool,
) -> (r: RemoteError)
    ensures
        r@ == unavailable_error(
            field_name@,
            bundle_name@,
            reason@,
            text::views(missing@),
            scan_failed,
        ),
{
    let values = quoted_list(missing);
    let mut out = unavailable_head_line(bundle_name, field_name, reason, values.as_str());
    out.append(" ");
    if scan_failed {
        out.append(
            "The scan itself was refused, so nothing is known about any bundle. Grant the token read access to every project — a token that cannot read a project cannot see that project's use of this bundle — or re-run with --allow-shared-bundle to add the values anyway.",
        );
    } else {
        out.append(
            "The scan completed; this bundle was simply not in it, so no field of any project the token can read uses it. That usually means the project field was re-pointed between the scan and now, or the bundle is reachable only through a project the token cannot see. Re-run to take a fresh scan, or use --allow-shared-bundle to add the values anyway. Widening the token's access will not change this reading if the bundle is genuinely unreferenced.",
        );
    }
    RemoteError::Config(out)
}

fn has_all_of(source: &BundleRef, candidate: &BundleRef) -> (r: bool)
    ensures
        r == covers_source(source@, candidate@),
{
    let mut i: usize = 0;
    while i < source.values.len()
        invariant
            i <= source.values@.len(),
            forall|k: int|
                0 <= k < i ==> bundles::has_value(
                    candidate@.values,
                    (#[trigger] source@.values[k]).name,
                ),
        decreases source.values@.len() - i,
    {
        assert(source@.values[i as int] == source.values@[i as int]@);
        if !candidate.holds(source.values[i].name.as_str()) {
            return false;
        }
        i += 1;
    }
    true
}

fn has_only_known(source: &BundleRef, missing: &Vec<PendingValue>, candidate: &BundleRef) -> (r: bool)
    ensures
        r == holds_only_known(source@, text::views(missing@), candidate@),
{
    let mut i: usize = 0;
    while i < candidate.values.len()
        invariant
            i <= candidate.values@.len(),
            forall|k: int|
                0 <= k < i ==> bundles::has_value(
                    source@.values,
                    (#[trigger] candidate@.values[k]).name,
                ) || bundles::is_pending(text::views(missing@), candidate@.values[k].name),
        decreases candidate.values@.len() - i,
    {
        assert(candidate@.values[i as int] == candidate.values@[i as int]@);
        let name = candidate.values[i].name.as_str();
        if !source.holds(name) && !holds_pending(missing, name) {
            return false;
        }
        i += 1;
    }
    true
}

fn check_reuse(
    source: &BundleRef,
    missing: &Vec<PendingValue>,
    usage: &BundleUsage,
    candidate: &BundleRef,
) -> (r: Option<String>)
    ensures
        text::seen(r) == reuse_refusal(source@, text::views(missing@), usage@, candidate@),
{
    if usage.lists(candidate.id.as_str()) {
        return Some("something already uses it".to_owned());
    }
    if !has_all_of(source, candidate) {
        return Some(not_a_copy_line(source.name.as_str()));
    }
    if !has_only_known(source, missing, candidate) {
        return Some(
            "it carries values neither the source nor this run would have put there".to_owned(),
        );
    }
    None
}

/// Chooses the copy of an earlier run among the bundles of the instance.
pub fn choose_copy(
    source: &BundleRef,
    missing: &Vec<PendingValue>,
    usage: &BundleUsage,
    name: &str,
    all: &Vec<BundleRef>,
) -> (r: Result<Option<BundleRef>, RemoteError>)
    ensures
        (match r {
            Ok(found) => Ok(text::seen(found)),
            Err(e) => Err(e@),
        }) == copy_among(source@, text::views(missing@), usage@, name@, text::views(all@)),
{
    let ghost seen = text::views(all@);
    let ghost f = |b: BundleRefView|
        if b.name == name@ {
            Some(b)
        } else {
            None
        };
    let mut candidates: Vec<&BundleRef> = Vec::new();
    let mut i: usize = 0;
    assert(text::views(candidates@) =~= text::picked(seen.take(0), f));
    while i < all.len()
        invariant
            i <= all@.len(),
            seen == text::views(all@),
            f == (|b: BundleRefView|
                if b.name == name@ {
                    Some(b)
                } else {
                    None
                }),
            text::views(candidates@) == text::picked(seen.take(i as int), f),
        decreases all@.len() - i,
    {
        proof {
            text::picked_step(seen, f, i as int);
        }
        if same_text(all[i].name.as_str(), name) {
            proof {
                text::views_push(candidates@, &all@[i as int]);
            }
            candidates.push(&all[i]);
        }
        i += 1;
    }
    assert(seen.take(i as int) =~= seen);
    assert(text::views(candidates@).len() == candidates@.len());
    if candidates.len() == 0 {
        return Ok(None);
    }
    if candidates.len() > 1 {
        let count = decimal_of(candidates.len() as u64);
        return Err(RemoteError::Config(many_copies_line(count.as_str(), name)));
    }
    let candidate = candidates[0];
    assert(text::views(candidates@)[0] == candidate@);
    match check_reuse(source, missing, usage, candidate) {
        Some(why) => Err(RemoteError::Config(no_reuse_line(name, why.as_str()))),
        None => Ok(Some(candidate.copy())),
    }
}

/// Looks for a copy that an interrupted run left behind.
pub fn adopt_existing_clone(
    admin: &AdminClient,
    talk: &mut Talk,
    field: &ProjectFieldBundle,
    missing: &Vec<PendingValue>,
    usage: &BundleUsage,
    clone_name: &str,
) -> (r: Result<Option<BundleRef>, Stop>)
    requires
        old(talk)@.rest.len() <= MOST_REPLIES,
    ensures
        (match r {
            Ok(found) => Ok(text::seen(found)),
            Err(stop) => Err(stop@),
        }, final(talk)@) == copy_looked_for(
            field@.bundle,
            text::views(missing@),
            usage@,
            clone_name@,
            old(talk)@,
        ),
        final(talk)@.rest.len() <= old(talk)@.rest.len(),
{
    match admin.list_bundles(talk, field.bundle.kind) {
        Ok(all) => match choose_copy(&field.bundle, missing, usage, clone_name, &all) {
            Ok(found) => Ok(found),
            Err(e) => Err(Stop::Fail(e)),
        },
        Err(stop) => Err(stop),
    }
}

/// What is known of the mirror when the fields with bundles are looked after.
pub struct InitScene {
    pub project: ProjectRefView,
    pub usage: BundleUsageView,
    pub summaries: Seq<ProjectFieldSummaryView>,
    pub fields: Seq<ProjectFieldBundleView>,
    pub opts: InitOptions,
    /// How long to wait before the second look at a count, in nanoseconds.
    pub delay: u64,
}

/// The report with values added.
pub open spec fn with_values(
    report: InitReportView,
    field_name: Seq<char>,
    values: Seq<PendingValueView>,
) -> InitReportView {
    InitReportView {
        values_added: report.values_added.push(
            ValuesAddedView { field_name, values: pending_names(values) },
        ),
        ..report
    }
}

/// The report with a note.
pub open spec fn with_note(report: InitReportView, note: Seq<char>) -> InitReportView {
    InitReportView { notes: report.notes.push(note), ..report }
}

/// Adding values to a bundle, and the report that this leaves: values that
/// could not be added are not in it. A dry run reports them only.
pub open spec fn values_written(
    bundle: BundleRefView,
    values: Seq<PendingValueView>,
    field_name: Seq<char>,
    dry_run: bool,
    report: InitReportView,
    t: TalkView,
) -> (Result<(), StopView>, InitReportView, TalkView) {
    if dry_run {
        (Ok(()), with_values(report, field_name, values), t)
    } else {
        match bundles::values_added_from(bundle, values, 0, t) {
            (Err(stop), after) => (Err(stop), report, after),
            (Ok(_), after) => (Ok(()), with_values(report, field_name, values), after),
        }
    }
}

/// The missing values that the bundle does not have.
pub open spec fn still_missing(missing: Seq<PendingValueView>, bundle: BundleRefView) -> Seq<
    PendingValueView,
> {
    text::picked(
        missing,
        |v: PendingValueView|
            if bundles::has_value(bundle.values, v.name) {
                None
            } else {
                Some(v)
            },
    )
}

/// The defaults that a field had.
pub open spec fn previous_defaults(all: Seq<ProjectFieldSummaryView>, name: Seq<char>) -> Seq<
    Seq<char>,
> {
    match summary_called(all, name) {
        Some(summary) => summary.default_values,
        None => Seq::empty(),
    }
}

/// The report with a copied bundle.
pub open spec fn with_clone(
    scene: InitScene,
    field: ProjectFieldBundleView,
    report: InitReportView,
) -> InitReportView {
    InitReportView {
        clones: report.clones.push(
            BundleCloneView {
                field_name: field.field_name,
                source: field.bundle.name,
                clone: clone_called(scene.project, field.bundle),
            },
        ),
        ..report
    }
}

/// The copy that takes the place of a bundle: that of an earlier run, or a
/// new one. Only the former is noted.
pub open spec fn copy_had(
    scene: InitScene,
    field: ProjectFieldBundleView,
    missing: Seq<PendingValueView>,
    report: InitReportView,
    t: TalkView,
) -> (Result<BundleRefView, StopView>, InitReportView, TalkView) {
    let name = clone_called(scene.project, field.bundle);
    match copy_looked_for(field.bundle, missing, scene.usage, name, t) {
        (Err(stop), after) => (Err(stop), report, after),
        (Ok(Some(existing)), after) => {
            let note = note_adopted_text(existing.name);
            (Ok(existing), with_note(report, note), talk::saying(note, after))
        },
        (Ok(None), after) => match clone::cloned(field.bundle, name, after) {
            (Err(stop), end) => (Err(stop), report, end),
            (Ok(copy), end) => (Ok(copy), report, end),
        },
    }
}

/// Putting a copy in the place of a bundle: the field is given the copy, the
/// copy gets what is missing, and the defaults that went with the old bundle
/// are set again.
pub open spec fn copy_installed(
    scene: InitScene,
    field: ProjectFieldBundleView,
    missing: Seq<PendingValueView>,
    copy: BundleRefView,
    report: InitReportView,
    t: TalkView,
) -> (Result<BundleRefView, StopView>, InitReportView, TalkView) {
    let lacking = still_missing(missing, copy);
    let told = with_values(report, field.field_name, lacking);
    match talk::asked(clone::repoint_request(field, scene.project, copy), 0, t) {
        (Err(stop), after) => (Err(stop), report, after),
        (Ok(_), t1) => match bundles::values_added_from(copy, lacking, 0, t1) {
            (Err(stop), after) => (Err(stop), report, after),
            (Ok(_), t2) => match clone::bundle_again(copy, t2) {
                (Err(stop), after) => (Err(stop), told, after),
                (Ok(now), t3) => {
                    let names = previous_defaults(scene.summaries, field.field_name);
                    if names.len() == 0 {
                        (Ok(now), told, t3)
                    } else {
                        match clone::defaults_set(
                            scene.project,
                            field.instance_id,
                            clone::field_class(now.kind),
                            now,
                            names,
                            t3,
                        ) {
                            (Err(stop), after) => (Err(stop), told, after),
                            (Ok(_), t4) => (Ok(now), told, t4),
                        }
                    }
                },
            },
        },
    }
}

/// Looking after a field whose bundle others use: its bundle is copied, and
/// only where the project is known to be empty. A refusal leaves the report as
/// it was.
pub open spec fn shared_reconciled(
    scene: InitScene,
    field: ProjectFieldBundleView,
    missing: Seq<PendingValueView>,
    others: Seq<Seq<char>>,
    report: InitReportView,
    t: TalkView,
) -> (Result<BundleRefView, StopView>, InitReportView, TalkView) {
    match clone::emptiness_from(scene.project, scene.delay, 0, t) {
        (Err(stop), after) => (Err(stop), report, after),
        (Ok(Emptiness::HasIssues(n)), after) => (
            Err(
                StopView::Fail(
                    RemoteErrorView::Config(
                        has_issues_text(
                            field.field_name,
                            quoted_text(missing),
                            field.bundle.name,
                            text::joined(others, ", "@),
                            scene.project.short_name,
                            text::decimal(n as int),
                        ),
                    ),
                ),
            ),
            report,
            after,
        ),
        (Ok(Emptiness::Unknown), after) => (
            Err(
                StopView::Fail(
                    RemoteErrorView::Config(
                        unsettled_text(
                            field.field_name,
                            quoted_text(missing),
                            field.bundle.name,
                            scene.project.short_name,
                        ),
                    ),
                ),
            ),
            report,
            after,
        ),
        (Ok(Emptiness::Empty), after) => {
            let told = with_clone(scene, field, report);
            if scene.opts.dry_run {
                (Ok(field.bundle), with_values(told, field.field_name, missing), after)
            } else {
                match copy_had(scene, field, missing, told, after) {
                    (Err(stop), now, end) => (Err(stop), now, end),
                    (Ok(copy), now, end) => copy_installed(
                        scene,
                        field,
                        missing,
                        copy,
                        now,
                        end,
                    ),
                }
            }
        },
    }
}

/// The outcome of a write with the bundle that it was made to.
pub open spec fn beside(
    bundle: BundleRefView,
    step: (Result<(), StopView>, InitReportView, TalkView),
) -> (Result<BundleRefView, StopView>, InitReportView, TalkView) {
    match step {
        (Ok(_), report, after) => (Ok(bundle), report, after),
        (Err(stop), report, after) => (Err(stop), report, after),
    }
}

/// Looking after one field that lacks values: the bundle it ends up with, and
/// the report.
pub open spec fn field_reconciled(
    scene: InitScene,
    field: ProjectFieldBundleView,
    missing: Seq<PendingValueView>,
    report: InitReportView,
    t: TalkView,
) -> (Result<BundleRefView, StopView>, InitReportView, TalkView) {
    let bundle = field.bundle;
    let allowed = scene.opts.allow_shared_bundle;
    match sharedness::sharedness_of(
        scene.usage,
        bundle.id,
        field.field_name,
        scene.project.short_name,
    ) {
        SharednessView::Private => beside(
            bundle,
            values_written(bundle, missing, field.field_name, scene.opts.dry_run, report, t),
        ),
        SharednessView::Shared { others } => if allowed {
            let note = note_shared_text(
                quoted_text(missing),
                bundle.name,
                text::joined(others, ", "@),
            );
            beside(
                bundle,
                values_written(
                    bundle,
                    missing,
                    field.field_name,
                    scene.opts.dry_run,
                    with_note(report, note),
                    talk::saying(note, t),
                ),
            )
        } else {
            shared_reconciled(scene, field, missing, others, report, t)
        },
        SharednessView::Unavailable { reason } => if allowed {
            let note = note_unscanned_text(quoted_text(missing), bundle.name, reason);
            beside(
                bundle,
                values_written(
                    bundle,
                    missing,
                    field.field_name,
                    scene.opts.dry_run,
                    with_note(report, note),
                    talk::saying(note, t),
                ),
            )
        } else {
            (
                Err(
                    StopView::Fail(
                        unavailable_error(
                            field.field_name,
                            bundle.name,
                            reason,
                            missing,
                            scene.usage.unavailable is Some,
                        ),
                    ),
                ),
                report,
                t,
            )
        },
    }
}

fn write_values(
    admin: &AdminClient,
    talk: &mut Talk,
    bundle: &BundleRef,
    values: &Vec<PendingValue>,
    field_name: &str,
    dry_run: bool,
    report: &mut InitReport,
) -> (r: Result<(), Stop>)
    ensures
        (talk::seen_done(r), final(report)@, final(talk)@) == values_written(
            bundle@,
            text::views(values@),
            field_name@,
            dry_run,
            old(report)@,
            old(talk)@,
        ),
        final(talk)@.rest.len() <= old(talk)@.rest.len(),
{
    if !dry_run {
        if let Err(stop) = admin.add_bundle_values(talk, bundle, values) {
            return Err(stop);
        }
    }
    add_values(report, field_name, values);
    Ok(())
}

/// Reports values as added.
pub fn add_values(report: &mut InitReport, field_name: &str, values: &Vec<PendingValue>)
    ensures
        final(report)@ == with_values(old(report)@, field_name@, text::views(values@)),
{
    let one = ValuesAdded { field_name: field_name.to_owned(), values: value_names(values) };
    proof {
        text::views_push(report.values_added@, one);
    }
    report.values_added.push(one);
}

fn add_note(report: &mut InitReport, note: &str)
    ensures
        final(report)@ == with_note(old(report)@, note@),
{
    let one = note.to_owned();
    proof {
        text::views_push(report.notes@, one);
    }
    report.notes.push(one);
}

fn lacking(missing: &Vec<PendingValue>, bundle: &BundleRef) -> (r: Vec<PendingValue>)
    ensures
        text::views(r@) == still_missing(text::views(missing@), bundle@),
{
    let ghost all = text::views(missing@);
    let ghost f = |v: PendingValueView|
        if bundles::has_value(bundle@.values, v.name) {
            None
        } else {
            Some(v)
        };
    let mut out: Vec<PendingValue> = Vec::new();
    let mut i: usize = 0;
    assert(text::views(out@) =~= text::picked(all.take(0), f));
    while i < missing.len()
        invariant
            i <= missing@.len(),
            all == text::views(missing@),
            f == (|v: PendingValueView|
                if bundles::has_value(bundle@.values, v.name) {
                    None
                } else {
                    Some(v)
                }),
            text::views(out@) == text::picked(all.take(i as int), f),
        decreases missing@.len() - i,
    {
        proof {
            text::picked_step(all, f, i as int);
        }
        if !bundle.holds(missing[i].name.as_str()) {
            let one = missing[i].copy();
            proof {
                text::views_push(out@, one);
            }
            out.push(one);
        }
        i += 1;
    }
    assert(all.take(i as int) =~= all);
    out
}

/// What a run knows when it looks after the fields with bundles.
pub struct InitFacts<'a> {
    pub admin: &'a AdminClient,
    pub project: &'a ProjectRef,
    pub usage: &'a BundleUsage,
    pub summaries: &'a Vec<ProjectFieldSummary>,
    pub fields: &'a Vec<ProjectFieldBundle>,
    pub opts: InitOptions,
}

impl<'a> View for InitFacts<'a> {
    type V = InitScene;

    open spec fn view(&self) -> InitScene {
        InitScene {
            project: self.project@,
            usage: self.usage@,
            summaries: text::views(self.summaries@),
            fields: text::views(self.fields@),
            opts: self.opts,
            delay: self.admin@.count_poll_base_delay,
        }
    }
}

fn have_copy(
    facts: &InitFacts,
    talk: &mut Talk,
    field: &ProjectFieldBundle,
    missing: &Vec<PendingValue>,
    report: &mut InitReport,
) -> (r: Result<BundleRef, Stop>)
    requires
        old(talk)@.rest.len() <= MOST_REPLIES,
    ensures
        (talk::seen_step(r), final(report)@, final(talk)@) == copy_had(
            facts@,
            field@,
            text::views(missing@),
            old(report)@,
            old(talk)@,
        ),
        final(talk)@.rest.len() <= old(talk)@.rest.len(),
{
    let name = clone_name(facts.project, &field.bundle);
    match adopt_existing_clone(facts.admin, talk, field, missing, facts.usage, name.as_str()) {
        Err(stop) => Err(stop),
        Ok(Some(existing)) => {
            let note = note_adopted_line(existing.name.as_str());
            talk.say(note.as_str());
            add_note(report, note.as_str());
            Ok(existing)
        },
        Ok(None) => facts.admin.clone_bundle(talk, &field.bundle, name.as_str()),
    }
}

fn install_copy(
    facts: &InitFacts,
    talk: &mut Talk,
    field: &ProjectFieldBundle,
    missing: &Vec<PendingValue>,
    copy: &BundleRef,
    report: &mut InitReport,
) -> (r: Result<BundleRef, Stop>)
    ensures
        (talk::seen_step(r), final(report)@, final(talk)@) == copy_installed(
            facts@,
            field@,
            text::views(missing@),
            copy@,
            old(report)@,
            old(talk)@,
        ),
        final(talk)@.rest.len() <= old(talk)@.rest.len(),
{
    if let Err(stop) = facts.admin.repoint_field_bundle(talk, field, facts.project, copy) {
        return Err(stop);
    }
    let lacking = lacking(missing, copy);
    if let Err(stop) = facts.admin.add_bundle_values(talk, copy, &lacking) {
        return Err(stop);
    }
    add_values(report, field.field_name.as_str(), &lacking);
    let now = match facts.admin.read_bundle(talk, copy) {
        Ok(now) => now,
        Err(stop) => {
            return Err(stop);
        },
    };
    if let Some(summary) = find_summary(facts.summaries, field.field_name.as_str()) {
        assert(text::views(summary.default_values@).len() == summary.default_values@.len());
        if summary.default_values.len() > 0 {
            if let Err(stop) = facts.admin.set_default_values(
                talk,
                facts.project,
                field.instance_id.as_str(),
                project_field_type(now.kind),
                &now,
                &summary.default_values,
            ) {
                return Err(stop);
            }
        }
    }
    Ok(now)
}

/// Looks after a field whose bundle others use.
pub fn reconcile_shared(
    facts: &InitFacts,
    talk: &mut Talk,
    field: &ProjectFieldBundle,
    missing: &Vec<PendingValue>,
    others: &Vec<String>,
    report: &mut InitReport,
) -> (r: Result<BundleRef, Stop>)
    requires
        old(talk)@.rest.len() <= MOST_REPLIES,
    ensures
        (talk::seen_step(r), final(report)@, final(talk)@) == shared_reconciled(
            facts@,
            field@,
            text::views(missing@),
            text::views(others@),
            old(report)@,
            old(talk)@,
        ),
        final(talk)@.rest.len() <= old(talk)@.rest.len(),
{
    let emptiness = match facts.admin.project_is_empty(talk, facts.project) {
        Ok(emptiness) => emptiness,
        Err(stop) => {
            return Err(stop);
        },
    };
    match emptiness {
        Emptiness::HasIssues(n) => {
            let values = quoted_list(missing);
            let list = join(others, ", ");
            let count = decimal_of(n);
            return Err(
                Stop::Fail(
                    RemoteError::Config(
                        has_issues_line(
                            field.field_name.as_str(),
                            values.as_str(),
                            field.bundle.name.as_str(),
                            list.as_str(),
                            facts.project.short_name.as_str(),
                            count.as_str(),
                        ),
                    ),
                ),
            );
        },
        Emptiness::Unknown => {
            let values = quoted_list(missing);
            return Err(
                Stop::Fail(
                    RemoteError::Config(
                        unsettled_line(
                            field.field_name.as_str(),
                            values.as_str(),
                            field.bundle.name.as_str(),
                            facts.project.short_name.as_str(),
                        ),
                    ),
                ),
            );
        },
        Emptiness::Empty => {},
    }
    let one = BundleClone {
        field_name: field.field_name.clone(),
        source: field.bundle.name.clone(),
        clone: clone_name(facts.project, &field.bundle),
    };
    proof {
        text::views_push(report.clones@, one);
    }
    report.clones.push(one);
    if facts.opts.dry_run {
        add_values(report, field.field_name.as_str(), missing);
        return Ok(field.bundle.copy());
    }
    match have_copy(facts, talk, field, missing, report) {
        Ok(copy) => install_copy(facts, talk, field, missing, &copy, report),
        Err(stop) => Err(stop),
    }
}

fn reconcile_field(
    facts: &InitFacts,
    talk: &mut Talk,
    field: &ProjectFieldBundle,
    missing: &Vec<PendingValue>,
    report: &mut InitReport,
) -> (r: Result<BundleRef, Stop>)
    requires
        old(talk)@.rest.len() <= MOST_REPLIES,
    ensures
        (talk::seen_step(r), final(report)@, final(talk)@) == field_reconciled(
            facts@,
            field@,
            text::views(missing@),
            old(report)@,
            old(talk)@,
        ),
        final(talk)@.rest.len() <= old(talk)@.rest.len(),
{
    let name = field.field_name.as_str();
    let verdict = facts.usage.verdict(
        field.bundle.id.as_str(),
        name,
        facts.project.short_name.as_str(),
    );
    match verdict {
        Sharedness::Private => {},
        Sharedness::Shared { others } => {
            if !facts.opts.allow_shared_bundle {
                return reconcile_shared(facts, talk, field, missing, &others, report);
            }
            let values = quoted_list(missing);
            let list = join(&others, ", ");
            let note = note_shared_line(
                values.as_str(),
                field.bundle.name.as_str(),
                list.as_str(),
            );
            talk.say(note.as_str());
            add_note(report, note.as_str());
        },
        Sharedness::Unavailable { reason } => {
            if !facts.opts.allow_shared_bundle {
                return Err(
                    Stop::Fail(
                        unavailable_refusal(
                            name,
                            field.bundle.name.as_str(),
                            reason.as_str(),
                            missing,
                            facts.usage.scan_failed(),
                        ),
                    ),
                );
            }
            let values = quoted_list(missing);
            let note = note_unscanned_line(
                values.as_str(),
                field.bundle.name.as_str(),
                reason.as_str(),
            );
            talk.say(note.as_str());
            add_note(report, note.as_str());
        },
    }
    match write_values(
        facts.admin,
        talk,
        &field.bundle,
        missing,
        name,
        facts.opts.dry_run,
        report,
    ) {
        Ok(_) => Ok(field.bundle.copy()),
        Err(stop) => Err(stop),
    }
}

/// The first field with the name that has a bundle.
pub open spec fn bundle_field(fields: Seq<ProjectFieldBundleView>, name: Seq<char>) -> Option<
    ProjectFieldBundleView,
>
    decreases fields.len(),
{
    if fields.len() == 0 {
        None
    } else if fields[0].field_name == name {
        Some(fields[0])
    } else {
        bundle_field(fields.drop_first(), name)
    }
}

/// Looking after the fields with bundles from the `k`-th on. A field whose
/// bundle lacks nothing is left alone.
pub open spec fn fields_reconciled_from(
    cfg: RemoteConfigView,
    scene: InitScene,
    k: int,
    settled: Seq<SettledBundleView>,
    report: InitReportView,
    t: TalkView,
) -> (Result<Seq<SettledBundleView>, StopView>, InitReportView, TalkView)
    decreases RECONCILED_FIELDS@.len() - k,
{
    if k < 0 || k >= RECONCILED_FIELDS@.len() {
        (Ok(settled), report, t)
    } else {
        let name = RECONCILED_FIELDS@[k]@;
        match bundle_field(scene.fields, name) {
            None => fields_reconciled_from(cfg, scene, k + 1, settled, report, t),
            Some(field) => match bundles::missing_values(cfg, name, field.bundle) {
                Err(e) => (Err(StopView::Fail(e)), report, t),
                Ok(missing) => if missing.len() == 0 {
                    fields_reconciled_from(
                        cfg,
                        scene,
                        k + 1,
                        settled.push(SettledBundleView { field_name: name, bundle: field.bundle }),
                        report,
                        t,
                    )
                } else {
                    match field_reconciled(scene, field, missing, report, t) {
                        (Err(stop), now, after) => (Err(stop), now, after),
                        (Ok(bundle), now, after) => fields_reconciled_from(
                            cfg,
                            scene,
                            k + 1,
                            settled.push(SettledBundleView { field_name: name, bundle }),
                            now,
                            after,
                        ),
                    }
                },
            },
        }
    }
}

fn find_bundle_field<'a>(fields: &'a Vec<ProjectFieldBundle>, name: &str) -> (r: Option<
    &'a ProjectFieldBundle,
>)
    ensures
        text::seen(r) == bundle_field(text::views(fields@), name@),
{
    let ghost all = text::views(fields@);
    let mut i: usize = 0;
    assert(all.skip(0) =~= all);
    while i < fields.len()
        invariant
            i <= fields@.len(),
            all == text::views(fields@),
            bundle_field(all, name@) == bundle_field(all.skip(i as int), name@),
        decreases fields@.len() - i,
    {
        assert(all.skip(i as int)[0] == fields@[i as int]@);
        assert(all.skip(i as int).drop_first() =~= all.skip(i + 1));
        if same_text(fields[i].field_name.as_str(), name) {
            return Some(&fields[i]);
        }
        i += 1;
    }
    None
}

/// Looks after every field with a bundle.
#[verifier::loop_isolation(false)]
fn reconcile_fields(
    cfg: &RemoteConfig,
    facts: &InitFacts,
    talk: &mut Talk,
    report: &mut InitReport,
) -> (r: Result<Vec<SettledBundle>, Stop>)
    requires
        old(talk)@.rest.len() <= MOST_REPLIES,
    ensures
        (match r {
            Ok(settled) => Ok(text::views(settled@)),
            Err(stop) => Err(stop@),
        }, final(report)@, final(talk)@) == fields_reconciled_from(
            cfg@,
            facts@,
            0,
            Seq::empty(),
            old(report)@,
            old(talk)@,
        ),
        final(talk)@.rest.len() <= old(talk)@.rest.len(),
{
    let ghost start = talk@;
    let ghost whole = fields_reconciled_from(cfg@, facts@, 0, Seq::empty(), report@, talk@);
    let mut settled: Vec<SettledBundle> = Vec::new();
    let mut k: usize = 0;
    assert(text::views(settled@) =~= Seq::<SettledBundleView>::empty());
    while k < RECONCILED_FIELDS.len()
        invariant
            k <= RECONCILED_FIELDS@.len(),
            start == old(talk)@,
            talk@.rest.len() <= start.rest.len(),
            whole == fields_reconciled_from(
                cfg@,
                facts@,
                k as int,
                text::views(settled@),
                report@,
                talk@,
            ),
        decreases RECONCILED_FIELDS@.len() - k,
    {
        let name = RECONCILED_FIELDS[k];
        if let Some(field) = find_bundle_field(facts.fields, name) {
            let missing = match plan_missing(cfg, name, &field.bundle) {
                Ok(missing) => missing,
                Err(e) => {
                    return Err(Stop::Fail(e));
                },
            };
            assert(text::views(missing@).len() == missing@.len());
            let bundle = if missing.len() == 0 {
                field.bundle.copy()
            } else {
                match reconcile_field(facts, talk, field, &missing, report) {
                    Ok(bundle) => bundle,
                    Err(stop) => {
                        return Err(stop);
                    },
                }
            };
            let one = SettledBundle { field_name: name.to_owned(), bundle };
            proof {
                text::views_push(settled@, one);
            }
            settled.push(one);
        }
        k += 1;
    }
    Ok(settled)
}

// ---------------------------------------------------------------------------
// Defaults
// ---------------------------------------------------------------------------

/// The defaults of a new bead: field, and key of the field's map.
pub const WANTED_DEFAULTS: [(&'static str, &'static str); 3] = [
    ("Type", "task"),
    ("State", "open"),
    ("Priority", "2"),
];

/// What the mirror calls the default of a field.
pub open spec fn default_named(cfg: RemoteConfigView, field_name: Seq<char>, key: Seq<char>) -> Option<
    Seq<char>,
> {
    if field_name == "Type"@ {
        config::value_under(cfg.type_map, key)
    } else if field_name == "State"@ {
        config::value_under(cfg.status_map, key)
    } else if field_name == "Priority"@ {
        config::value_under(cfg.priority_map, key)
    } else {
        None
    }
}

/// The bundle that a field ended up with.
pub open spec fn settled_called(settled: Seq<SettledBundleView>, name: Seq<char>) -> Option<
    BundleRefView,
>
    decreases settled.len(),
{
    if settled.len() == 0 {
        None
    } else if settled[0].field_name == name {
        Some(settled[0].bundle)
    } else {
        settled_called(settled.drop_first(), name)
    }
}

/// What is said before a default is changed.
pub open spec fn default_line(name: Seq<char>, old: Seq<Seq<char>>, new: Seq<char>) -> Seq<char> {
    "default for '"@ + name + "': "@ + (if old.len() == 0 {
        "(none)"@
    } else {
        text::joined(old, ", "@)
    }) + " → "@ + new
}

/// The bundle with the identifiers of its values: read again where it does
/// not have the value yet.
pub open spec fn bundle_with(bundle: BundleRefView, name: Seq<char>, t: TalkView) -> (
    Result<BundleRefView, StopView>,
    TalkView,
) {
    if bundles::has_value(bundle.values, name) {
        (Ok(bundle), t)
    } else {
        clone::bundle_again(bundle, t)
    }
}

/// Changing the default of one field. The change is reported before it is
/// made, so the report names it also where it fails.
pub open spec fn default_changed(
    scene: InitScene,
    summary: ProjectFieldSummaryView,
    bundle: BundleRefView,
    wanted: Seq<char>,
    report: InitReportView,
    t: TalkView,
) -> (Result<(), StopView>, InitReportView, TalkView) {
    let now = InitReportView {
        defaults_changed: report.defaults_changed.push(
            DefaultChangeView {
                field_name: summary.field_name,
                old: summary.default_values,
                new: wanted,
            },
        ),
        ..report
    };
    let t1 = talk::saying(default_line(summary.field_name, summary.default_values, wanted), t);
    if scene.opts.dry_run {
        (Ok(()), now, t1)
    } else {
        match bundle_with(bundle, wanted, t1) {
            (Err(stop), after) => (Err(stop), now, after),
            (Ok(b), t2) => match clone::defaults_set(
                scene.project,
                summary.instance_id,
                clone::field_class(b.kind),
                b,
                seq![wanted],
                t2,
            ) {
                (Err(stop), after) => (Err(stop), now, after),
                (Ok(_), t3) => (Ok(()), now, t3),
            },
        }
    }
}

/// The default that a field is to get, with the field and its bundle: none
/// where it has it already, or where the field is not there.
pub open spec fn default_due(
    cfg: RemoteConfigView,
    scene: InitScene,
    settled: Seq<SettledBundleView>,
    name: Seq<char>,
    key: Seq<char>,
) -> Option<(Seq<char>, ProjectFieldSummaryView, BundleRefView)> {
    match (
        default_named(cfg, name, key),
        summary_called(scene.summaries, name),
        settled_called(settled, name),
    ) {
        (Some(wanted), Some(summary), Some(bundle)) => if summary.default_values.len() == 1
            && summary.default_values[0] == wanted {
            None
        } else {
            Some((wanted, summary, bundle))
        },
        _ => None,
    }
}

/// Setting the defaults from the `k`-th on.
pub open spec fn defaults_aligned_from(
    cfg: RemoteConfigView,
    scene: InitScene,
    settled: Seq<SettledBundleView>,
    k: int,
    report: InitReportView,
    t: TalkView,
) -> (Result<(), StopView>, InitReportView, TalkView)
    decreases WANTED_DEFAULTS@.len() - k,
{
    if k < 0 || k >= WANTED_DEFAULTS@.len() {
        (Ok(()), report, t)
    } else {
        match default_due(cfg, scene, settled, WANTED_DEFAULTS@[k].0@, WANTED_DEFAULTS@[k].1@) {
            None => defaults_aligned_from(cfg, scene, settled, k + 1, report, t),
            Some((wanted, summary, bundle)) => match default_changed(
                scene,
                summary,
                bundle,
                wanted,
                report,
                t,
            ) {
                (Err(stop), now, after) => (Err(stop), now, after),
                (Ok(_), now, after) => defaults_aligned_from(cfg, scene, settled, k + 1, now, after),
            },
        }
    }
}

/// What the mirror calls the default of a field.
pub fn default_for<'a>(cfg: &'a RemoteConfig, field_name: &str, key: &str) -> (r: Option<&'a String>)
    ensures
        text::seen(r) == default_named(cfg@, field_name@, key@),
{
    if same_text(field_name, "Type") {
        map_get(&cfg.type_map, key)
    } else if same_text(field_name, "State") {
        map_get(&cfg.status_map, key)
    } else if same_text(field_name, "Priority") {
        map_get(&cfg.priority_map, key)
    } else {
        None
    }
}

fn find_settled<'a>(settled: &'a Vec<SettledBundle>, name: &str) -> (r: Option<&'a BundleRef>)
    ensures
        text::seen(r) == settled_called(text::views(settled@), name@),
{
    let ghost all = text::views(settled@);
    let mut i: usize = 0;
    assert(all.skip(0) =~= all);
    while i < settled.len()
        invariant
            i <= settled@.len(),
            all == text::views(settled@),
            settled_called(all, name@) == settled_called(all.skip(i as int), name@),
        decreases settled@.len() - i,
    {
        assert(all.skip(i as int)[0] == settled@[i as int]@);
        assert(all.skip(i as int).drop_first() =~= all.skip(i + 1));
        if same_text(settled[i].field_name.as_str(), name) {
            return Some(&settled[i].bundle);
        }
        i += 1;
    }
    None
}

fn change_default(
    facts: &InitFacts,
    talk: &mut Talk,
    summary: &ProjectFieldSummary,
    bundle: &BundleRef,
    wanted: &str,
    report: &mut InitReport,
) -> (r: Result<(), Stop>)
    ensures
        (talk::seen_done(r), final(report)@, final(talk)@) == default_changed(
            facts@,
            summary@,
            bundle@,
            wanted@,
            old(report)@,
            old(talk)@,
        ),
        final(talk)@.rest.len() <= old(talk)@.rest.len(),
{
    let one = DefaultChange {
        field_name: summary.field_name.clone(),
        old: copy_texts(&summary.default_values),
        new: wanted.to_owned(),
    };
    proof {
        text::views_push(report.defaults_changed@, one);
        assert(text::views(summary.default_values@).len() == summary.default_values@.len());
    }
    report.defaults_changed.push(one);
    let old = if summary.default_values.len() == 0 {
        "(none)".to_owned()
    } else {
        join(&summary.default_values, ", ")
    };
    let mut line = "default for '".to_owned();
    line.append(summary.field_name.as_str());
    line.append("': ");
    line.append(old.as_str());
    line.append(" → ");
    line.append(wanted);
    talk.say(line.as_str());
    if facts.opts.dry_run {
        return Ok(());
    }
    let bundle = if bundle.holds(wanted) {
        bundle.copy()
    } else {
        match facts.admin.read_bundle(talk, bundle) {
            Ok(bundle) => bundle,
            Err(stop) => {
                return Err(stop);
            },
        }
    };
    let names = vec![wanted.to_owned()];
    assert(text::views(names@) =~= seq![wanted@]);
    facts.admin.set_default_values(
        talk,
        facts.project,
        summary.instance_id.as_str(),
        project_field_type(bundle.kind),
        &bundle,
        &names,
    )
}

/// Sets the defaults of the project's fields to those of a new bead.
#[verifier::loop_isolation(false)]
pub fn align_defaults(
    cfg: &RemoteConfig,
    facts: &InitFacts,
    settled: &Vec<SettledBundle>,
    talk: &mut Talk,
    report: &mut InitReport,
) -> (r: Result<(), Stop>)
    ensures
        (talk::seen_done(r), final(report)@, final(talk)@) == defaults_aligned_from(
            cfg@,
            facts@,
            text::views(settled@),
            0,
            old(report)@,
            old(talk)@,
        ),
        final(talk)@.rest.len() <= old(talk)@.rest.len(),
{
    let ghost start = talk@;
    let ghost bundles = text::views(settled@);
    let ghost whole = defaults_aligned_from(cfg@, facts@, bundles, 0, report@, talk@);
    let mut k: usize = 0;
    while k < WANTED_DEFAULTS.len()
        invariant
            k <= WANTED_DEFAULTS@.len(),
            start == old(talk)@,
            talk@.rest.len() <= start.rest.len(),
            whole == defaults_aligned_from(cfg@, facts@, bundles, k as int, report@, talk@),
        decreases WANTED_DEFAULTS@.len() - k,
    {
        let (name, key) = WANTED_DEFAULTS[k];
        k += 1;
        let wanted = match default_for(cfg, name, key) {
            Some(wanted) => wanted,
            None => {
                continue;
            },
        };
        let summary = match find_summary(facts.summaries, name) {
            Some(summary) => summary,
            None => {
                continue;
            },
        };
        let bundle = match find_settled(settled, name) {
            Some(bundle) => bundle,
            None => {
                continue;
            },
        };
        assert(text::views(summary.default_values@).len() == summary.default_values@.len());
        if summary.default_values.len() == 1 {
            assert(text::views(summary.default_values@)[0] == summary.default_values@[0]@);
            if same_text(summary.default_values[0].as_str(), wanted.as_str()) {
                continue;
            }
        }
        if let Err(stop) = change_default(facts, talk, summary, bundle, wanted.as_str(), report) {
            return Err(stop);
        }
    }
    Ok(())
}

// ---------------------------------------------------------------------------
// The whole run
// ---------------------------------------------------------------------------

/// What is said of a scan.
pub open spec fn scan_text(projects: Seq<Seq<char>>) -> Seq<char> {
    "bundle sharedness scanned across "@ + text::decimal(projects.len() as int)
        + " project(s): "@ + (if projects.len() == 0 {
        "none"@
    } else {
        text::joined(projects, ", "@)
    })
}

/// The scan of the bundles: one that fails says nothing, and ends nothing.
pub open spec fn usage_scanned(t: TalkView) -> (Result<BundleUsageView, StopView>, TalkView) {
    match sharedness::scanned(t) {
        (Err(StopView::Fail(e)), after) => (
            Ok(
                BundleUsageView {
                    users: Seq::empty(),
                    projects_seen: Seq::empty(),
                    unavailable: Some(crate::remote::error::error_text(e)),
                },
            ),
            after,
        ),
        other => other,
    }
}

/// The part of a run that looks after the bundles and the defaults.
pub open spec fn bundles_settled(
    cfg: RemoteConfigView,
    scene: InitScene,
    report: InitReportView,
    t: TalkView,
) -> (Result<(), StopView>, InitReportView, TalkView) {
    match fields_reconciled_from(cfg, scene, 0, Seq::empty(), report, t) {
        (Err(stop), now, after) => (Err(stop), now, after),
        (Ok(settled), now, after) => if scene.opts.keep_project_defaults {
            (Ok(()), now, after)
        } else {
            defaults_aligned_from(cfg, scene, settled, 0, now, after)
        },
    }
}

/// The part of a run that follows the provision of the fields.
pub open spec fn project_settled(
    cfg: RemoteConfigView,
    project: ProjectRefView,
    opts: InitOptions,
    delay: u64,
    report: InitReportView,
    t: TalkView,
) -> (Result<(), StopView>, InitReportView, TalkView) {
    match usage_scanned(t) {
        (Err(stop), after) => (Err(stop), report, after),
        (Ok(usage), t1) => {
            let now = InitReportView { projects_seen: usage.projects_seen, ..report };
            let t2 = talk::saying(scan_text(usage.projects_seen), t1);
            match summaries(project, t2) {
                (Err(stop), after) => (Err(stop), now, after),
                (Ok(summaries), t3) => match bundles::project_fields(project, t3) {
                    (Err(stop), after) => (Err(stop), now, after),
                    (Ok(fields), t4) => bundles_settled(
                        cfg,
                        InitScene { project, usage, summaries, fields, opts, delay },
                        now,
                        t4,
                    ),
                },
            }
        },
    }
}

/// A whole run, from the vocabulary of the workspace on.
pub open spec fn init_run(
    cfg: RemoteConfigView,
    delay: u64,
    types: Seq<Seq<char>>,
    statuses: Seq<Seq<char>>,
    opts: InitOptions,
    t: TalkView,
) -> (Result<InitReportView, StopView>, TalkView) {
    let problems = vocabulary_problems(cfg, types, statuses);
    if problems.len() > 0 {
        (Err(StopView::Fail(vocabulary_refusal(problems))), t)
    } else {
        match admin::project_from(cfg.project, 0, t) {
            (Err(stop), after) => (Err(stop), after),
            (Ok(project), t1) => match fields_provided(project, opts.dry_run, t1) {
                (Err(stop), after) => (Err(stop), after),
                (Ok((created, attached)), t2) => match project_settled(
                    cfg,
                    project,
                    opts,
                    delay,
                    InitReportView {
                        prototypes_created: created,
                        fields_attached: attached,
                        ..blank_report(opts.dry_run)
                    },
                    t2,
                ) {
                    (Ok(_), report, after) => (Ok(report), after),
                    (Err(stop), _, after) => (Err(stop), after),
                },
            },
        }
    }
}

/// How far a run has come: what it has said, and its report, its failure or
/// its next request.
#[derive(Debug, PartialEq, Eq)]
pub struct InitStep {
    pub said: Vec<String>,
    pub outcome: Result<InitReport, Stop>,
}

fn scan_line(projects: &Vec<String>) -> (r: String)
    ensures
        r@ == scan_text(text::views(projects@)),
{
    assert(text::views(projects@).len() == projects@.len());
    let count = decimal_of(projects.len() as u64);
    let list = if projects.len() == 0 {
        "none".to_owned()
    } else {
        join(projects, ", ")
    };
    let mut out = "bundle sharedness scanned across ".to_owned();
    out.append(count.as_str());
    out.append(" project(s): ");
    out.append(list.as_str());
    out
}

fn settle_project(
    cfg: &RemoteConfig,
    admin: &AdminClient,
    project: &ProjectRef,
    opts: InitOptions,
    talk: &mut Talk,
    report: &mut InitReport,
) -> (r: Result<(), Stop>)
    requires
        old(talk)@.rest.len() <= MOST_REPLIES,
    ensures
        (talk::seen_done(r), final(report)@, final(talk)@) == project_settled(
            cfg@,
            project@,
            opts,
            admin@.count_poll_base_delay,
            old(report)@,
            old(talk)@,
        ),
{
    let usage = match admin.scan_bundle_usage(talk) {
        Ok(usage) => usage,
        Err(Stop::Fail(e)) => BundleUsage::unavailable_from(e),
        Err(stop) => {
            return Err(stop);
        },
    };
    report.projects_seen = copy_texts(usage.projects());
    let line = scan_line(&report.projects_seen);
    talk.say(line.as_str());
    let summaries = match admin.read_project_field_summaries(talk, project) {
        Ok(summaries) => summaries,
        Err(stop) => {
            return Err(stop);
        },
    };
    let fields = match admin.read_project_bundle_fields(talk, project) {
        Ok(fields) => fields,
        Err(stop) => {
            return Err(stop);
        },
    };
    let facts = InitFacts {
        admin,
        project,
        usage: &usage,
        summaries: &summaries,
        fields: &fields,
        opts,
    };
    let settled = match reconcile_fields(cfg, &facts, talk, report) {
        Ok(settled) => settled,
        Err(stop) => {
            return Err(stop);
        },
    };
    if opts.keep_project_defaults {
        return Ok(());
    }
    align_defaults(cfg, &facts, &settled, talk, report)
}

fn run_on(
    cfg: &RemoteConfig,
    admin: &AdminClient,
    vocab: &WorkspaceVocabulary,
    opts: InitOptions,
    talk: &mut Talk,
) -> (r: Result<InitReport, Stop>)
    requires
        old(talk)@.rest.len() <= MOST_REPLIES,
    ensures
        (talk::seen_step(r), final(talk)@) == init_run(
            cfg@,
            admin@.count_poll_base_delay,
            text::views(vocab.types@),
            text::views(vocab.statuses@),
            opts,
            old(talk)@,
        ),
{
    if let Err(e) = preflight_vocabulary(cfg, vocab) {
        return Err(Stop::Fail(e));
    }
    let project = match admin.resolve_project(talk, cfg.project.as_str()) {
        Ok(project) => project,
        Err(stop) => {
            return Err(stop);
        },
    };
    let (prototypes_created, fields_attached) = match provision_fields(admin, talk, &project, opts) {
        Ok(names) => names,
        Err(stop) => {
            return Err(stop);
        },
    };
    let mut report = InitReport::default();
    report.dry_run = opts.dry_run;
    report.prototypes_created = prototypes_created;
    report.fields_attached = fields_attached;
    match settle_project(cfg, admin, &project, opts, talk, &mut report) {
        Ok(_) => Ok(report),
        Err(stop) => Err(stop),
    }
}

/// Prepares the configured project, as far as the replies that there have
/// been so far reach. What the run says is to be told to whoever runs it
/// before its next request is sent.
pub fn run(
    cfg: &RemoteConfig,
    admin: &AdminClient,
    vocab: &WorkspaceVocabulary,
    opts: InitOptions,
    replies: &Vec<Result<Json, RemoteError>>,
) -> (r: InitStep)
    requires
        replies@.len() <= MOST_REPLIES,
    ensures
        ({
            let (outcome, end) = init_run(
                cfg@,
                admin@.count_poll_base_delay,
                text::views(vocab.types@),
                text::views(vocab.statuses@),
                opts,
                talk::opened(talk::replies_view(replies@)),
            );
            talk::seen_step(r.outcome) == outcome && text::views(r.said@) == end.said
        }),
{
    let mut talk = Talk::open(replies);
    let outcome = run_on(cfg, admin, vocab, opts, &mut talk);
    InitStep { said: talk.into_said(), outcome }
}

// ---------------------------------------------------------------------------
// What holds of every run
// ---------------------------------------------------------------------------

/// A workspace with a value that no map names is refused before anything is
/// sent, whatever the mirror would answer.
pub proof fn unmapped_workspace_sends_nothing(
    cfg: RemoteConfigView,
    delay: u64,
    types: Seq<Seq<char>>,
    statuses: Seq<Seq<char>>,
    opts: InitOptions,
    t: TalkView,
)
    requires
        vocabulary_problems(cfg, types, statuses).len() > 0,
    ensures
        init_run(cfg, delay, types, statuses, opts, t) == (
            Err::<InitReportView, StopView>(
                StopView::Fail(vocabulary_refusal(vocabulary_problems(cfg, types, statuses))),
            ),
            t,
        ),
{
}

/// Where nothing is known of a bundle and no leave is given, its field is
/// refused, nothing is sent, and the report stays as it was.
pub proof fn unknown_bundle_is_refused(
    scene: InitScene,
    field: ProjectFieldBundleView,
    missing: Seq<PendingValueView>,
    report: InitReportView,
    t: TalkView,
)
    requires
        !scene.opts.allow_shared_bundle,
        sharedness::sharedness_of(
            scene.usage,
            field.bundle.id,
            field.field_name,
            scene.project.short_name,
        ) is Unavailable,
    ensures
        field_reconciled(scene, field, missing, report, t).0 matches Err(StopView::Fail(_)),
        field_reconciled(scene, field, missing, report, t).1 == report,
        field_reconciled(scene, field, missing, report, t).2 == t,
{
}

/// A bundle that others use is copied only under a project that the mirror
/// says is empty; otherwise its field is refused.
pub proof fn shared_bundle_needs_empty_project(
    scene: InitScene,
    field: ProjectFieldBundleView,
    missing: Seq<PendingValueView>,
    others: Seq<Seq<char>>,
    report: InitReportView,
    t: TalkView,
)
    requires
        shared_reconciled(scene, field, missing, others, report, t).0 is Ok,
    ensures
        exists|i: int|
            0 <= i < t.rest.len() && (#[trigger] t.rest[i]) is Ok && json::number_at(
                t.rest[i]->Ok_0,
                "count"@,
            ) == Some(0int),
{
    clone::empty_needs_a_count_of_nought(scene.project, scene.delay, 0, t);
}

proof fn has_issues_names(
    field_name: Seq<char>,
    values: Seq<char>,
    bundle_name: Seq<char>,
    others: Seq<Seq<char>>,
    project: Seq<char>,
    count: Seq<char>,
)
    ensures
        ({
            let list = text::joined(others, ", "@);
            let words = has_issues_text(field_name, values, bundle_name, list, project, count);
            &&& text::holds(words, "--allow-shared-bundle"@)
            &&& text::holds(words, count)
            &&& forall|i: int| 0 <= i < others.len() ==> text::holds(words, #[trigger] others[i])
        }),
{
    let list = text::joined(others, ", "@);
    let words = has_issues_text(field_name, values, bundle_name, list, project, count);
    let advice =
        " issue(s). Cloning the bundle now would re-point every existing issue's field at a copy, so this refuses. Either add those values in YouTrack's administration yourself, or re-run with --allow-shared-bundle to accept that they become visible to "@;
    let head = "'"@ + field_name + "' needs "@ + values + " added to the bundle '"@ + bundle_name
        + "', but "@ + list + " also use(s) that bundle and the project '"@ + project
        + "' already holds "@;
    reveal_strlit("--allow-shared-bundle");
    reveal_strlit(
        " issue(s). Cloning the bundle now would re-point every existing issue's field at a copy, so this refuses. Either add those values in YouTrack's administration yourself, or re-run with --allow-shared-bundle to accept that they become visible to ",
    );
    assert(text::stands_at(advice, "--allow-shared-bundle"@, 184));
    text::holds_within(head + count, advice, list + "."@, "--allow-shared-bundle"@);
    assert(head + count + advice + (list + "."@) =~= words);
    text::holds_itself(count);
    text::holds_within(head, count, advice + list + "."@, count);
    assert(head + count + (advice + list + "."@) =~= words);
    assert forall|i: int| 0 <= i < others.len() implies text::holds(words, #[trigger] others[i]) by {
        text::joined_holds(others, ", "@, i);
        text::holds_within(head + count + advice, list, "."@, others[i]);
    }
}

proof fn unsettled_names(
    field_name: Seq<char>,
    values: Seq<char>,
    bundle_name: Seq<char>,
    project: Seq<char>,
)
    ensures
        text::holds(
            unsettled_text(field_name, values, bundle_name, project),
            "--allow-shared-bundle"@,
        ),
{
    let advice =
        "' never settled — it kept answering -1. Cloning a project that turns out to hold issues is exactly what the count guards against, so this refuses rather than assuming the project is empty. Re-run in a moment, or use --allow-shared-bundle to add the values to the shared bundle instead."@;
    let head = "'"@ + field_name + "' needs "@ + values + " added to the shared bundle '"@
        + bundle_name + "', and YouTrack's issue count for '"@ + project;
    let none: Seq<char> = Seq::empty();
    reveal_strlit("--allow-shared-bundle");
    reveal_strlit(
        "' never settled — it kept answering -1. Cloning a project that turns out to hold issues is exactly what the count guards against, so this refuses rather than assuming the project is empty. Re-run in a moment, or use --allow-shared-bundle to add the values to the shared bundle instead.",
    );
    assert(text::stands_at(advice, "--allow-shared-bundle"@, 216));
    text::holds_within(head, advice, none, "--allow-shared-bundle"@);
    assert(head + advice + none =~= unsettled_text(field_name, values, bundle_name, project));
}

/// Where a project has issues, or their count does not settle, a bundle that
/// others use is refused: the report stays as it was, nothing is sent behind
/// the question for the count, and the refusal names the way out and, where
/// there are issues, their number and everyone else who uses the bundle.
pub proof fn refused_copy_changes_nothing(
    scene: InitScene,
    field: ProjectFieldBundleView,
    missing: Seq<PendingValueView>,
    others: Seq<Seq<char>>,
    report: InitReportView,
    t: TalkView,
)
    requires
        clone::emptiness_from(scene.project, scene.delay, 0, t).0 matches Ok(e) && !(e is Empty),
    ensures
        ({
            let (count, counted) = clone::emptiness_from(scene.project, scene.delay, 0, t);
            let (outcome, now, after) = shared_reconciled(scene, field, missing, others, report, t);
            &&& now == report
            &&& after == counted
            &&& outcome matches Err(StopView::Fail(RemoteErrorView::Config(words)))
            &&& text::holds(words, "--allow-shared-bundle"@)
            &&& count matches Ok(Emptiness::HasIssues(n)) ==> {
                &&& text::holds(words, text::decimal(n as int))
                &&& forall|i: int|
                    0 <= i < others.len() ==> text::holds(words, #[trigger] others[i])
            }
        }),
{
    if let Ok(Emptiness::HasIssues(n)) = clone::emptiness_from(
        scene.project,
        scene.delay,
        0,
        t,
    ).0 {
        has_issues_names(
            field.field_name,
            quoted_text(missing),
            field.bundle.name,
            others,
            scene.project.short_name,
            text::decimal(n as int),
        );
    } else {
        unsettled_names(
            field.field_name,
            quoted_text(missing),
            field.bundle.name,
            scene.project.short_name,
        );
    }
}

/// A stop that changes nothing on the mirror: a failure, a request that only
/// reads, or the question for a count, which is sent as a body but changes
/// nothing either.
pub open spec fn is_harmless(stop: StopView) -> bool {
    match stop {
        StopView::Ask { request, .. } => request.method is Get || request.path
            == "/api/issuesGetter/count?fields=count"@,
        StopView::Fail(_) => true,
    }
}

proof fn listing_is_harmless(
    base: Seq<char>,
    entity: Seq<char>,
    size: u32,
    skip: int,
    t: TalkView,
)
    ensures
        admin::listed_from(base, entity, size, skip, t).0 matches Err(stop) ==> is_harmless(stop),
    decreases t.rest.len(),
{
    match talk::asked(admin::page_request(base, entity, size, skip), 0, t) {
        (Ok(raw), after) => {
            listing_is_harmless(base, entity, size, skip + size, after);
        },
        _ => {},
    }
}

proof fn project_search_is_harmless(short_name: Seq<char>, skip: int, t: TalkView)
    ensures
        admin::project_from(short_name, skip, t).0 matches Err(stop) ==> is_harmless(stop),
    decreases t.rest.len(),
{
    match talk::asked(
        admin::page_request(
            admin::PROJECT_LIST_PATH@,
            "project list"@,
            admin::PAGE_SIZE,
            skip,
        ),
        0,
        t,
    ) {
        (Ok(raw), after) => {
            project_search_is_harmless(short_name, skip + admin::PAGE_SIZE, after);
        },
        _ => {},
    }
}

proof fn counting_is_harmless(project: ProjectRefView, base: u64, attempt: int, t: TalkView)
    ensures
        clone::emptiness_from(project, base, attempt, t).0 matches Err(stop) ==> is_harmless(stop),
    decreases clone::COUNT_POLL_ATTEMPTS - attempt,
{
    if attempt < clone::COUNT_POLL_ATTEMPTS {
        match talk::asked(clone::count_request(project), clone::count_pause(base, attempt), t) {
            (Ok(raw), after) => {
                counting_is_harmless(project, base, attempt + 1, after);
            },
            _ => {},
        }
    }
}

proof fn dry_fields_are_harmless(
    cfg: RemoteConfigView,
    scene: InitScene,
    k: int,
    settled: Seq<SettledBundleView>,
    report: InitReportView,
    t: TalkView,
)
    requires
        scene.opts.dry_run,
        0 <= k,
    ensures
        fields_reconciled_from(cfg, scene, k, settled, report, t).0 matches Err(stop)
            ==> is_harmless(stop),
    decreases RECONCILED_FIELDS@.len() - k,
{
    if k < RECONCILED_FIELDS@.len() {
        let name = RECONCILED_FIELDS@[k]@;
        match bundle_field(scene.fields, name) {
            None => {
                dry_fields_are_harmless(cfg, scene, k + 1, settled, report, t);
            },
            Some(field) => match bundles::missing_values(cfg, name, field.bundle) {
                Err(_) => {},
                Ok(missing) => {
                    dry_fields_are_harmless(
                        cfg,
                        scene,
                        k + 1,
                        settled.push(SettledBundleView { field_name: name, bundle: field.bundle }),
                        report,
                        t,
                    );
                    counting_is_harmless(scene.project, scene.delay, 0, t);
                    match field_reconciled(scene, field, missing, report, t) {
                        (Ok(bundle), now, after) => {
                            dry_fields_are_harmless(
                                cfg,
                                scene,
                                k + 1,
                                settled.push(SettledBundleView { field_name: name, bundle }),
                                now,
                                after,
                            );
                        },
                        _ => {},
                    }
                },
            },
        }
    }
}

proof fn dry_defaults_are_harmless(
    cfg: RemoteConfigView,
    scene: InitScene,
    settled: Seq<SettledBundleView>,
    k: int,
    report: InitReportView,
    t: TalkView,
)
    requires
        scene.opts.dry_run,
        0 <= k,
    ensures
        defaults_aligned_from(cfg, scene, settled, k, report, t).0 is Ok,
    decreases WANTED_DEFAULTS@.len() - k,
{
    if k < WANTED_DEFAULTS@.len() {
        match default_due(cfg, scene, settled, WANTED_DEFAULTS@[k].0@, WANTED_DEFAULTS@[k].1@) {
            None => {
                dry_defaults_are_harmless(cfg, scene, settled, k + 1, report, t);
            },
            Some((wanted, summary, bundle)) => {
                let (_, now, after) = default_changed(scene, summary, bundle, wanted, report, t);
                dry_defaults_are_harmless(cfg, scene, settled, k + 1, now, after);
            },
        }
    }
}

/// A dry run changes nothing on the mirror, whatever it answers: everything
/// that such a run asks for only reads.
pub proof fn dry_run_is_harmless(
    cfg: RemoteConfigView,
    delay: u64,
    types: Seq<Seq<char>>,
    statuses: Seq<Seq<char>>,
    opts: InitOptions,
    t: TalkView,
)
    requires
        opts.dry_run,
    ensures
        init_run(cfg, delay, types, statuses, opts, t).0 matches Err(stop) ==> is_harmless(stop),
{
    project_search_is_harmless(cfg.project, 0, t);
    match admin::project_from(cfg.project, 0, t) {
        (Ok(project), t1) => {
            listing_is_harmless(
                admin::FIELD_LIST_PATH@,
                "custom field list"@,
                admin::PAGE_SIZE,
                0,
                t1,
            );
            match fields_provided(project, true, t1) {
                (Ok((created, attached)), t2) => {
                    let report = InitReportView {
                        prototypes_created: created,
                        fields_attached: attached,
                        ..blank_report(true)
                    };
                    dry_project_is_harmless(cfg, project, opts, delay, report, t2);
                },
                _ => {},
            }
        },
        _ => {},
    }
}

proof fn dry_project_is_harmless(
    cfg: RemoteConfigView,
    project: ProjectRefView,
    opts: InitOptions,
    delay: u64,
    report: InitReportView,
    t: TalkView,
)
    requires
        opts.dry_run,
    ensures
        project_settled(cfg, project, opts, delay, report, t).0 matches Err(stop) ==> is_harmless(
            stop,
        ),
{
    listing_is_harmless(
        sharedness::SCAN_PATH@,
        "bundle usage scan"@,
        admin::PAGE_SIZE,
        0,
        t,
    );
    match usage_scanned(t) {
        (Ok(usage), t1) => {
            let now = InitReportView { projects_seen: usage.projects_seen, ..report };
            let t2 = talk::saying(scan_text(usage.projects_seen), t1);
            match summaries(project, t2) {
                (Ok(found), t3) => {
                    listing_is_harmless(
                        bundles::project_fields_path(project),
                        "project custom fields"@,
                        bundles::PROJECT_FIELDS_PAGE_SIZE,
                        0,
                        t3,
                    );
                    match bundles::project_fields(project, t3) {
                        (Ok(fields), t4) => {
                            let scene = InitScene {
                                project,
                                usage,
                                summaries: found,
                                fields,
                                opts,
                                delay,
                            };
                            dry_fields_are_harmless(cfg, scene, 0, Seq::empty(), now, t4);
                            match fields_reconciled_from(cfg, scene, 0, Seq::empty(), now, t4) {
                                (Ok(settled), then_now, t5) => {
                                    dry_defaults_are_harmless(
                                        cfg,
                                        scene,
                                        settled,
                                        0,
                                        then_now,
                                        t5,
                                    );
                                },
                                _ => {},
                            }
                        },
                        _ => {},
                    }
                },
                _ => {},
            }
        },
        _ => {},
    }
}

/// A stop that takes nothing away from the mirror.
pub open spec fn deletes_nothing(stop: StopView) -> bool {
    stop matches StopView::Ask { request, .. } ==> !(request.method is Delete)
}

proof fn listing_deletes_nothing(
    base: Seq<char>,
    entity: Seq<char>,
    size: u32,
    skip: int,
    t: TalkView,
)
    ensures
        admin::listed_from(base, entity, size, skip, t).0 matches Err(stop) ==> deletes_nothing(
            stop,
        ),
    decreases t.rest.len(),
{
    if let (Ok(raw), after) = talk::asked(admin::page_request(base, entity, size, skip), 0, t) {
        listing_deletes_nothing(base, entity, size, skip + size, after);
    }
}

proof fn search_deletes_nothing(short_name: Seq<char>, skip: int, t: TalkView)
    ensures
        admin::project_from(short_name, skip, t).0 matches Err(stop) ==> deletes_nothing(stop),
    decreases t.rest.len(),
{
    let request = admin::page_request(
        admin::PROJECT_LIST_PATH@,
        "project list"@,
        admin::PAGE_SIZE,
        skip,
    );
    if let (Ok(raw), after) = talk::asked(request, 0, t) {
        search_deletes_nothing(short_name, skip + admin::PAGE_SIZE, after);
    }
}

proof fn counting_deletes_nothing(project: ProjectRefView, base: u64, attempt: int, t: TalkView)
    ensures
        clone::emptiness_from(project, base, attempt, t).0 matches Err(stop) ==> deletes_nothing(
            stop,
        ),
    decreases clone::COUNT_POLL_ATTEMPTS - attempt,
{
    if attempt < clone::COUNT_POLL_ATTEMPTS {
        if let (Ok(raw), after) = talk::asked(
            clone::count_request(project),
            clone::count_pause(base, attempt),
            t,
        ) {
            counting_deletes_nothing(project, base, attempt + 1, after);
        }
    }
}

proof fn providing_deletes_nothing(k: int, existing: Seq<admin::FieldRefView>, t: TalkView)
    ensures
        admin::ensured_from(k, existing, t).0 matches Err(stop) ==> deletes_nothing(stop),
    decreases admin::ALL_FIELDS@.len() - k,
{
    if 0 <= k < admin::ALL_FIELDS@.len() {
        if admin::field_called(existing, admin::ALL_FIELDS@[k].0@) is Some {
            providing_deletes_nothing(k + 1, existing, t);
        } else if let (Ok(_), after) = admin::posted(
            admin::create_field(admin::ALL_FIELDS@[k].0@, admin::ALL_FIELDS@[k].1@),
            t,
        ) {
            listing_deletes_nothing(
                admin::FIELD_LIST_PATH@,
                "custom field list"@,
                admin::PAGE_SIZE,
                0,
                after,
            );
            if let (Ok(again), end) = admin::prototypes(after) {
                providing_deletes_nothing(k + 1, again, end);
            }
        }
    }
}

proof fn attaching_deletes_nothing(
    project: ProjectRefView,
    fields: Seq<admin::FieldRefView>,
    k: int,
    t: TalkView,
)
    ensures
        admin::attached_from(project, fields, k, t).0 matches Err(stop) ==> deletes_nothing(stop),
    decreases fields.len() - k,
{
    if 0 <= k < fields.len() {
        if let (Ok(_), after) = admin::posted(admin::attach_field(project, fields[k]), t) {
            attaching_deletes_nothing(project, fields, k + 1, after);
        }
    }
}

proof fn adding_deletes_nothing(
    bundle: BundleRefView,
    values: Seq<PendingValueView>,
    k: int,
    t: TalkView,
)
    ensures
        bundles::values_added_from(bundle, values, k, t).0 matches Err(stop) ==> deletes_nothing(
            stop,
        ),
    decreases values.len() - k,
{
    if 0 <= k < values.len() {
        if let (Ok(_), after) = talk::asked(bundles::add_value(bundle, values[k]), 0, t) {
            adding_deletes_nothing(bundle, values, k + 1, after);
        }
    }
}

proof fn fields_delete_nothing(project: ProjectRefView, dry_run: bool, t: TalkView)
    ensures
        fields_provided(project, dry_run, t).0 matches Err(stop) ==> deletes_nothing(stop),
{
    listing_deletes_nothing(
        admin::FIELD_LIST_PATH@,
        "custom field list"@,
        admin::PAGE_SIZE,
        0,
        t,
    );
    if let (Ok(missing), t1) = missing_prototypes(t) {
        let t2 = after_creating(missing, t1);
        listing_deletes_nothing(
            admin::FIELD_LIST_PATH@,
            "custom field list"@,
            admin::PAGE_SIZE,
            0,
            t2,
        );
        if let (Ok(existing), after) = admin::prototypes(t2) {
            providing_deletes_nothing(0, existing, after);
        }
        if let (Ok(fields), t3) = admin::ensured(t2) {
            if let (Ok(attached), t4) = summaries(project, t3) {
                attaching_deletes_nothing(project, fields_unattached(fields, attached), 0, t4);
            }
        }
    }
}

proof fn copying_deletes_nothing(
    scene: InitScene,
    field: ProjectFieldBundleView,
    missing: Seq<PendingValueView>,
    others: Seq<Seq<char>>,
    report: InitReportView,
    t: TalkView,
)
    ensures
        shared_reconciled(scene, field, missing, others, report, t).0 matches Err(stop)
            ==> deletes_nothing(stop),
{
    counting_deletes_nothing(scene.project, scene.delay, 0, t);
    if let (Ok(Emptiness::Empty), after) = clone::emptiness_from(
        scene.project,
        scene.delay,
        0,
        t,
    ) {
        let told = with_clone(scene, field, report);
        listing_deletes_nothing(
            clone::bundle_list_path(field.bundle.kind),
            "bundle list"@,
            admin::PAGE_SIZE,
            0,
            after,
        );
        if let (Ok(copy), now, end) = copy_had(scene, field, missing, told, after) {
            if let (Ok(_), t1) = talk::asked(
                clone::repoint_request(field, scene.project, copy),
                0,
                end,
            ) {
                adding_deletes_nothing(copy, still_missing(missing, copy), 0, t1);
            }
        }
    }
}

proof fn field_deletes_nothing(
    scene: InitScene,
    field: ProjectFieldBundleView,
    missing: Seq<PendingValueView>,
    report: InitReportView,
    t: TalkView,
)
    ensures
        field_reconciled(scene, field, missing, report, t).0 matches Err(stop) ==> deletes_nothing(
            stop,
        ),
{
    let bundle = field.bundle;
    adding_deletes_nothing(bundle, missing, 0, t);
    match sharedness::sharedness_of(
        scene.usage,
        bundle.id,
        field.field_name,
        scene.project.short_name,
    ) {
        SharednessView::Private => {},
        SharednessView::Shared { others } => {
            let note = note_shared_text(
                quoted_text(missing),
                bundle.name,
                text::joined(others, ", "@),
            );
            adding_deletes_nothing(bundle, missing, 0, talk::saying(note, t));
            copying_deletes_nothing(scene, field, missing, others, report, t);
        },
        SharednessView::Unavailable { reason } => {
            let note = note_unscanned_text(quoted_text(missing), bundle.name, reason);
            adding_deletes_nothing(bundle, missing, 0, talk::saying(note, t));
        },
    }
}

proof fn bundles_delete_nothing(
    cfg: RemoteConfigView,
    scene: InitScene,
    k: int,
    settled: Seq<SettledBundleView>,
    report: InitReportView,
    t: TalkView,
)
    ensures
        fields_reconciled_from(cfg, scene, k, settled, report, t).0 matches Err(stop)
            ==> deletes_nothing(stop),
    decreases RECONCILED_FIELDS@.len() - k,
{
    if 0 <= k < RECONCILED_FIELDS@.len() {
        let name = RECONCILED_FIELDS@[k]@;
        match bundle_field(scene.fields, name) {
            None => {
                bundles_delete_nothing(cfg, scene, k + 1, settled, report, t);
            },
            Some(field) => {
                if let Ok(missing) = bundles::missing_values(cfg, name, field.bundle) {
                    bundles_delete_nothing(
                        cfg,
                        scene,
                        k + 1,
                        settled.push(SettledBundleView { field_name: name, bundle: field.bundle }),
                        report,
                        t,
                    );
                    field_deletes_nothing(scene, field, missing, report, t);
                    if let (Ok(bundle), now, after) = field_reconciled(
                        scene,
                        field,
                        missing,
                        report,
                        t,
                    ) {
                        bundles_delete_nothing(
                            cfg,
                            scene,
                            k + 1,
                            settled.push(SettledBundleView { field_name: name, bundle }),
                            now,
                            after,
                        );
                    }
                }
            },
        }
    }
}

proof fn defaults_delete_nothing(
    cfg: RemoteConfigView,
    scene: InitScene,
    settled: Seq<SettledBundleView>,
    k: int,
    report: InitReportView,
    t: TalkView,
)
    ensures
        defaults_aligned_from(cfg, scene, settled, k, report, t).0 matches Err(stop)
            ==> deletes_nothing(stop),
    decreases WANTED_DEFAULTS@.len() - k,
{
    if 0 <= k < WANTED_DEFAULTS@.len() {
        match default_due(cfg, scene, settled, WANTED_DEFAULTS@[k].0@, WANTED_DEFAULTS@[k].1@) {
            None => {
                defaults_delete_nothing(cfg, scene, settled, k + 1, report, t);
            },
            Some((wanted, summary, bundle)) => {
                if let (Ok(_), now, after) = default_changed(
                    scene,
                    summary,
                    bundle,
                    wanted,
                    report,
                    t,
                ) {
                    defaults_delete_nothing(cfg, scene, settled, k + 1, now, after);
                }
            },
        }
    }
}

/// Setting up a project takes nothing away from the mirror, whatever it
/// answers.
pub proof fn setting_up_deletes_nothing(
    cfg: RemoteConfigView,
    delay: u64,
    types: Seq<Seq<char>>,
    statuses: Seq<Seq<char>>,
    opts: InitOptions,
    t: TalkView,
)
    ensures
        init_run(cfg, delay, types, statuses, opts, t).0 matches Err(stop) ==> deletes_nothing(
            stop,
        ),
{
    search_deletes_nothing(cfg.project, 0, t);
    if let (Ok(project), t1) = admin::project_from(cfg.project, 0, t) {
        fields_delete_nothing(project, opts.dry_run, t1);
        if let (Ok((created, attached)), t2) = fields_provided(project, opts.dry_run, t1) {
            let report = InitReportView {
                prototypes_created: created,
                fields_attached: attached,
                ..blank_report(opts.dry_run)
            };
            project_deletes_nothing(cfg, project, opts, delay, report, t2);
        }
    }
}

proof fn project_deletes_nothing(
    cfg: RemoteConfigView,
    project: ProjectRefView,
    opts: InitOptions,
    delay: u64,
    report: InitReportView,
    t: TalkView,
)
    ensures
        project_settled(cfg, project, opts, delay, report, t).0 matches Err(stop)
            ==> deletes_nothing(stop),
{
    listing_deletes_nothing(
        sharedness::SCAN_PATH@,
        "bundle usage scan"@,
        admin::PAGE_SIZE,
        0,
        t,
    );
    if let (Ok(usage), t1) = usage_scanned(t) {
        let now = InitReportView { projects_seen: usage.projects_seen, ..report };
        let t2 = talk::saying(scan_text(usage.projects_seen), t1);
        if let (Ok(found), t3) = summaries(project, t2) {
            listing_deletes_nothing(
                bundles::project_fields_path(project),
                "project custom fields"@,
                bundles::PROJECT_FIELDS_PAGE_SIZE,
                0,
                t3,
            );
            if let (Ok(fields), t4) = bundles::project_fields(project, t3) {
                let scene = InitScene { project, usage, summaries: found, fields, opts, delay };
                bundles_delete_nothing(cfg, scene, 0, Seq::empty(), now, t4);
                if let (Ok(settled), next, t5) = fields_reconciled_from(
                    cfg,
                    scene,
                    0,
                    Seq::empty(),
                    now,
                    t4,
                ) {
                    defaults_delete_nothing(cfg, scene, settled, 0, next, t5);
                }
            }
        }
    }
}

proof fn complete_bundles_stay(
    cfg: RemoteConfigView,
    scene: InitScene,
    k: int,
    settled: Seq<SettledBundleView>,
    report: InitReportView,
    t: TalkView,
)
    requires
        0 <= k,
        bundles_complete(cfg, scene),
    ensures
        fields_reconciled_from(cfg, scene, k, settled, report, t).0 is Ok,
        fields_reconciled_from(cfg, scene, k, settled, report, t).1 == report,
        fields_reconciled_from(cfg, scene, k, settled, report, t).2 == t,
    decreases RECONCILED_FIELDS@.len() - k,
{
    if k < RECONCILED_FIELDS@.len() {
        let name = RECONCILED_FIELDS@[k]@;
        match bundle_field(scene.fields, name) {
            None => {
                complete_bundles_stay(cfg, scene, k + 1, settled, report, t);
            },
            Some(field) => {
                let next = settled.push(
                    SettledBundleView { field_name: name, bundle: field.bundle },
                );
                complete_bundles_stay(cfg, scene, k + 1, next, report, t);
            },
        }
    }
}

/// No bundle of the project lacks a value.
pub open spec fn bundles_complete(cfg: RemoteConfigView, scene: InitScene) -> bool {
    forall|k: int|
        0 <= k < RECONCILED_FIELDS@.len() ==> ({
            let name = #[trigger] RECONCILED_FIELDS@[k]@;
            bundle_field(scene.fields, name) matches Some(field) ==> (bundles::missing_values(
                cfg,
                name,
                field.bundle,
            ) matches Ok(missing) && missing.len() == 0)
        })
}

/// A project whose bundles lack nothing is left as it is, where its defaults
/// are to be kept: nothing is sent, and nothing is reported as done.
pub proof fn complete_project_is_left_alone(
    cfg: RemoteConfigView,
    scene: InitScene,
    report: InitReportView,
    t: TalkView,
)
    requires
        bundles_complete(cfg, scene),
        scene.opts.keep_project_defaults,
    ensures
        bundles_settled(cfg, scene, report, t) == (Ok::<(), StopView>(()), report, t),
{
    complete_bundles_stay(cfg, scene, 0, Seq::empty(), report, t);
}

} // verus!
