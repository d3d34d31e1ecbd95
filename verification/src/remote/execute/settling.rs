//! What a push and a pull settle: which fields they carry, with which values,
//! and that nothing of what they carried differs afterwards.

use crate::json;
use crate::json::JsonView;
use crate::model;
use crate::model::{Issue, StatusView};
use crate::remote::config;
use crate::remote::config::RemoteConfigView;
use crate::remote::diff;
use crate::remote::diff::{Field, FieldChange, FieldChangeView};
use crate::remote::execute::field_pulls;
use crate::remote::execute::field_pulls::FieldPullView;
use crate::remote::execute::field_pushes;
use crate::remote::execute::field_pushes::PushReportView;
use crate::remote::http::Method;
use crate::remote::model::{RemoteIssue, RemoteIssueView};
use crate::remote::plan;
use crate::remote::plan::IssueFieldPlanView;
use crate::remote::reconcile;
use crate::remote::talk::{StopView, TalkView};
use crate::remote::youtrack::mapping;
use crate::remote::youtrack::tags;
use crate::remote::youtrack::tags::TagCacheView;
use crate::text;
use crate::time;
use vstd::prelude::*;
use vstd::string::*;

verus! {

broadcast use vstd::string::group_string_axioms;

/// The changes hold one of the field that the bead wins.
pub open spec fn bead_wins(changes: Seq<FieldChangeView>, field: Field) -> bool {
    exists|k: int|
        0 <= k < changes.len() && (#[trigger] changes[k]).field == field && changes[k].direction
            is Push
}

/// The changes hold one of the field that the mirror wins.
pub open spec fn mirror_wins(changes: Seq<FieldChangeView>, field: Field) -> bool {
    exists|k: int|
        0 <= k < changes.len() && (#[trigger] changes[k]).field == field && changes[k].direction
            is Pull
}

proof fn wins_are_pushed(changes: Seq<FieldChangeView>, field: Field)
    ensures
        field_pushes::pushes(changes, field) <==> bead_wins(changes, field),
    decreases changes.len(),
{
    if changes.len() > 0 {
        let front = changes.drop_last();
        wins_are_pushed(front, field);
        if bead_wins(front, field) {
            let k = choose|k: int|
                0 <= k < front.len() && (#[trigger] front[k]).field == field && front[k].direction
                    is Push;
            assert(changes[k] == front[k]);
        }
        if bead_wins(changes, field) {
            let k = choose|k: int|
                0 <= k < changes.len() && (#[trigger] changes[k]).field == field
                    && changes[k].direction is Push;
            if k < front.len() {
                assert(front[k] == changes[k]);
            }
        }
        let last = changes[changes.len() - 1];
        if last.field == field && last.direction is Push {
            assert(bead_wins(changes, field));
        }
    }
}

/// The set of fields that an update carries holds a field exactly where the
/// bead wins a change of that very field. The identifier of the bead is never
/// written again.
pub proof fn update_holds_what_the_bead_wins(changes: Seq<FieldChangeView>)
    ensures
        ({
            let fields = field_pushes::field_set_of(changes);
            &&& fields.title <==> bead_wins(changes, Field::Title)
            &&& fields.description <==> bead_wins(changes, Field::Description)
            &&& fields.status <==> bead_wins(changes, Field::State)
            &&& fields.issue_type <==> bead_wins(changes, Field::Type)
            &&& fields.priority <==> bead_wins(changes, Field::Priority)
            &&& fields.design <==> bead_wins(changes, Field::Design)
            &&& fields.acceptance_criteria <==> bead_wins(changes, Field::AcceptanceCriteria)
            &&& fields.notes <==> bead_wins(changes, Field::Notes)
            &&& fields.close_reason <==> bead_wins(changes, Field::CloseReason)
            &&& !fields.beads_id
            &&& field_pushes::pushes(changes, Field::Labels) <==> bead_wins(changes, Field::Labels)
        }),
{
    wins_are_pushed(changes, Field::Title);
    wins_are_pushed(changes, Field::Description);
    wins_are_pushed(changes, Field::State);
    wins_are_pushed(changes, Field::Type);
    wins_are_pushed(changes, Field::Priority);
    wins_are_pushed(changes, Field::Design);
    wins_are_pushed(changes, Field::AcceptanceCriteria);
    wins_are_pushed(changes, Field::Notes);
    wins_are_pushed(changes, Field::CloseReason);
    wins_are_pushed(changes, Field::Labels);
}

/// The body writes the bead's own value of every field that the bead wins,
/// under the mirror's name of that field, and says nothing of any other field.
pub open spec fn writes_what_the_bead_wins(
    cfg: RemoteConfigView,
    bead: Issue,
    changes: Seq<FieldChangeView>,
    body: JsonView,
) -> bool {
    let text_class = "TextIssueCustomField"@;
    &&& json::member(body, "summary"@) == (if bead_wins(changes, Field::Title) {
        Some(JsonView::Text(bead.title@))
    } else {
        None
    })
    &&& json::member(body, "description"@) == (if bead_wins(changes, Field::Description) {
        Some(
            match bead.description {
                Some(d) => JsonView::Text(d@),
                None => JsonView::Null,
            },
        )
    } else {
        None
    })
    &&& mapping::sets_field(
        body,
        bead_wins(changes, Field::State),
        "State"@,
        "StateIssueCustomField"@,
        mapping::by_name(
            config::value_under(cfg.status_map, model::status_name(bead.status@))->0,
        ),
    )
    &&& mapping::sets_field(
        body,
        bead_wins(changes, Field::Type),
        "Type"@,
        "SingleEnumIssueCustomField"@,
        mapping::by_name(
            config::value_under(cfg.type_map, model::issue_type_name(bead.issue_type@))->0,
        ),
    )
    &&& mapping::sets_field(
        body,
        bead_wins(changes, Field::Priority),
        "Priority"@,
        "SingleEnumIssueCustomField"@,
        mapping::by_name(
            config::value_under(cfg.priority_map, text::decimal(bead.priority.0 as int))->0,
        ),
    )
    &&& mapping::sets_field(
        body,
        bead_wins(changes, Field::Design),
        "Design"@,
        text_class,
        mapping::as_prose(bead.design),
    )
    &&& mapping::sets_field(
        body,
        bead_wins(changes, Field::AcceptanceCriteria),
        "Acceptance Criteria"@,
        text_class,
        mapping::as_prose(bead.acceptance_criteria),
    )
    &&& mapping::sets_field(
        body,
        bead_wins(changes, Field::Notes),
        "Notes"@,
        text_class,
        mapping::as_prose(bead.notes),
    )
    &&& mapping::sets_field(
        body,
        bead_wins(changes, Field::CloseReason),
        "Close Reason"@,
        text_class,
        mapping::as_prose(bead.close_reason),
    )
    &&& mapping::custom_field(body, "Beads ID"@) is None
}

/// Every value that the bead wins and that goes through the configuration is
/// mapped by it.
pub open spec fn wins_are_mapped(
    cfg: RemoteConfigView,
    bead: Issue,
    changes: Seq<FieldChangeView>,
) -> bool {
    &&& bead_wins(changes, Field::Type) ==> config::value_under(
        cfg.type_map,
        model::issue_type_name(bead.issue_type@),
    ) is Some
    &&& bead_wins(changes, Field::State) ==> config::value_under(
        cfg.status_map,
        model::status_name(bead.status@),
    ) is Some
    &&& bead_wins(changes, Field::Priority) ==> config::value_under(
        cfg.priority_map,
        text::decimal(bead.priority.0 as int),
    ) is Some
}

/// The body that a push makes of the changes of a pair writes what the bead
/// wins. There is none exactly where a value that the bead wins is not mapped.
pub proof fn push_writes_what_the_bead_wins(
    cfg: RemoteConfigView,
    bead: Issue,
    changes: Seq<FieldChangeView>,
)
    ensures
        ({
            let body = mapping::update_body(cfg, bead, field_pushes::field_set_of(changes));
            &&& body is Ok <==> wins_are_mapped(cfg, bead, changes)
            &&& body is Ok ==> writes_what_the_bead_wins(cfg, bead, changes, body->Ok_0)
        }),
{
    let fields = field_pushes::field_set_of(changes);
    update_holds_what_the_bead_wins(changes);
    mapping::update_is_refused_for_unmapped_values(cfg, bead, fields);
    if mapping::update_body(cfg, bead, fields) is Ok {
        mapping::update_carries_what_is_asked_for(cfg, bead, fields);
    }
}

/// Something of the pair is the bead's to write.
pub open spec fn has_wins(changes: Seq<FieldChangeView>) -> bool {
    exists|k: int| 0 <= k < changes.len() && (#[trigger] changes[k]).direction is Push
}

/// A push of a pair of which the bead wins nothing sends nothing and reports
/// nothing. Where the bead wins something and everything it wins is mapped,
/// the update of its issue is sent, at once where no label is among it, and it
/// writes what the bead wins; the mirror's answer decides whether the pair is
/// reported as updated or as failed. Where something is not mapped, that is
/// reported as a failure and nothing is sent.
pub proof fn push_of_a_pair_sends_its_wins(
    cfg: RemoteConfigView,
    beads: Seq<Issue>,
    bead: Issue,
    p: IssueFieldPlanView,
    cache: Option<TagCacheView>,
    report: PushReportView,
    t: TalkView,
)
    requires
        plan::bead_called(beads, p.bead_id) == Some(bead),
    ensures
        ({
            let end = field_pushes::field_pushed(cfg, beads, p, cache, report, t);
            let pair = p.bead_id + " → "@ + p.remote_id;
            &&& !has_wins(p.changes) ==> end.stop is None && end.talk == t && end.report == report
            &&& has_wins(p.changes) && !wins_are_mapped(cfg, bead, p.changes) ==> end.stop is None
                && end.talk == t && end.report.failures.len() == report.failures.len() + 1
                && end.report.fields_updated == report.fields_updated
            &&& has_wins(p.changes) && wins_are_mapped(cfg, bead, p.changes) && !bead_wins(
                p.changes,
                Field::Labels,
            ) ==> {
                &&& t.rest.len() == 0 ==> {
                    &&& end.report == report
                    &&& end.stop matches Some(StopView::Ask { request, pause }) && pause == 0
                        && request.method == Method::Post && request.path == "/api/issues/"@
                        + p.remote_id + "?fields=idReadable"@ && request.body is Some
                        && writes_what_the_bead_wins(cfg, bead, p.changes, request.body->0)
                }
                &&& t.rest.len() > 0 ==> {
                    &&& end.stop is None
                    &&& end.talk.rest == t.rest.drop_first()
                    &&& t.rest[0] is Ok ==> end.report.fields_updated
                        == report.fields_updated.push(pair) && end.report.failures
                        == report.failures
                    &&& t.rest[0] is Err ==> end.report.fields_updated == report.fields_updated
                        && end.report.failures.len() == report.failures.len() + 1
                }
            }
            &&& end.stop matches Some(StopView::Ask { request, .. }) ==> (bead_wins(
                p.changes,
                Field::Labels,
            ) && request.entity == "issue"@ ==> request.method == Method::Post && request.path
                == "/api/issues/"@ + p.remote_id + "?fields=idReadable"@ && request.body is Some
                && writes_what_the_bead_wins(cfg, bead, p.changes, request.body->0)
                && json::member(request.body->0, "tags"@) is Some)
        }),
{
    let changes = p.changes;
    let fields = field_pushes::field_set_of(changes);
    update_holds_what_the_bead_wins(changes);
    push_writes_what_the_bead_wins(cfg, bead, changes);
    nothing_won_is_nothing_asked(changes);
    let body = mapping::update_body(cfg, bead, fields);
    if body is Ok && bead_wins(changes, Field::Labels) {
        mapping::update_carries_what_is_asked_for(cfg, bead, fields);
        tag_requests_are_of_tags(cache, text::views(bead.labels@), t);
        if let (Ok(ids), now, after) = field_pushes::tags_had(cache, text::views(bead.labels@), t) {
            mapping::other_parts_stay(
                body->Ok_0->Object_0,
                tags::tags_sent(ids),
            );
            let tagged = field_pushes::with_tags(body->Ok_0, ids);
            tagging_keeps_the_fields(cfg, bead, changes, body->Ok_0, tagged);
        }
    }
}

proof fn tagging_keeps_the_fields(
    cfg: RemoteConfigView,
    bead: Issue,
    changes: Seq<FieldChangeView>,
    before: JsonView,
    after: JsonView,
)
    requires
        writes_what_the_bead_wins(cfg, bead, changes, before),
        json::member(after, "summary"@) == json::member(before, "summary"@),
        json::member(after, "description"@) == json::member(before, "description"@),
        json::member(after, "customFields"@) == json::member(before, "customFields"@),
    ensures
        writes_what_the_bead_wins(cfg, bead, changes, after),
{
    assert(forall|name: Seq<char>| #[trigger]
        mapping::custom_field(after, name) == mapping::custom_field(before, name));
    assert(forall|name: Seq<char>| #[trigger]
        mapping::custom_value(after, name) == mapping::custom_value(before, name));
}

proof fn nothing_won_is_nothing_asked(changes: Seq<FieldChangeView>)
    ensures
        has_wins(changes) <==> (field_pushes::field_set_of(changes) != mapping::no_fields()
            || bead_wins(changes, Field::Labels)),
{
    update_holds_what_the_bead_wins(changes);
    let fields = field_pushes::field_set_of(changes);
    if has_wins(changes) {
        let k = choose|k: int| 0 <= k < changes.len() && (#[trigger] changes[k]).direction is Push;
        assert(bead_wins(changes, changes[k].field));
    }
    if fields != mapping::no_fields() || bead_wins(changes, Field::Labels) {
        assert(exists|f: Field| #[trigger] bead_wins(changes, f)) by {
            if fields.title {
                assert(bead_wins(changes, Field::Title));
            } else if fields.description {
                assert(bead_wins(changes, Field::Description));
            } else if fields.status {
                assert(bead_wins(changes, Field::State));
            } else if fields.issue_type {
                assert(bead_wins(changes, Field::Type));
            } else if fields.priority {
                assert(bead_wins(changes, Field::Priority));
            } else if fields.design {
                assert(bead_wins(changes, Field::Design));
            } else if fields.acceptance_criteria {
                assert(bead_wins(changes, Field::AcceptanceCriteria));
            } else if fields.notes {
                assert(bead_wins(changes, Field::Notes));
            } else if fields.close_reason {
                assert(bead_wins(changes, Field::CloseReason));
            } else {
                assert(bead_wins(changes, Field::Labels));
            }
        }
        let f = choose|f: Field| #[trigger] bead_wins(changes, f);
        let k = choose|k: int|
            0 <= k < changes.len() && (#[trigger] changes[k]).field == f && changes[k].direction
                is Push;
        assert(changes[k].direction is Push);
    }
}

proof fn tag_entities_differ()
    ensures
        "tags"@ != "issue"@,
        "tag"@ != "issue"@,
{
    reveal_strlit("tags");
    reveal_strlit("tag");
    reveal_strlit("issue");
    assert("tags"@[0] == 't' && "tag"@[0] == 't' && "issue"@[0] == 'i');
}

proof fn tag_requests_are_of_tags(
    cache: Option<TagCacheView>,
    labels: Seq<Seq<char>>,
    t: TalkView,
)
    ensures
        field_pushes::tags_had(cache, labels, t).0 matches Err(StopView::Ask { request, .. })
            ==> request.entity != "issue"@,
{
    tag_entities_differ();
    if let (Ok(known), after) = field_pushes::cache_had(cache, t) {
        tags_asked_for_are_tags(known, labels, 0, Seq::empty(), after);
    }
}

proof fn tags_asked_for_are_tags(
    cache: TagCacheView,
    labels: Seq<Seq<char>>,
    k: int,
    ids: Seq<Seq<char>>,
    t: TalkView,
)
    ensures
        field_pushes::tags_from(cache, labels, k, ids, t).0 matches Err(
            StopView::Ask { request, .. },
        ) ==> request.entity != "issue"@,
    decreases labels.len() - k,
{
    tag_entities_differ();
    if 0 <= k < labels.len() {
        match tags::tag_had(cache, labels[k], t) {
            (Ok(Some(id)), now, after) => {
                tags_asked_for_are_tags(now, labels, k + 1, ids.push(id), after);
            },
            (Ok(None), now, after) => {
                tags_asked_for_are_tags(now, labels, k + 1, ids, after);
            },
            _ => {},
        }
    }
}

/// The issue after an update that the mirror has carried out: what the body
/// names is as it says, read the way a fetched issue is read, and everything
/// else is as it was. Labels are another matter, and the clock never goes back.
pub open spec fn has_taken(
    cfg: RemoteConfigView,
    body: JsonView,
    before: RemoteIssueView,
    after: RemoteIssueView,
) -> bool {
    let prose = |name: Seq<char>, was: Option<Seq<char>>|
        match mapping::custom_value(body, name) {
            Some(value) => json::text_at(value, "text"@),
            None => was,
        };
    &&& after.summary == (match json::member(body, "summary"@) {
        Some(JsonView::Text(s)) => s,
        _ => before.summary,
    })
    &&& after.description == (match json::member(body, "description"@) {
        Some(JsonView::Text(s)) => Some(s),
        Some(_) => None,
        None => before.description,
    })
    &&& match mapping::custom_value(body, "State"@) {
        Some(_) => mapping::status_read(cfg, body) == Ok::<
            StatusView,
            mapping::UnmappedValueView,
        >(after.fields.status),
        None => after.fields.status == before.fields.status,
    }
    &&& match mapping::custom_value(body, "Type"@) {
        Some(_) => mapping::type_read(cfg, body) == Ok::<
            model::IssueTypeView,
            mapping::UnmappedValueView,
        >(after.fields.issue_type),
        None => after.fields.issue_type == before.fields.issue_type,
    }
    &&& match mapping::custom_value(body, "Priority"@) {
        Some(_) => mapping::priority_read(cfg, body) == Ok::<
            model::Priority,
            mapping::UnmappedValueView,
        >(after.fields.priority),
        None => after.fields.priority == before.fields.priority,
    }
    &&& after.fields.design == prose("Design"@, before.fields.design)
    &&& after.fields.acceptance_criteria == prose(
        "Acceptance Criteria"@,
        before.fields.acceptance_criteria,
    )
    &&& after.fields.notes == prose("Notes"@, before.fields.notes)
    &&& after.fields.close_reason == prose("Close Reason"@, before.fields.close_reason)
    &&& time::millis(after.updated) >= time::millis(before.updated)
}

/// Once the mirror has carried out the update that a push makes of a pair, the
/// two sides no longer differ in anything that the bead wins, labels aside: a
/// second push has no field left to write.
pub proof fn pushed_fields_are_settled(
    cfg: RemoteConfigView,
    bead: Issue,
    before: RemoteIssueView,
    after: RemoteIssueView,
    k: int,
)
    requires
        config::config_refusal(cfg) is None,
        !(bead.status@ is Custom),
        !(bead.status@ is Tombstone),
        !(bead.issue_type@ is Custom),
        0 <= bead.priority.0 <= 4,
        mapping::update_body(
            cfg,
            bead,
            field_pushes::field_set_of(diff::changes_of(bead, before)),
        ) matches Ok(body) && has_taken(cfg, body, before, after),
        0 <= k < diff::changes_of(bead, after).len(),
        diff::changes_of(bead, after)[k].direction is Push,
    ensures
        diff::changes_of(bead, after)[k].field is Labels,
{
    let changes = diff::changes_of(bead, before);
    let body = mapping::update_body(cfg, bead, field_pushes::field_set_of(changes))->Ok_0;
    let c = diff::changes_of(bead, after)[k];
    push_writes_what_the_bead_wins(cfg, bead, changes);
    diff::changes_are_real(bead, after, k);
    text::picked_comes_from(
        diff::compared_fields(),
        |f: Field| diff::change_of(bead, after, f),
        k,
    );
    bead_wins_where_told(bead, before, c.field);
    mapping::mapped_values_lead_back(cfg, bead);
    mapping::set_values_say_what_they_say(
        config::value_under(cfg.status_map, model::status_name(bead.status@))->0,
        bead.design,
    );
    mapping::set_values_say_what_they_say(
        config::value_under(cfg.type_map, model::issue_type_name(bead.issue_type@))->0,
        bead.acceptance_criteria,
    );
    mapping::set_values_say_what_they_say(
        config::value_under(cfg.priority_map, text::decimal(bead.priority.0 as int))->0,
        bead.notes,
    );
    mapping::set_values_say_what_they_say("State"@, bead.close_reason);
    match c.field {
        Field::Title => {},
        Field::Description => {},
        Field::State => {},
        Field::Type => {},
        Field::Priority => {},
        Field::Design => {},
        Field::AcceptanceCriteria => {},
        Field::Notes => {},
        Field::CloseReason => {},
        Field::Labels => {},
    }
}

proof fn bead_wins_where_told(bead: Issue, remote: RemoteIssueView, field: Field)
    ensures
        bead_wins(diff::changes_of(bead, remote), field) <==> diff::local_text(bead, field)
            != diff::remote_text(remote, field) && diff::winner(
            field,
            bead.updated_at,
            remote.updated,
        ) is Push,
        mirror_wins(diff::changes_of(bead, remote), field) <==> diff::local_text(bead, field)
            != diff::remote_text(remote, field) && diff::winner(
            field,
            bead.updated_at,
            remote.updated,
        ) is Pull,
{
    let changes = diff::changes_of(bead, remote);
    let f = |f: Field| diff::change_of(bead, remote, f);
    if diff::local_text(bead, field) != diff::remote_text(remote, field) {
        diff::every_difference_is_found(bead, remote, field);
        let want = diff::change_of(bead, remote, field)->0;
        let k = choose|k: int| 0 <= k < changes.len() && changes[k] == want;
        assert(changes[k].field == field);
    }
    if bead_wins(changes, field) {
        let k = choose|k: int|
            0 <= k < changes.len() && (#[trigger] changes[k]).field == field
                && changes[k].direction is Push;
        text::picked_comes_from(diff::compared_fields(), f, k);
    }
    if mirror_wins(changes, field) {
        let k = choose|k: int|
            0 <= k < changes.len() && (#[trigger] changes[k]).field == field
                && changes[k].direction is Pull;
        text::picked_comes_from(diff::compared_fields(), f, k);
    }
}

// ---------------------------------------------------------------------------
// Pulling
// ---------------------------------------------------------------------------

proof fn pulled_changes_are_won(p: IssueFieldPlanView, field: Field)
    ensures
        field_pulls::is_about(field_pulls::pulls_of(p), field) <==> mirror_wins(p.changes, field),
        field_pulls::pulls_of(p).len() > 0 <==> exists|k: int|
            0 <= k < p.changes.len() && (#[trigger] p.changes[k]).direction is Pull,
{
    let f = |v: FieldChangeView|
        if plan::covers(plan::PlanScope::Pull, <FieldChange as plan::Directed>::way(v)) {
            Some(v)
        } else {
            None
        };
    let pulls = field_pulls::pulls_of(p);
    about_is_there(pulls, field);
    if mirror_wins(p.changes, field) {
        let k = choose|k: int|
            0 <= k < p.changes.len() && (#[trigger] p.changes[k]).field == field
                && p.changes[k].direction is Pull;
        text::picked_holds(p.changes, f, k);
        let m = choose|m: int| 0 <= m < pulls.len() && pulls[m] == p.changes[k];
        assert(pulls[m].field == field);
    }
    if field_pulls::is_about(pulls, field) {
        let m = choose|m: int| 0 <= m < pulls.len() && (#[trigger] pulls[m]).field == field;
        text::picked_comes_from(p.changes, f, m);
        let k = choose|k: int| 0 <= k < p.changes.len() && f(#[trigger] p.changes[k]) == Some(
            pulls[m],
        );
        assert(p.changes[k].field == field && p.changes[k].direction is Pull);
    }
    if exists|k: int| 0 <= k < p.changes.len() && (#[trigger] p.changes[k]).direction is Pull {
        let k = choose|k: int|
            0 <= k < p.changes.len() && (#[trigger] p.changes[k]).direction is Pull;
        text::picked_holds(p.changes, f, k);
    }
    if pulls.len() > 0 {
        text::picked_comes_from(p.changes, f, 0);
        let k = choose|k: int| 0 <= k < p.changes.len() && f(#[trigger] p.changes[k]) == Some(
            pulls[0],
        );
        assert(p.changes[k].direction is Pull);
    }
}

proof fn about_is_there(changes: Seq<FieldChangeView>, field: Field)
    ensures
        field_pulls::is_about(changes, field) <==> exists|m: int|
            0 <= m < changes.len() && (#[trigger] changes[m]).field == field,
    decreases changes.len(),
{
    if changes.len() > 0 {
        let front = changes.drop_last();
        about_is_there(front, field);
        if exists|m: int| 0 <= m < front.len() && (#[trigger] front[m]).field == field {
            let m = choose|m: int| 0 <= m < front.len() && (#[trigger] front[m]).field == field;
            assert(changes[m].field == field);
        }
        if exists|m: int| 0 <= m < changes.len() && (#[trigger] changes[m]).field == field {
            let m = choose|m: int|
                0 <= m < changes.len() && (#[trigger] changes[m]).field == field;
            if m < front.len() {
                assert(front[m] == changes[m]);
            }
        }
        if changes.last().field == field {
            assert(changes[changes.len() - 1].field == field);
        }
    }
}

proof fn last_called_at(remote: Seq<RemoteIssueView>, id: Seq<char>, at: int)
    requires
        0 <= at < remote.len(),
        remote[at].id_readable == id,
        forall|j: int| at < j < remote.len() ==> (#[trigger] remote[j]).id_readable != id,
    ensures
        reconcile::last_called(remote, id) == Some(at),
    decreases remote.len(),
{
    if at < remote.len() - 1 {
        let front = remote.drop_last();
        assert(remote[remote.len() - 1].id_readable != id);
        assert forall|j: int| at < j < front.len() implies (#[trigger] front[j]).id_readable
            != id by {
            assert(front[j] == remote[j]);
        }
        last_called_at(front, id, at);
    }
}

/// A pair whose issue was fetched gets an update exactly where the mirror wins
/// something of it. The update is of the pair's bead, in the name of the
/// mirroring, with the fetched issue's own status where the mirror wins the
/// state, its own priority where the mirror wins the priority, and neither
/// where it does not. Of several issues of one identifier the last one counts.
pub proof fn pull_takes_what_the_mirror_wins(
    p: IssueFieldPlanView,
    remote: Seq<RemoteIssueView>,
    at: int,
)
    requires
        0 <= at < remote.len(),
        remote[at].id_readable == p.remote_id,
        forall|j: int| at < j < remote.len() ==> (#[trigger] remote[j]).id_readable != p.remote_id,
    ensures
        field_pulls::field_pull(p, remote) is Some <==> exists|k: int|
            0 <= k < p.changes.len() && (#[trigger] p.changes[k]).direction is Pull,
        field_pulls::field_pull(p, remote) matches Some(update) ==> {
            &&& update.bead_id == p.bead_id
            &&& update.actor == "br-remote"@
            &&& update.status == (if mirror_wins(p.changes, Field::State) {
                Some(remote[at].fields.status)
            } else {
                None
            })
            &&& update.priority == (if mirror_wins(p.changes, Field::Priority) {
                Some(remote[at].fields.priority)
            } else {
                None
            })
        },
{
    last_called_at(remote, p.remote_id, at);
    pulled_changes_are_won(p, Field::State);
    pulled_changes_are_won(p, Field::Priority);
}

/// A pair whose issue was not fetched gets no update.
pub proof fn unfetched_issue_is_not_pulled(p: IssueFieldPlanView, remote: Seq<RemoteIssueView>)
    requires
        forall|j: int| 0 <= j < remote.len() ==> (#[trigger] remote[j]).id_readable != p.remote_id,
    ensures
        field_pulls::field_pull(p, remote) is None,
{
    nothing_called(remote, p.remote_id);
}

proof fn nothing_called(remote: Seq<RemoteIssueView>, id: Seq<char>)
    requires
        forall|j: int| 0 <= j < remote.len() ==> (#[trigger] remote[j]).id_readable != id,
    ensures
        reconcile::last_called(remote, id) is None,
    decreases remote.len(),
{
    if remote.len() > 0 {
        let front = remote.drop_last();
        assert(remote[remote.len() - 1].id_readable != id);
        assert forall|j: int| 0 <= j < front.len() implies (#[trigger] front[j]).id_readable
            != id by {
            assert(front[j] == remote[j]);
        }
        nothing_called(front, id);
    }
}

/// A bead after an update was stored: its status and its priority are as the
/// update says, where it says something, and its other fields are as they
/// were. The clock never goes back.
pub open spec fn has_stored(update: FieldPullView, before: Issue, after: Issue) -> bool {
    &&& after.status@ == (match update.status {
        Some(status) => status,
        None => before.status@,
    })
    &&& after.priority == (match update.priority {
        Some(priority) => priority,
        None => before.priority,
    })
    &&& after.title == before.title
    &&& after.description == before.description
    &&& after.issue_type == before.issue_type
    &&& after.design == before.design
    &&& after.acceptance_criteria == before.acceptance_criteria
    &&& after.notes == before.notes
    &&& after.close_reason == before.close_reason
    &&& after.labels == before.labels
    &&& time::millis(after.updated_at) >= time::millis(before.updated_at)
}

/// Once the update of a pull is stored, the mirror wins nothing of the pair
/// any more: a second pull has nothing left to take over. And the bead then
/// says of the state and the priority what the mirror says, where the mirror
/// won them.
pub proof fn pulled_fields_are_settled(
    before: Issue,
    after: Issue,
    issue: RemoteIssue,
    bead_id: Seq<char>,
)
    requires
        field_pulls::field_pull(
            IssueFieldPlanView {
                bead_id,
                remote_id: issue.id_readable@,
                changes: diff::changes_of(before, issue@),
            },
            seq![issue@],
        ) matches Some(update) && has_stored(update, before, after),
    ensures
        forall|k: int|
            0 <= k < diff::changes_of(after, issue@).len() ==> (#[trigger] diff::changes_of(
                after,
                issue@,
            )[k]).direction is Push,
        mirror_wins(diff::changes_of(before, issue@), Field::State) ==> after.status@
            == issue.fields.status@,
        mirror_wins(diff::changes_of(before, issue@), Field::Priority) ==> after.priority
            == issue.fields.priority,
        !mirror_wins(diff::changes_of(before, issue@), Field::State) ==> after.status@
            == before.status@,
        !mirror_wins(diff::changes_of(before, issue@), Field::Priority) ==> after.priority
            == before.priority,
{
    let p = IssueFieldPlanView {
        bead_id,
        remote_id: issue.id_readable@,
        changes: diff::changes_of(before, issue@),
    };
    pull_takes_what_the_mirror_wins(p, seq![issue@], 0);
    let now = diff::changes_of(after, issue@);
    bead_wins_where_told(before, issue@, Field::State);
    bead_wins_where_told(before, issue@, Field::Priority);
    assert forall|k: int| 0 <= k < now.len() implies (#[trigger] now[k]).direction is Push by {
        text::picked_comes_from(
            diff::compared_fields(),
            |f: Field| diff::change_of(after, issue@, f),
            k,
        );
        diff::changes_are_real(after, issue@, k);
    }
}

/// The updates of a pull are those of the pairs of the plan, in its order: a
/// pair of which the mirror wins something, and whose issue was fetched, has
/// its update among them, and there are no others.
pub proof fn every_won_pair_is_pulled(
    plans: Seq<IssueFieldPlanView>,
    remote: Seq<RemoteIssueView>,
    i: int,
    at: int,
)
    requires
        0 <= i < plans.len(),
        exists|k: int|
            0 <= k < plans[i].changes.len() && (#[trigger] plans[i].changes[k]).direction is Pull,
        0 <= at < remote.len(),
        remote[at].id_readable == plans[i].remote_id,
        forall|j: int|
            at < j < remote.len() ==> (#[trigger] remote[j]).id_readable != plans[i].remote_id,
    ensures
        text::picked(
            plans,
            |p: IssueFieldPlanView| field_pulls::field_pull(p, remote),
        ).contains(
            (FieldPullView {
                bead_id: plans[i].bead_id,
                actor: "br-remote"@,
                status: if mirror_wins(plans[i].changes, Field::State) {
                    Some(remote[at].fields.status)
                } else {
                    None
                },
                priority: if mirror_wins(plans[i].changes, Field::Priority) {
                    Some(remote[at].fields.priority)
                } else {
                    None
                },
            }),
        ),
{
    pull_takes_what_the_mirror_wins(plans[i], remote, at);
    text::picked_holds(plans, |p: IssueFieldPlanView| field_pulls::field_pull(p, remote), i);
}

/// A pull reports every change of the state and the priority that the mirror
/// wins, with both values, and reports none but those.
pub proof fn pulled_fields_are_reported(
    p: IssueFieldPlanView,
    remote: Seq<RemoteIssueView>,
    k: int,
)
    requires
        exists|at: int| 0 <= at < remote.len() && (#[trigger] remote[at]).id_readable == p.remote_id,
        0 <= k < p.changes.len(),
        p.changes[k].direction is Pull,
    ensures
        p.changes[k].field is State ==> field_pulls::field_pull_lines(p, remote).contains(
            p.bead_id + ": "@ + "state"@ + " "@ + p.changes[k].local + " → "@ + p.changes[k].remote,
        ),
        p.changes[k].field is Priority ==> field_pulls::field_pull_lines(p, remote).contains(
            p.bead_id + ": "@ + "priority"@ + " "@ + p.changes[k].local + " → "@
                + p.changes[k].remote,
        ),
{
    something_called(remote, p.remote_id);
    pulled_changes_are_won(p, Field::State);
    let f = |v: FieldChangeView|
        if plan::covers(plan::PlanScope::Pull, <FieldChange as plan::Directed>::way(v)) {
            Some(v)
        } else {
            None
        };
    let g = |c: FieldChangeView|
        if c.field is State || c.field is Priority {
            Some(field_pulls::pull_text(p.bead_id, c))
        } else {
            None
        };
    let pulls = field_pulls::pulls_of(p);
    text::picked_holds(p.changes, f, k);
    let m = choose|m: int| 0 <= m < pulls.len() && pulls[m] == p.changes[k];
    if p.changes[k].field is State || p.changes[k].field is Priority {
        text::picked_holds(pulls, g, m);
    }
}

proof fn something_called(remote: Seq<RemoteIssueView>, id: Seq<char>)
    requires
        exists|at: int| 0 <= at < remote.len() && (#[trigger] remote[at]).id_readable == id,
    ensures
        reconcile::last_called(remote, id) is Some,
    decreases remote.len(),
{
    let at = choose|at: int| 0 <= at < remote.len() && (#[trigger] remote[at]).id_readable == id;
    if remote.last().id_readable != id {
        let front = remote.drop_last();
        assert(front[at].id_readable == id);
        something_called(front, id);
    }
}

} // verus!
