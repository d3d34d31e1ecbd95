//! Copying a bundle that others use, and the question that must be answered
//! first: whether the project is empty.
//!
//! The mirror counts issues in its own time and answers -1 until it has. A
//! count that never settles is unknown, and never nought.

use crate::json;
use crate::json::{entry, object_1, object_2, text_value, Json, JsonView};
use crate::remote::error::{RemoteError, RemoteErrorView};
use crate::remote::http;
use crate::remote::http::{backoff_factor, Request, RequestView};
use crate::remote::talk;
use crate::remote::talk::{Stop, StopView, Talk, TalkView, MOST_REPLIES};
use crate::remote::youtrack::admin;
use crate::remote::youtrack::admin::{
    read_listing, AdminClient, ProjectRef, ProjectRefView, PAGE_SIZE,
};
use crate::remote::youtrack::bundles;
use crate::remote::youtrack::bundles::{
    parse_bundle_values, BundleKind, BundleRef, BundleRefView, BundleValue, BundleValueView,
    ProjectFieldBundle, ProjectFieldBundleView,
};
use crate::text;
use crate::text::same_text;
use vstd::prelude::*;
use vstd::string::*;

verus! {

broadcast use {
    vstd::string::group_string_axioms,
    crate::json::array_view,
    crate::json::object_view,
};

/// How often the count is looked at.
pub const COUNT_POLL_ATTEMPTS: u32 = 6;

/// How long to wait before the second look, in nanoseconds.
pub const COUNT_POLL_BASE_DELAY: u64 = 200_000_000;

/// Whether a project has issues.
#[derive(Debug, Clone, Copy, PartialEq, Eq, Structural)]
pub enum Emptiness {
    Empty,
    HasIssues(u64),
    /// The count never settled.
    Unknown,
}

/// The request for the count of a project's issues.
pub open spec fn count_request(project: ProjectRefView) -> RequestView {
    http::post_of(
        "/api/issuesGetter/count?fields=count"@,
        JsonView::Object(seq![("query"@, JsonView::Text("project: "@ + project.short_name))]),
        "issue count"@,
    )
}

/// What one answer says of the count, where it has settled.
pub open spec fn settled_count(raw: JsonView) -> Option<Emptiness> {
    match json::number_at(raw, "count"@) {
        Some(n) => if n == 0 {
            Some(Emptiness::Empty)
        } else if n > 0 {
            Some(Emptiness::HasIssues(n as u64))
        } else {
            None
        },
        None => None,
    }
}

/// How long to wait before the zero-based `attempt`, in nanoseconds: not at
/// all before the first, then twice as long each time.
pub open spec fn count_pause(base: u64, attempt: int) -> u128 {
    if attempt <= 0 {
        0
    } else {
        (base * http::backoff((attempt - 1) as u32)) as u128
    }
}

/// The count from the zero-based `attempt` on.
pub open spec fn emptiness_from(project: ProjectRefView, base: u64, attempt: int, t: TalkView) -> (
    Result<Emptiness, StopView>,
    TalkView,
)
    decreases COUNT_POLL_ATTEMPTS - attempt,
{
    if attempt >= COUNT_POLL_ATTEMPTS {
        (Ok(Emptiness::Unknown), t)
    } else {
        match talk::asked(count_request(project), count_pause(base, attempt), t) {
            (Err(stop), after) => (Err(stop), after),
            (Ok(raw), after) => match settled_count(raw) {
                Some(e) => (Ok(e), after),
                None => emptiness_from(project, base, attempt + 1, after),
            },
        }
    }
}

/// Only an answer of nought makes a project empty.
pub proof fn empty_needs_a_count_of_nought(
    project: ProjectRefView,
    base: u64,
    attempt: int,
    t: TalkView,
)
    requires
        emptiness_from(project, base, attempt, t).0 == Ok::<Emptiness, StopView>(Emptiness::Empty),
    ensures
        exists|i: int|
            0 <= i < t.rest.len() && (#[trigger] t.rest[i]) is Ok && json::number_at(
                t.rest[i]->Ok_0,
                "count"@,
            ) == Some(0int),
    decreases COUNT_POLL_ATTEMPTS - attempt,
{
    let (_, after) = talk::asked(count_request(project), count_pause(base, attempt), t);
    let raw = t.rest[0]->Ok_0;
    match settled_count(raw) {
        Some(_) => {
            assert(t.rest[0] is Ok);
        },
        None => {
            empty_needs_a_count_of_nought(project, base, attempt + 1, after);
            let i = choose|i: int|
                0 <= i < after.rest.len() && (#[trigger] after.rest[i]) is Ok && json::number_at(
                    after.rest[i]->Ok_0,
                    "count"@,
                ) == Some(0int);
            assert(t.rest[i + 1] == after.rest[i]);
        },
    }
}

/// A value as the copy of its bundle holds it.
pub open spec fn value_copied(value: BundleValueView, kind: BundleKind) -> JsonView {
    JsonView::Object(
        seq![
            ("name"@, JsonView::Text(value.name)),
            ("ordinal"@, JsonView::Int(value.ordinal as int)),
            ("$type"@, JsonView::Text(bundles::element_class(kind))),
        ] + (if value.color is Null {
            Seq::empty()
        } else {
            seq![("color"@, value.color)]
        }) + (match value.is_resolved {
            Some(b) => seq![("isResolved"@, JsonView::Bool(b))],
            None => Seq::empty(),
        }),
    )
}

/// The request that copies a bundle under a new name, with all its values.
pub open spec fn clone_request(source: BundleRefView, new_name: Seq<char>) -> RequestView {
    http::post_of(
        "/api/admin/customFieldSettings/bundles/"@ + bundles::segment_of(source.kind)
            + "?fields=id,name"@,
        JsonView::Object(
            seq![
                ("name"@, JsonView::Text(new_name)),
                (
                    "values"@,
                    JsonView::Array(
                        source.values.map_values(
                            |v: BundleValueView| value_copied(v, source.kind),
                        ),
                    ),
                ),
            ],
        ),
        "bundle '"@ + new_name + "'"@,
    )
}

/// The copy of a bundle. The identifiers of its values are not known yet.
pub open spec fn cloned(source: BundleRefView, new_name: Seq<char>, t: TalkView) -> (
    Result<BundleRefView, StopView>,
    TalkView,
) {
    match talk::asked(clone_request(source, new_name), 0, t) {
        (Err(stop), after) => (Err(stop), after),
        (Ok(raw), after) => (
            Ok(
                BundleRefView {
                    id: json::text_or_empty(raw, "id"@),
                    name: new_name,
                    kind: source.kind,
                    values: Seq::empty(),
                },
            ),
            after,
        ),
    }
}

/// A bundle of a listing, or one that was read again.
pub open spec fn bundle_listed(kind: BundleKind, raw: JsonView) -> BundleRefView {
    BundleRefView {
        id: json::text_or_empty(raw, "id"@),
        name: json::text_or_empty(raw, "name"@),
        kind,
        values: bundles::values_read(json::member(raw, "values"@)),
    }
}

/// Where the bundles of a kind are listed.
pub open spec fn bundle_list_path(kind: BundleKind) -> Seq<char> {
    "/api/admin/customFieldSettings/bundles/"@ + bundles::segment_of(kind)
        + "?fields=id,name,values(id,name)"@
}

/// Every bundle of a kind.
pub open spec fn bundles_listed(kind: BundleKind, t: TalkView) -> (
    Result<Seq<BundleRefView>, StopView>,
    TalkView,
) {
    match admin::listed(bundle_list_path(kind), "bundle list"@, PAGE_SIZE, t) {
        (Ok(items), after) => (
            Ok(items.map_values(|raw: JsonView| bundle_listed(kind, raw))),
            after,
        ),
        (Err(stop), after) => (Err(stop), after),
    }
}

/// The request for a bundle with its values.
pub open spec fn bundle_request(bundle: BundleRefView) -> RequestView {
    http::get_of(
        "/api/admin/customFieldSettings/bundles/"@ + bundles::segment_of(bundle.kind) + "/"@
            + bundle.id
            + "?fields=id,name,values(id,name,ordinal,color(id,background,foreground),isResolved)"@,
        "bundle values"@,
    )
}

/// A bundle as it is now.
pub open spec fn bundle_again(bundle: BundleRefView, t: TalkView) -> (
    Result<BundleRefView, StopView>,
    TalkView,
) {
    match talk::asked(bundle_request(bundle), 0, t) {
        (Err(stop), after) => (Err(stop), after),
        (Ok(raw), after) => (Ok(bundle_listed(bundle.kind, raw)), after),
    }
}

/// The class of a project's field by the kind of its bundle.
pub open spec fn field_class(kind: BundleKind) -> Seq<char> {
    match kind {
        BundleKind::Enum => "EnumProjectCustomField"@,
        BundleKind::State => "StateProjectCustomField"@,
    }
}

/// The request that gives a field of a project another bundle.
pub open spec fn repoint_request(
    field: ProjectFieldBundleView,
    project: ProjectRefView,
    bundle: BundleRefView,
) -> RequestView {
    http::post_of(
        "/api/admin/projects/"@ + project.id + "/customFields/"@ + field.instance_id
            + "?fields=id,bundle(id,name)"@,
        JsonView::Object(
            seq![
                (
                    "bundle"@,
                    JsonView::Object(
                        seq![
                            ("id"@, JsonView::Text(bundle.id)),
                            ("$type"@, JsonView::Text(bundles::bundle_class(bundle.kind))),
                        ],
                    ),
                ),
                ("$type"@, JsonView::Text(field_class(bundle.kind))),
            ],
        ),
        "re-point '"@ + field.field_name + "'"@,
    )
}

/// The first value with the name.
pub open spec fn value_called(values: Seq<BundleValueView>, name: Seq<char>) -> Option<
    BundleValueView,
>
    decreases values.len(),
{
    if values.len() == 0 {
        None
    } else if values[0].name == name {
        Some(values[0])
    } else {
        value_called(values.drop_first(), name)
    }
}

/// The refusal of a default that the bundle does not have.
pub open spec fn no_such_default(bundle: BundleRefView, name: Seq<char>) -> RemoteErrorView {
    RemoteErrorView::Config(
        "cannot set the default to '"@ + name + "': the bundle '"@ + bundle.name
            + "' has no such value"@,
    )
}

/// The named values by their identifiers, or the refusal of the first name
/// that the bundle does not have. The mirror takes no names here.
pub open spec fn defaults_by_id(bundle: BundleRefView, names: Seq<Seq<char>>) -> Result<
    Seq<JsonView>,
    RemoteErrorView,
>
    decreases names.len(),
{
    if names.len() == 0 {
        Ok(Seq::empty())
    } else {
        match defaults_by_id(bundle, names.drop_last()) {
            Err(e) => Err(e),
            Ok(front) => match value_called(bundle.values, names.last()) {
                None => Err(no_such_default(bundle, names.last())),
                Some(v) => Ok(
                    front.push(
                        JsonView::Object(
                            seq![
                                ("id"@, JsonView::Text(v.id)),
                                (
                                    "$type"@,
                                    JsonView::Text(bundles::element_class(bundle.kind)),
                                ),
                            ],
                        ),
                    ),
                ),
            },
        }
    }
}

/// The request that sets the defaults of a project's field.
pub open spec fn defaults_request(
    project: ProjectRefView,
    instance_id: Seq<char>,
    field_type: Seq<char>,
    defaults: Seq<JsonView>,
) -> RequestView {
    http::post_of(
        "/api/admin/projects/"@ + project.id + "/customFields/"@ + instance_id
            + "?fields=field(name),defaultValues(id,name)"@,
        JsonView::Object(
            seq![
                ("defaultValues"@, JsonView::Array(defaults)),
                ("$type"@, JsonView::Text(field_type)),
            ],
        ),
        "project default values"@,
    )
}

/// The setting of the defaults: a name that the bundle does not have is
/// refused before anything is sent.
pub open spec fn defaults_set(
    project: ProjectRefView,
    instance_id: Seq<char>,
    field_type: Seq<char>,
    bundle: BundleRefView,
    names: Seq<Seq<char>>,
    t: TalkView,
) -> (Result<(), StopView>, TalkView) {
    match defaults_by_id(bundle, names) {
        Err(e) => (Err(StopView::Fail(e)), t),
        Ok(defaults) => done(
            talk::asked(defaults_request(project, instance_id, field_type, defaults), 0, t),
        ),
    }
}

/// The outcome of a write of which only its success counts.
pub open spec fn done(step: (Result<JsonView, StopView>, TalkView)) -> (
    Result<(), StopView>,
    TalkView,
) {
    match step {
        (Ok(_), after) => (Ok(()), after),
        (Err(stop), after) => (Err(stop), after),
    }
}

/// The class of a project's field by the kind of its bundle.
pub fn project_field_type(kind: BundleKind) -> (r: &'static str)
    ensures
        r@ == field_class(kind),
{
    match kind {
        BundleKind::Enum => "EnumProjectCustomField",
        BundleKind::State => "StateProjectCustomField",
    }
}

fn value_body(value: &BundleValue, kind: BundleKind) -> (r: Json)
    ensures
        r@ == value_copied(value@, kind),
{
    let mut entries: Vec<(String, Json)> = Vec::new();
    entries.push(entry("name", text_value(value.name.as_str())));
    entries.push(entry("ordinal", Json::Int(value.ordinal as i128)));
    entries.push(entry("$type", text_value(kind.element_type())));
    if !matches!(value.color, Json::Null) {
        entries.push(entry("color", value.color.copy()));
    }
    if let Some(b) = value.is_resolved {
        entries.push(entry("isResolved", Json::Bool(b)));
    }
    let body = Json::Object(entries);
    assert(body@->Object_0 =~= value_copied(value@, kind)->Object_0);
    body
}

fn bundle_from(kind: BundleKind, raw: &Json) -> (r: BundleRef)
    ensures
        r@ == bundle_listed(kind, raw@),
{
    BundleRef {
        id: raw.text_or_empty("id").to_owned(),
        name: raw.text_or_empty("name").to_owned(),
        kind,
        values: parse_bundle_values(raw.get("values")),
    }
}

fn find_value<'a>(values: &'a Vec<BundleValue>, name: &str) -> (r: Option<&'a BundleValue>)
    ensures
        text::seen(r) == value_called(text::views(values@), name@),
{
    let ghost all = text::views(values@);
    let mut i: usize = 0;
    assert(all.skip(0) =~= all);
    while i < values.len()
        invariant
            i <= values@.len(),
            all == text::views(values@),
            value_called(all, name@) == value_called(all.skip(i as int), name@),
        decreases values@.len() - i,
    {
        assert(all.skip(i as int)[0] == values@[i as int]@);
        assert(all.skip(i as int).drop_first() =~= all.skip(i + 1));
        if same_text(values[i].name.as_str(), name) {
            return Some(&values[i]);
        }
        i += 1;
    }
    None
}

proof fn default_refusal_stays(bundle: BundleRefView, names: Seq<Seq<char>>, n: int)
    requires
        0 <= n <= names.len(),
        defaults_by_id(bundle, names.take(n)) is Err,
    ensures
        defaults_by_id(bundle, names) == defaults_by_id(bundle, names.take(n)),
    decreases names.len(),
{
    if n < names.len() {
        assert(names.drop_last().take(n) =~= names.take(n));
        default_refusal_stays(bundle, names.drop_last(), n);
    } else {
        assert(names.take(n) =~= names);
    }
}

fn default_ids(bundle: &BundleRef, names: &Vec<String>) -> (r: Result<Vec<Json>, RemoteError>)
    ensures
        (match r {
            Ok(list) => Ok(text::views(list@)),
            Err(e) => Err(e@),
        }) == defaults_by_id(bundle@, text::views(names@)),
{
    let ghost all = text::views(names@);
    let mut out: Vec<Json> = Vec::new();
    let mut i: usize = 0;
    assert(text::views(out@) =~= Seq::<JsonView>::empty());
    assert(all.take(0).len() == 0);
    while i < names.len()
        invariant
            i <= names@.len(),
            all == text::views(names@),
            defaults_by_id(bundle@, all.take(i as int)) == Ok::<Seq<JsonView>, RemoteErrorView>(
                text::views(out@),
            ),
        decreases names@.len() - i,
    {
        proof {
            assert(all.take(i + 1).drop_last() =~= all.take(i as int));
            assert(all.take(i + 1).last() == names@[i as int]@);
        }
        match find_value(&bundle.values, names[i].as_str()) {
            Some(value) => {
                let one = object_2(
                    entry("id", text_value(value.id.as_str())),
                    entry("$type", text_value(bundle.kind.element_type())),
                );
                proof {
                    text::views_push(out@, one);
                }
                out.push(one);
            },
            None => {
                let mut why = "cannot set the default to '".to_owned();
                why.append(names[i].as_str());
                why.append("': the bundle '");
                why.append(bundle.name.as_str());
                why.append("' has no such value");
                proof {
                    default_refusal_stays(bundle@, all, i + 1);
                }
                return Err(RemoteError::Config(why));
            },
        }
        i += 1;
    }
    assert(all.take(i as int) =~= all);
    Ok(out)
}

impl AdminClient {
    /// Whether the project has any issue. The count is looked at a few times,
    /// with growing pauses; it changes nothing on the mirror.
    pub fn project_is_empty(&self, talk: &mut Talk, project: &ProjectRef) -> (r: Result<
        Emptiness,
        Stop,
    >)
        ensures
            (match r {
                Ok(e) => Ok(e),
                Err(stop) => Err(stop@),
            }, final(talk)@) == emptiness_from(
                project@,
                self@.count_poll_base_delay,
                0,
                old(talk)@,
            ),
            final(talk)@.rest.len() <= old(talk)@.rest.len(),
    {
        let base: u64 = self.count_poll_base_delay();
        let ghost start = talk@;
        let mut attempt: u32 = 0;
        while attempt < COUNT_POLL_ATTEMPTS
            invariant
                attempt <= COUNT_POLL_ATTEMPTS,
                start == old(talk)@,
                base == self@.count_poll_base_delay,
                talk@.rest.len() <= start.rest.len(),
                emptiness_from(project@, base, 0, start) == emptiness_from(
                    project@,
                    base,
                    attempt as int,
                    talk@,
                ),
            decreases COUNT_POLL_ATTEMPTS - attempt,
        {
            let mut query = "project: ".to_owned();
            query.append(project.short_name.as_str());
            let request = Request::post(
                "/api/issuesGetter/count?fields=count".to_owned(),
                object_1(entry("query", text_value(query.as_str()))),
                "issue count",
            );
            assert(request@.body->0->Object_0 =~= count_request(project@).body->0->Object_0);
            let pause: u128 = if attempt == 0 {
                0
            } else {
                pause_before(base, attempt - 1)
            };
            let raw = match talk.ask(request, pause) {
                Ok(raw) => raw,
                Err(stop) => {
                    return Err(stop);
                },
            };
            if let Some(v) = raw.get("count") {
                if let Some(n) = v.as_i64() {
                    if n == 0 {
                        return Ok(Emptiness::Empty);
                    }
                    if n > 0 {
                        return Ok(Emptiness::HasIssues(n as u64));
                    }
                }
            }
            attempt += 1;
        }
        Ok(Emptiness::Unknown)
    }

    /// Copies a bundle under a new name, with all its values.
    pub fn clone_bundle(&self, talk: &mut Talk, source: &BundleRef, new_name: &str) -> (r: Result<
        BundleRef,
        Stop,
    >)
        ensures
            (talk::seen_step(r), final(talk)@) == cloned(source@, new_name@, old(talk)@),
            final(talk)@.rest.len() <= old(talk)@.rest.len(),
    {
        let ghost all = text::views(source.values@);
        let ghost want = all.map_values(|v: BundleValueView| value_copied(v, source.kind));
        let mut values: Vec<Json> = Vec::new();
        let mut i: usize = 0;
        assert(text::views(values@) =~= want.take(0));
        while i < source.values.len()
            invariant
                i <= source.values@.len(),
                all == text::views(source.values@),
                want == all.map_values(|v: BundleValueView| value_copied(v, source.kind)),
                text::views(values@) == want.take(i as int),
            decreases source.values@.len() - i,
        {
            let one = value_body(&source.values[i], source.kind);
            proof {
                text::views_push(values@, one);
                assert(want.take(i + 1) =~= want.take(i as int).push(one@));
            }
            values.push(one);
            i += 1;
        }
        assert(want.take(i as int) =~= want);
        let body = object_2(
            entry("name", text_value(new_name)),
            entry("values", Json::Array(values)),
        );
        let mut path = "/api/admin/customFieldSettings/bundles/".to_owned();
        path.append(source.kind.segment());
        path.append("?fields=id,name");
        let mut entity = "bundle '".to_owned();
        entity.append(new_name);
        entity.append("'");
        let request = Request::post(path, body, entity.as_str());
        assert(request@.body->0->Object_0 =~= clone_request(
            source@,
            new_name@,
        ).body->0->Object_0);
        let created = match talk.ask(request, 0) {
            Ok(created) => created,
            Err(stop) => {
                return Err(stop);
            },
        };
        let copy = BundleRef {
            id: created.text_or_empty("id").to_owned(),
            name: new_name.to_owned(),
            kind: source.kind,
            values: Vec::new(),
        };
        assert(copy@.values =~= Seq::empty());
        Ok(copy)
    }

    /// Every bundle of a kind, with its values by name.
    pub fn list_bundles(&self, talk: &mut Talk, kind: BundleKind) -> (r: Result<
        Vec<BundleRef>,
        Stop,
    >)
        requires
            old(talk)@.rest.len() <= MOST_REPLIES,
        ensures
            (match r {
                Ok(list) => Ok(text::views(list@)),
                Err(stop) => Err(stop@),
            }, final(talk)@) == bundles_listed(kind, old(talk)@),
            final(talk)@.rest.len() <= old(talk)@.rest.len(),
    {
        let mut path = "/api/admin/customFieldSettings/bundles/".to_owned();
        path.append(kind.segment());
        path.append("?fields=id,name,values(id,name)");
        let items = match read_listing(talk, path.as_str(), "bundle list", PAGE_SIZE) {
            Ok(items) => items,
            Err(stop) => {
                return Err(stop);
            },
        };
        let ghost want = text::views(items@).map_values(|raw: JsonView| bundle_listed(kind, raw));
        let mut out: Vec<BundleRef> = Vec::new();
        let mut i: usize = 0;
        assert(text::views(out@) =~= want.take(0));
        while i < items.len()
            invariant
                i <= items@.len(),
                want == text::views(items@).map_values(
                    |raw: JsonView| bundle_listed(kind, raw),
                ),
                text::views(out@) == want.take(i as int),
            decreases items@.len() - i,
        {
            let one = bundle_from(kind, items[i]);
            proof {
                text::views_push(out@, one);
                assert(want.take(i + 1) =~= want.take(i as int).push(one@));
            }
            out.push(one);
            i += 1;
        }
        assert(want.take(i as int) =~= want);
        Ok(out)
    }

    /// Reads a bundle again, so that the identifiers of its values are known.
    pub fn read_bundle(&self, talk: &mut Talk, bundle: &BundleRef) -> (r: Result<BundleRef, Stop>)
        ensures
            (talk::seen_step(r), final(talk)@) == bundle_again(bundle@, old(talk)@),
            final(talk)@.rest.len() <= old(talk)@.rest.len(),
    {
        let mut path = "/api/admin/customFieldSettings/bundles/".to_owned();
        path.append(bundle.kind.segment());
        path.append("/");
        path.append(bundle.id.as_str());
        path.append(
            "?fields=id,name,values(id,name,ordinal,color(id,background,foreground),isResolved)",
        );
        match talk.ask(Request::get(path, "bundle values"), 0) {
            Ok(raw) => Ok(bundle_from(bundle.kind, raw)),
            Err(stop) => Err(stop),
        }
    }

    /// Gives a field of the project another bundle.
    pub fn repoint_field_bundle(
        &self,
        talk: &mut Talk,
        field: &ProjectFieldBundle,
        project: &ProjectRef,
        bundle: &BundleRef,
    ) -> (r: Result<(), Stop>)
        ensures
            (talk::seen_done(r), final(talk)@) == done(
                talk::asked(repoint_request(field@, project@, bundle@), 0, old(talk)@),
            ),
            final(talk)@.rest.len() <= old(talk)@.rest.len(),
    {
        let mut path = "/api/admin/projects/".to_owned();
        path.append(project.id.as_str());
        path.append("/customFields/");
        path.append(field.instance_id.as_str());
        path.append("?fields=id,bundle(id,name)");
        let body = object_2(
            entry(
                "bundle",
                object_2(
                    entry("id", text_value(bundle.id.as_str())),
                    entry("$type", text_value(bundle.kind.bundle_type())),
                ),
            ),
            entry("$type", text_value(project_field_type(bundle.kind))),
        );
        let mut entity = "re-point '".to_owned();
        entity.append(field.field_name.as_str());
        entity.append("'");
        let request = Request::post(path, body, entity.as_str());
        assert(request@.body->0->Object_0 =~= repoint_request(
            field@,
            project@,
            bundle@,
        ).body->0->Object_0);
        match talk.ask(request, 0) {
            Ok(_) => Ok(()),
            Err(stop) => Err(stop),
        }
    }

    /// Sets the defaults of a project's field to the named values of its
    /// bundle.
    pub fn set_default_values(
        &self,
        talk: &mut Talk,
        project: &ProjectRef,
        instance_id: &str,
        field_type: &str,
        bundle: &BundleRef,
        names: &Vec<String>,
    ) -> (r: Result<(), Stop>)
        ensures
            (talk::seen_done(r), final(talk)@) == defaults_set(
                project@,
                instance_id@,
                field_type@,
                bundle@,
                text::views(names@),
                old(talk)@,
            ),
            final(talk)@.rest.len() <= old(talk)@.rest.len(),
    {
        let defaults = match default_ids(bundle, names) {
            Ok(defaults) => defaults,
            Err(e) => {
                return Err(Stop::Fail(e));
            },
        };
        let ghost listed = text::views(defaults@);
        let mut path = "/api/admin/projects/".to_owned();
        path.append(project.id.as_str());
        path.append("/customFields/");
        path.append(instance_id);
        path.append("?fields=field(name),defaultValues(id,name)");
        let body = object_2(
            entry("defaultValues", Json::Array(defaults)),
            entry("$type", text_value(field_type)),
        );
        let request = Request::post(path, body, "project default values");
        assert(request@.body->0->Object_0 =~= defaults_request(
            project@,
            instance_id@,
            field_type@,
            listed,
        ).body->0->Object_0);
        match talk.ask(request, 0) {
            Ok(_) => Ok(()),
            Err(stop) => Err(stop),
        }
    }
}

fn pause_before(base: u64, doublings: u32) -> (r: u128)
    ensures
        r == base * http::backoff(doublings),
{
    let factor: u32 = backoff_factor(doublings);
    proof {
        assert(base * factor <= u64::MAX * u32::MAX) by (nonlinear_arith)
            requires
                base <= u64::MAX,
                factor <= u32::MAX,
        ;
        assert(0 <= base * factor) by (nonlinear_arith)
            requires
                0 <= base,
                0 <= factor,
        ;
    }
    (base as u128) * (factor as u128)
}

} // verus!
