//! The fields that a project of the mirror needs.
//!
//! A field's prototype belongs to the whole instance; only its attachment
//! belongs to a project. So whoever creates a prototype changes what every
//! project's administration shows.

use crate::json;
use crate::json::{entry, object_1, object_2, object_3, text_value, Json, JsonView};
use crate::remote::error::{RemoteError, RemoteErrorView};
use crate::remote::http;
use crate::remote::http::{HttpClient, HttpClientView, Request, RequestView};
use crate::remote::talk;
use crate::remote::talk::{Stop, StopView, Talk, TalkView, MOST_REPLIES};
use crate::remote::youtrack::clone::COUNT_POLL_BASE_DELAY;
use crate::text;
use crate::text::{decimal_of, same_text};
use vstd::prelude::*;
use vstd::string::*;

verus! {

broadcast use vstd::string::group_string_axioms;

/// The fields of prose. They are of the type that keeps paragraphs apart.
pub const PROSE_FIELDS: [&'static str; 4] = ["Design", "Acceptance Criteria", "Notes", "Close Reason"];

/// The field that tells a human which bead an issue mirrors.
pub const BEADS_ID_FIELD: &'static str = "Beads ID";

/// Every field that is provided, with its type, in the order of creation.
pub const ALL_FIELDS: [(&'static str, &'static str); 5] = [
    ("Beads ID", "string"),
    ("Design", "text"),
    ("Acceptance Criteria", "text"),
    ("Notes", "text"),
    ("Close Reason", "text"),
];

/// Where the prototypes are listed.
pub const FIELD_LIST_PATH: &'static str =
    "/api/admin/customFieldSettings/customFields?fields=id,name,fieldType(id)";

/// Where a prototype is created.
pub const FIELD_CREATE_PATH: &'static str =
    "/api/admin/customFieldSettings/customFields?fields=id,name,fieldType(id)";

/// Where the projects are listed.
pub const PROJECT_LIST_PATH: &'static str = "/api/admin/projects?fields=id,name,shortName";

/// How many items a page of a listing holds.
pub const PAGE_SIZE: u32 = 500;

/// A project of the mirror.
#[derive(Debug, Clone, PartialEq, Eq)]
pub struct ProjectRef {
    pub id: String,
    pub short_name: String,
    pub name: String,
}

/// What contracts say of a [`ProjectRef`].
pub struct ProjectRefView {
    pub id: Seq<char>,
    pub short_name: Seq<char>,
    pub name: Seq<char>,
}

impl View for ProjectRef {
    type V = ProjectRefView;

    open spec fn view(&self) -> ProjectRefView {
        ProjectRefView {
            id: self.id@,
            short_name: self.short_name@,
            name: self.name@,
        }
    }
}

/// A field's prototype.
#[derive(Debug, Clone, PartialEq, Eq)]
pub struct FieldRef {
    pub id: String,
    pub name: String,
    pub field_type: String,
}

/// What contracts say of a [`FieldRef`].
pub struct FieldRefView {
    pub id: Seq<char>,
    pub name: Seq<char>,
    pub field_type: Seq<char>,
}

impl View for FieldRef {
    type V = FieldRefView;

    open spec fn view(&self) -> FieldRefView {
        FieldRefView {
            id: self.id@,
            name: self.name@,
            field_type: self.field_type@,
        }
    }
}

impl ProjectRef {
    /// An equal project.
    pub fn copy(&self) -> (r: ProjectRef)
        ensures
            r@ == self@,
    {
        ProjectRef {
            id: self.id.clone(),
            short_name: self.short_name.clone(),
            name: self.name.clone(),
        }
    }
}

impl FieldRef {
    /// An equal prototype.
    pub fn copy(&self) -> (r: FieldRef)
        ensures
            r@ == self@,
    {
        FieldRef {
            id: self.id.clone(),
            name: self.name.clone(),
            field_type: self.field_type.clone(),
        }
    }
}

// ---------------------------------------------------------------------------
// Listings, page by page
// ---------------------------------------------------------------------------

/// The request for the page of a listing that starts at `skip`.
pub open spec fn page_request(base: Seq<char>, entity: Seq<char>, size: u32, skip: int) -> RequestView {
    http::get_of(
        base + "&$skip="@ + text::decimal(skip) + "&$top="@ + text::decimal(size as int),
        entity,
    )
}

/// The items of a listing from `skip` on: those of one page after the other,
/// until a page is not full.
pub open spec fn listed_from(
    base: Seq<char>,
    entity: Seq<char>,
    size: u32,
    skip: int,
    t: TalkView,
) -> (Result<Seq<JsonView>, StopView>, TalkView)
    decreases t.rest.len(),
{
    match talk::asked(page_request(base, entity, size, skip), 0, t) {
        (Err(stop), after) => (Err(stop), after),
        (Ok(raw), after) => {
            let page = json::items_of(Some(raw));
            if page.len() < size {
                (Ok(page), after)
            } else {
                match listed_from(base, entity, size, skip + size, after) {
                    (Ok(more), end) => (Ok(page + more), end),
                    (Err(stop), end) => (Err(stop), end),
                }
            }
        },
    }
}

/// All items of a listing.
pub open spec fn listed(base: Seq<char>, entity: Seq<char>, size: u32, t: TalkView) -> (
    Result<Seq<JsonView>, StopView>,
    TalkView,
) {
    listed_from(base, entity, size, 0, t)
}

fn page_of(base: &str, entity: &str, size: u32, skip: u32) -> (r: Request)
    ensures
        r@ == page_request(base@, entity@, size, skip as int),
{
    let from = decimal_of(skip as u64);
    let top = decimal_of(size as u64);
    let mut path = base.to_owned();
    path.append("&$skip=");
    path.append(from.as_str());
    path.append("&$top=");
    path.append(top.as_str());
    Request::get(path, entity)
}

/// Reads all items of a listing.
pub fn read_listing<'a>(talk: &mut Talk<'a>, base: &str, entity: &str, size: u32) -> (r: Result<
    Vec<&'a Json>,
    Stop,
>)
    requires
        0 < size <= 1000,
        old(talk)@.rest.len() <= MOST_REPLIES,
    ensures
        (match r {
            Ok(items) => Ok(text::views(items@)),
            Err(stop) => Err(stop@),
        }, final(talk)@) == listed(base@, entity@, size, old(talk)@),
        final(talk)@.rest.len() <= old(talk)@.rest.len(),
{
    let ghost start = talk@;
    let ghost whole = listed(base@, entity@, size, start);
    let mut out: Vec<&'a Json> = Vec::new();
    let mut skip: u32 = 0;
    proof {
        assert(text::views(out@) =~= Seq::<JsonView>::empty());
        if whole.0 is Ok {
            assert(text::views(out@) + whole.0->Ok_0 =~= whole.0->Ok_0);
        }
    }
    loop
        invariant
            0 < size <= 1000,
            start == old(talk)@,
            whole == listed(base@, entity@, size, start),
            start.rest.len() <= MOST_REPLIES,
            talk@.rest.len() <= start.rest.len(),
            skip <= (start.rest.len() - talk@.rest.len()) * 1000,
            whole == (match listed_from(base@, entity@, size, skip as int, talk@) {
                (Ok(more), end) => (Ok(text::views(out@) + more), end),
                (Err(stop), end) => (Err(stop), end),
            }),
        decreases talk@.rest.len(),
    {
        let ghost before = talk@;
        let ghost had = text::views(out@);
        let raw = match talk.ask(page_of(base, entity, size, skip), 0) {
            Ok(raw) => raw,
            Err(stop) => {
                return Err(stop);
            },
        };
        let page: &'a [Json] = raw.items();
        let ghost items = text::views(page@);
        let mut i: usize = 0;
        assert(had + items.take(0) =~= had);
        while i < page.len()
            invariant
                i <= page@.len(),
                items == text::views(page@),
                text::views(out@) == had + items.take(i as int),
            decreases page@.len() - i,
        {
            let item: &'a Json = &page[i];
            proof {
                text::views_push(out@, item);
                assert(had + items.take(i + 1) =~= (had + items.take(i as int)).push(item@));
            }
            out.push(item);
            i += 1;
        }
        assert(items.take(i as int) =~= items);
        assert(items.len() == page@.len());
        if (page.len() as u64) < size as u64 {
            return Ok(out);
        }
        proof {
            assert(talk@.rest.len() == before.rest.len() - 1);
            match listed_from(base@, entity@, size, skip + size, talk@) {
                (Ok(more), _) => {
                    assert(had + (items + more) =~= (had + items) + more);
                },
                _ => {},
            }
        }
        skip = skip + size;
    }
}

// ---------------------------------------------------------------------------
// The project
// ---------------------------------------------------------------------------

/// The first project of a page with the short name.
pub open spec fn project_in(page: Seq<JsonView>, short_name: Seq<char>) -> Option<ProjectRefView>
    decreases page.len(),
{
    if page.len() == 0 {
        None
    } else if json::text_or_empty(page[0], "shortName"@) == short_name {
        Some(
            ProjectRefView {
                id: json::text_or_empty(page[0], "id"@),
                short_name,
                name: json::text_or_empty(page[0], "name"@),
            },
        )
    } else {
        project_in(page.drop_first(), short_name)
    }
}

/// The refusal of a project that cannot be seen.
pub open spec fn no_such_project(short_name: Seq<char>) -> RemoteErrorView {
    RemoteErrorView::Config(
        "no project with short name '"@ + short_name + "' is visible to this token"@,
    )
}

/// The project with the short name: the listing is read up to the page that
/// has it.
pub open spec fn project_from(short_name: Seq<char>, skip: int, t: TalkView) -> (
    Result<ProjectRefView, StopView>,
    TalkView,
)
    decreases t.rest.len(),
{
    match talk::asked(page_request(PROJECT_LIST_PATH@, "project list"@, PAGE_SIZE, skip), 0, t) {
        (Err(stop), after) => (Err(stop), after),
        (Ok(raw), after) => {
            let page = json::items_of(Some(raw));
            match project_in(page, short_name) {
                Some(project) => (Ok(project), after),
                None => if page.len() < PAGE_SIZE {
                    (Err(StopView::Fail(no_such_project(short_name))), after)
                } else {
                    project_from(short_name, skip + PAGE_SIZE, after)
                },
            }
        },
    }
}

fn find_project(page: &[Json], short_name: &str) -> (r: Option<ProjectRef>)
    ensures
        text::seen(r) == project_in(text::views(page@), short_name@),
{
    let ghost all = text::views(page@);
    let mut i: usize = 0;
    assert(all.skip(0) =~= all);
    while i < page.len()
        invariant
            i <= page@.len(),
            all == text::views(page@),
            project_in(all, short_name@) == project_in(all.skip(i as int), short_name@),
        decreases page@.len() - i,
    {
        assert(all.skip(i as int)[0] == page@[i as int]@);
        assert(all.skip(i as int).drop_first() =~= all.skip(i + 1));
        if same_text(page[i].text_or_empty("shortName"), short_name) {
            return Some(
                ProjectRef {
                    id: page[i].text_or_empty("id").to_owned(),
                    short_name: short_name.to_owned(),
                    name: page[i].text_or_empty("name").to_owned(),
                },
            );
        }
        i += 1;
    }
    None
}

/// Finds the project by its short name, page by page.
pub fn resolve_project_by_short_name(talk: &mut Talk, short_name: &str) -> (r: Result<
    ProjectRef,
    Stop,
>)
    requires
        old(talk)@.rest.len() <= MOST_REPLIES,
    ensures
        (talk::seen_step(r), final(talk)@) == project_from(short_name@, 0, old(talk)@),
        final(talk)@.rest.len() <= old(talk)@.rest.len(),
{
    let ghost start = talk@;
    let mut skip: u32 = 0;
    loop
        invariant
            start == old(talk)@,
            start.rest.len() <= MOST_REPLIES,
            talk@.rest.len() <= start.rest.len(),
            skip <= (start.rest.len() - talk@.rest.len()) * 1000,
            project_from(short_name@, 0, start) == project_from(short_name@, skip as int, talk@),
        decreases talk@.rest.len(),
    {
        let ghost before = talk@;
        let raw = match talk.ask(page_of(PROJECT_LIST_PATH, "project list", PAGE_SIZE, skip), 0) {
            Ok(raw) => raw,
            Err(stop) => {
                return Err(stop);
            },
        };
        let page = raw.items();
        if let Some(project) = find_project(page, short_name) {
            return Ok(project);
        }
        assert(text::views(page@).len() == page@.len());
        if (page.len() as u64) < PAGE_SIZE as u64 {
            let mut out = "no project with short name '".to_owned();
            out.append(short_name);
            out.append("' is visible to this token");
            return Err(Stop::Fail(RemoteError::Config(out)));
        }
        assert(talk@.rest.len() == before.rest.len() - 1);
        skip = skip + PAGE_SIZE;
    }
}

// ---------------------------------------------------------------------------
// The fields
// ---------------------------------------------------------------------------

/// A prototype of a listing.
pub open spec fn field_read(raw: JsonView) -> FieldRefView {
    FieldRefView {
        id: json::text_or_empty(raw, "id"@),
        name: json::text_or_empty(raw, "name"@),
        field_type: match json::member(raw, "fieldType"@) {
            Some(t) => json::text_or_empty(t, "id"@),
            None => Seq::empty(),
        },
    }
}

/// Every prototype of the instance.
pub open spec fn prototypes(t: TalkView) -> (Result<Seq<FieldRefView>, StopView>, TalkView) {
    match listed(FIELD_LIST_PATH@, "custom field list"@, PAGE_SIZE, t) {
        (Ok(items), after) => (Ok(items.map_values(|raw: JsonView| field_read(raw))), after),
        (Err(stop), after) => (Err(stop), after),
    }
}

/// The first prototype with the name.
pub open spec fn field_called(fields: Seq<FieldRefView>, name: Seq<char>) -> Option<FieldRefView>
    decreases fields.len(),
{
    if fields.len() == 0 {
        None
    } else if fields[0].name == name {
        Some(fields[0])
    } else {
        field_called(fields.drop_first(), name)
    }
}

/// The request that creates a prototype. It names no class of field: only an
/// attachment does.
pub open spec fn create_field(name: Seq<char>, field_type: Seq<char>) -> RequestView {
    http::post_of(
        FIELD_CREATE_PATH@,
        JsonView::Object(
            seq![
                ("name"@, JsonView::Text(name)),
                ("fieldType"@, JsonView::Object(seq![("id"@, JsonView::Text(field_type))])),
            ],
        ),
        "custom field '"@ + name + "'"@,
    )
}

/// What a write comes to where it does no harm that someone else was first.
pub open spec fn posted(request: RequestView, t: TalkView) -> (Result<(), StopView>, TalkView) {
    match talk::heard(request, 0, t) {
        (Ok(Ok(_)), after) => (Ok(()), after),
        (Ok(Err(RemoteErrorView::AlreadyExists { .. })), after) => (Ok(()), after),
        (Ok(Err(e)), after) => (Err(StopView::Fail(e)), after),
        (Err(stop), after) => (Err(stop), after),
    }
}

/// The prototypes once every provided field from the `k`-th on exists. After
/// each creation they are read again.
pub open spec fn ensured_from(k: int, existing: Seq<FieldRefView>, t: TalkView) -> (
    Result<Seq<FieldRefView>, StopView>,
    TalkView,
)
    decreases ALL_FIELDS@.len() - k,
{
    if k < 0 || k >= ALL_FIELDS@.len() {
        (Ok(existing), t)
    } else if field_called(existing, ALL_FIELDS@[k].0@) is Some {
        ensured_from(k + 1, existing, t)
    } else {
        match posted(create_field(ALL_FIELDS@[k].0@, ALL_FIELDS@[k].1@), t) {
            (Err(stop), after) => (Err(stop), after),
            (Ok(_), after) => match prototypes(after) {
                (Err(stop), end) => (Err(stop), end),
                (Ok(again), end) => ensured_from(k + 1, again, end),
            },
        }
    }
}

/// The provided fields among the prototypes, in the order of creation.
pub open spec fn provided(existing: Seq<FieldRefView>) -> Seq<FieldRefView> {
    text::picked(
        ALL_FIELDS@,
        |f: (&'static str, &'static str)| field_called(existing, f.0@),
    )
}

/// The provided fields once all of them exist.
pub open spec fn ensured(t: TalkView) -> (Result<Seq<FieldRefView>, StopView>, TalkView) {
    match prototypes(t) {
        (Err(stop), after) => (Err(stop), after),
        (Ok(existing), after) => match ensured_from(0, existing, after) {
            (Err(stop), end) => (Err(stop), end),
            (Ok(all), end) => (Ok(provided(all)), end),
        },
    }
}

/// The request that attaches a field to a project.
pub open spec fn attach_field(project: ProjectRefView, field: FieldRefView) -> RequestView {
    http::post_of(
        "/api/admin/projects/"@ + project.id + "/customFields?fields=id,field(id,name)"@,
        JsonView::Object(
            seq![
                ("field"@, JsonView::Object(seq![("id"@, JsonView::Text(field.id))])),
                ("canBeEmpty"@, JsonView::Bool(true)),
                (
                    "$type"@,
                    JsonView::Text(
                        if field.name == BEADS_ID_FIELD@ {
                            "SimpleProjectCustomField"@
                        } else {
                            "TextProjectCustomField"@
                        },
                    ),
                ),
            ],
        ),
        "attach '"@ + field.name + "'"@,
    )
}

/// The attachment of the fields from the `k`-th on.
pub open spec fn attached_from(
    project: ProjectRefView,
    fields: Seq<FieldRefView>,
    k: int,
    t: TalkView,
) -> (Result<(), StopView>, TalkView)
    decreases fields.len() - k,
{
    if k < 0 || k >= fields.len() {
        (Ok(()), t)
    } else {
        match posted(attach_field(project, fields[k]), t) {
            (Err(stop), after) => (Err(stop), after),
            (Ok(_), after) => attached_from(project, fields, k + 1, after),
        }
    }
}

/// Sends a write that someone else may have made already.
pub fn post_absorbing(talk: &mut Talk, request: Request) -> (r: Result<(), Stop>)
    ensures
        (talk::seen_done(r), final(talk)@) == posted(request@, old(talk)@),
        final(talk)@.rest.len() <= old(talk)@.rest.len(),
{
    match talk.hear(request, 0) {
        Ok(reply) => match reply {
            Ok(_) => Ok(()),
            Err(RemoteError::AlreadyExists { .. }) => Ok(()),
            Err(e) => Err(Stop::Fail(e.copy())),
        },
        Err(stop) => Err(stop),
    }
}

/// The first prototype with the name.
pub fn find_field<'a>(fields: &'a Vec<FieldRef>, name: &str) -> (r: Option<&'a FieldRef>)
    ensures
        text::seen(r) == field_called(text::views(fields@), name@),
{
    let ghost all = text::views(fields@);
    let mut i: usize = 0;
    assert(all.skip(0) =~= all);
    while i < fields.len()
        invariant
            i <= fields@.len(),
            all == text::views(fields@),
            field_called(all, name@) == field_called(all.skip(i as int), name@),
        decreases fields@.len() - i,
    {
        assert(all.skip(i as int)[0] == fields@[i as int]@);
        assert(all.skip(i as int).drop_first() =~= all.skip(i + 1));
        if same_text(fields[i].name.as_str(), name) {
            return Some(&fields[i]);
        }
        i += 1;
    }
    None
}

/// What administers a project of the mirror.
#[derive(Clone)]
pub struct AdminClient {
    http: HttpClient,
    count_poll_base_delay: u64,
}

/// What contracts say of an [`AdminClient`].
pub struct AdminClientView {
    pub http: HttpClientView,
    /// In nanoseconds.
    pub count_poll_base_delay: u64,
}

impl View for AdminClient {
    type V = AdminClientView;

    closed spec fn view(&self) -> AdminClientView {
        AdminClientView {
            http: self.http@,
            count_poll_base_delay: self.count_poll_base_delay,
        }
    }
}

impl AdminClient {
    /// An administrator that works through `http`.
    pub fn new(http: HttpClient) -> (r: AdminClient)
        ensures
            r@ == (AdminClientView {
                http: http@,
                count_poll_base_delay: COUNT_POLL_BASE_DELAY,
            }),
    {
        AdminClient { http, count_poll_base_delay: COUNT_POLL_BASE_DELAY }
    }

    /// What the requests go through.
    pub fn http(&self) -> (r: &HttpClient)
        ensures
            r@ == self@.http,
    {
        &self.http
    }

    /// Waits differently between two looks at a count, in nanoseconds.
    pub fn with_count_poll_delay(self, delay: u64) -> (r: AdminClient)
        ensures
            r@ == (AdminClientView { count_poll_base_delay: delay, ..self@ }),
    {
        AdminClient { http: self.http, count_poll_base_delay: delay }
    }

    /// How long to wait before the second look at a count, in nanoseconds.
    pub fn count_poll_base_delay(&self) -> (r: u64)
        ensures
            r == self@.count_poll_base_delay,
    {
        self.count_poll_base_delay
    }

    /// Finds the project by its short name.
    pub fn resolve_project(&self, talk: &mut Talk, short_name: &str) -> (r: Result<
        ProjectRef,
        Stop,
    >)
        requires
            old(talk)@.rest.len() <= MOST_REPLIES,
        ensures
            (talk::seen_step(r), final(talk)@) == project_from(short_name@, 0, old(talk)@),
            final(talk)@.rest.len() <= old(talk)@.rest.len(),
    {
        resolve_project_by_short_name(talk, short_name)
    }

    /// Every prototype of the instance.
    pub fn list_field_prototypes(&self, talk: &mut Talk) -> (r: Result<Vec<FieldRef>, Stop>)
        requires
            old(talk)@.rest.len() <= MOST_REPLIES,
        ensures
            (match r {
                Ok(fields) => Ok(text::views(fields@)),
                Err(stop) => Err(stop@),
            }, final(talk)@) == prototypes(old(talk)@),
            final(talk)@.rest.len() <= old(talk)@.rest.len(),
    {
        let items = match read_listing(talk, FIELD_LIST_PATH, "custom field list", PAGE_SIZE) {
            Ok(items) => items,
            Err(stop) => {
                return Err(stop);
            },
        };
        let ghost want = text::views(items@).map_values(|raw: JsonView| field_read(raw));
        let mut out: Vec<FieldRef> = Vec::new();
        let mut i: usize = 0;
        assert(text::views(out@) =~= want.take(0));
        while i < items.len()
            invariant
                i <= items@.len(),
                want == text::views(items@).map_values(|raw: JsonView| field_read(raw)),
                text::views(out@) == want.take(i as int),
            decreases items@.len() - i,
        {
            let raw = items[i];
            let field_type = match raw.get("fieldType") {
                Some(t) => t.text_or_empty("id").to_owned(),
                None => String::new(),
            };
            assert(field_type@ =~= field_read(raw@).field_type);
            let one = FieldRef {
                id: raw.text_or_empty("id").to_owned(),
                name: raw.text_or_empty("name").to_owned(),
                field_type,
            };
            proof {
                text::views_push(out@, one);
                assert(want.take(i + 1) =~= want.take(i as int).push(one@));
            }
            out.push(one);
            i += 1;
        }
        assert(want.take(i as int) =~= want);
        Ok(out)
    }

    /// Sees to it that every provided field exists, creating those that do
    /// not. It does no harm that someone else was first.
    pub fn ensure_field_prototypes(&self, talk: &mut Talk) -> (r: Result<Vec<FieldRef>, Stop>)
        requires
            old(talk)@.rest.len() <= MOST_REPLIES,
        ensures
            (match r {
                Ok(fields) => Ok(text::views(fields@)),
                Err(stop) => Err(stop@),
            }, final(talk)@) == ensured(old(talk)@),
            final(talk)@.rest.len() <= old(talk)@.rest.len(),
    {
        let ghost start = talk@;
        let mut existing = match self.list_field_prototypes(talk) {
            Ok(fields) => fields,
            Err(stop) => {
                return Err(stop);
            },
        };
        let ghost first = text::views(existing@);
        let ghost listed_once = talk@;
        let mut k: usize = 0;
        while k < ALL_FIELDS.len()
            invariant
                k <= ALL_FIELDS@.len(),
                start == old(talk)@,
                start.rest.len() <= MOST_REPLIES,
                talk@.rest.len() <= start.rest.len(),
                prototypes(start) == (Ok::<Seq<FieldRefView>, StopView>(first), listed_once),
                ensured_from(0, first, listed_once) == ensured_from(
                    k as int,
                    text::views(existing@),
                    talk@,
                ),
            decreases ALL_FIELDS@.len() - k,
        {
            let (name, field_type) = ALL_FIELDS[k];
            if find_field(&existing, name).is_none() {
                let body = object_2(
                    entry("name", text_value(name)),
                    entry("fieldType", object_1(entry("id", text_value(field_type)))),
                );
                let mut entity = "custom field '".to_owned();
                entity.append(name);
                entity.append("'");
                let request = Request::post(FIELD_CREATE_PATH.to_owned(), body, entity.as_str());
                assert(request@.body->0->Object_0 =~= create_field(name@, field_type@).body->0->Object_0);
                if let Err(stop) = post_absorbing(talk, request) {
                    return Err(stop);
                }
                existing = match self.list_field_prototypes(talk) {
                    Ok(fields) => fields,
                    Err(stop) => {
                        return Err(stop);
                    },
                };
            }
            k += 1;
        }
        Ok(provided_fields(&existing))
    }

    /// Attaches the fields to the project. It does no harm where one is
    /// attached already.
    pub fn attach_fields_to_project(
        &self,
        talk: &mut Talk,
        project: &ProjectRef,
        fields: &Vec<FieldRef>,
    ) -> (r: Result<(), Stop>)
        ensures
            (talk::seen_done(r), final(talk)@) == attached_from(
                project@,
                text::views(fields@),
                0,
                old(talk)@,
            ),
            final(talk)@.rest.len() <= old(talk)@.rest.len(),
    {
        let ghost start = talk@;
        let ghost all = text::views(fields@);
        let mut k: usize = 0;
        while k < fields.len()
            invariant
                k <= fields@.len(),
                all == text::views(fields@),
                start == old(talk)@,
                talk@.rest.len() <= start.rest.len(),
                attached_from(project@, all, 0, start) == attached_from(
                    project@,
                    all,
                    k as int,
                    talk@,
                ),
            decreases fields@.len() - k,
        {
            let field = &fields[k];
            assert(all[k as int] == field@);
            let class = if same_text(field.name.as_str(), BEADS_ID_FIELD) {
                "SimpleProjectCustomField"
            } else {
                "TextProjectCustomField"
            };
            let body = object_3(
                entry("field", object_1(entry("id", text_value(field.id.as_str())))),
                entry("canBeEmpty", Json::Bool(true)),
                entry("$type", text_value(class)),
            );
            let mut path = "/api/admin/projects/".to_owned();
            path.append(project.id.as_str());
            path.append("/customFields?fields=id,field(id,name)");
            let mut entity = "attach '".to_owned();
            entity.append(field.name.as_str());
            entity.append("'");
            let request = Request::post(path, body, entity.as_str());
            assert(request@.body->0->Object_0 =~= attach_field(project@, field@).body->0->Object_0);
            if let Err(stop) = post_absorbing(talk, request) {
                return Err(stop);
            }
            k += 1;
        }
        Ok(())
    }
}

fn provided_fields(existing: &Vec<FieldRef>) -> (r: Vec<FieldRef>)
    ensures
        text::views(r@) == provided(text::views(existing@)),
{
    let ghost all = text::views(existing@);
    let ghost f = |f: (&'static str, &'static str)| field_called(all, f.0@);
    let mut out: Vec<FieldRef> = Vec::new();
    let mut k: usize = 0;
    assert(text::views(out@) =~= text::picked(ALL_FIELDS@.take(0), f));
    while k < ALL_FIELDS.len()
        invariant
            k <= ALL_FIELDS@.len(),
            all == text::views(existing@),
            f == (|f: (&'static str, &'static str)| field_called(all, f.0@)),
            text::views(out@) == text::picked(ALL_FIELDS@.take(k as int), f),
        decreases ALL_FIELDS@.len() - k,
    {
        proof {
            text::picked_step(ALL_FIELDS@, f, k as int);
        }
        if let Some(field) = find_field(existing, ALL_FIELDS[k].0) {
            let one = field.copy();
            proof {
                text::views_push(out@, one);
            }
            out.push(one);
        }
        k += 1;
    }
    assert(ALL_FIELDS@.take(k as int) =~= ALL_FIELDS@);
    out
}

} // verus!
