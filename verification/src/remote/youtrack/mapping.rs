//! How a bead and an issue of the mirror say the same thing, in both
//! directions.
//!
//! The values of `Type`, `State` and `Priority` are set by name. The four
//! prose fields carry a text inside their value; the identifier of the bead
//! is a bare text.

use crate::json;
use crate::json::{entry, find_with, object_1, object_3, text_value, Json, JsonView};
use crate::model;
use crate::model::{Issue, IssueType, IssueTypeView, Priority, Status, StatusView};
use crate::remote::config;
use crate::remote::config::{map_get, RemoteConfig, RemoteConfigView};
use crate::remote::error;
use crate::remote::error::{RemoteError, RemoteErrorView};
use crate::text;
use crate::text::{copy_optional, signed_decimal_of};
use vstd::prelude::*;
use vstd::string::*;

verus! {

broadcast use {
    vstd::string::group_string_axioms,
    crate::json::array_view,
    crate::json::object_view,
};

/// Which fields an update carries.
#[derive(Debug, Clone, Copy, PartialEq, Eq, Structural)]
pub struct FieldSet {
    pub title: bool,
    pub description: bool,
    pub status: bool,
    pub issue_type: bool,
    pub priority: bool,
    pub design: bool,
    pub acceptance_criteria: bool,
    pub notes: bool,
    pub close_reason: bool,
    pub beads_id: bool,
}

/// No field at all.
pub open spec fn no_fields() -> FieldSet {
    FieldSet {
        title: false,
        description: false,
        status: false,
        issue_type: false,
        priority: false,
        design: false,
        acceptance_criteria: false,
        notes: false,
        close_reason: false,
        beads_id: false,
    }
}

impl Default for FieldSet {
    fn default() -> (r: FieldSet)
        ensures
            r == no_fields(),
    {
        FieldSet {
            title: false,
            description: false,
            status: false,
            issue_type: false,
            priority: false,
            design: false,
            acceptance_criteria: false,
            notes: false,
            close_reason: false,
            beads_id: false,
        }
    }
}

/// A value of the mirror that no bead value is mapped onto.
#[derive(Debug, Clone, PartialEq, Eq)]
pub struct UnmappedValue {
    /// The field's name, e.g. `Type`.
    pub field: String,
    /// The value, e.g. `User Story`.
    pub value: String,
    /// The map of the configuration that would cover it, e.g. `type_map`.
    pub config_key: String,
}

/// What contracts say of an [`UnmappedValue`].
pub struct UnmappedValueView {
    pub field: Seq<char>,
    pub value: Seq<char>,
    pub config_key: Seq<char>,
}

impl View for UnmappedValue {
    type V = UnmappedValueView;

    open spec fn view(&self) -> UnmappedValueView {
        UnmappedValueView {
            field: self.field@,
            value: self.value@,
            config_key: self.config_key@,
        }
    }
}

/// The refusal of an unmapped value, in words.
pub open spec fn unmapped_text(u: UnmappedValueView) -> Seq<char> {
    "issue "@ + u.field + " '"@ + u.value + "' has no beads mapping; add an entry to "@
        + u.config_key + " in remote.yaml"@
}

impl UnmappedValue {
    /// The refusal, in words.
    pub fn message(&self) -> (r: String)
        ensures
            r@ == unmapped_text(self@),
    {
        let mut out = "issue ".to_owned();
        out.append(self.field.as_str());
        out.append(" '");
        out.append(self.value.as_str());
        out.append("' has no beads mapping; add an entry to ");
        out.append(self.config_key.as_str());
        out.append(" in remote.yaml");
        out
    }
}

/// The fields of a bead, as an issue of the mirror holds them.
#[derive(Debug, Clone, PartialEq, Eq)]
pub struct RemoteIssueFields {
    pub title: String,
    pub description: Option<String>,
    pub status: Status,
    pub issue_type: IssueType,
    pub priority: Priority,
    pub design: Option<String>,
    pub acceptance_criteria: Option<String>,
    pub notes: Option<String>,
    pub close_reason: Option<String>,
    pub beads_id: Option<String>,
}

/// What contracts say of [`RemoteIssueFields`].
pub struct RemoteIssueFieldsView {
    pub title: Seq<char>,
    pub description: Option<Seq<char>>,
    pub status: StatusView,
    pub issue_type: IssueTypeView,
    pub priority: Priority,
    pub design: Option<Seq<char>>,
    pub acceptance_criteria: Option<Seq<char>>,
    pub notes: Option<Seq<char>>,
    pub close_reason: Option<Seq<char>>,
    pub beads_id: Option<Seq<char>>,
}

impl View for RemoteIssueFields {
    type V = RemoteIssueFieldsView;

    open spec fn view(&self) -> RemoteIssueFieldsView {
        RemoteIssueFieldsView {
            title: self.title@,
            description: text::seen(self.description),
            status: self.status@,
            issue_type: self.issue_type@,
            priority: self.priority,
            design: text::seen(self.design),
            acceptance_criteria: text::seen(self.acceptance_criteria),
            notes: text::seen(self.notes),
            close_reason: text::seen(self.close_reason),
            beads_id: text::seen(self.beads_id),
        }
    }
}

impl RemoteIssueFields {
    /// Equal fields.
    pub fn copy(&self) -> (r: RemoteIssueFields)
        ensures
            r@ == self@,
    {
        RemoteIssueFields {
            title: self.title.clone(),
            description: copy_optional(&self.description),
            status: self.status.copy(),
            issue_type: self.issue_type.copy(),
            priority: self.priority,
            design: copy_optional(&self.design),
            acceptance_criteria: copy_optional(&self.acceptance_criteria),
            notes: copy_optional(&self.notes),
            close_reason: copy_optional(&self.close_reason),
            beads_id: copy_optional(&self.beads_id),
        }
    }
}

// ---------------------------------------------------------------------------
// Writing
// ---------------------------------------------------------------------------

/// A field whose value is named.
pub open spec fn bundle_field(
    name: Seq<char>,
    type_tag: Seq<char>,
    mapped: Seq<char>,
) -> JsonView {
    JsonView::Object(
        seq![
            ("name"@, JsonView::Text(name)),
            ("$type"@, JsonView::Text(type_tag)),
            ("value"@, JsonView::Object(seq![("name"@, JsonView::Text(mapped))])),
        ],
    )
}

/// A field of prose; without any it is cleared.
pub open spec fn prose_entry(name: Seq<char>, prose: Option<Seq<char>>) -> JsonView {
    JsonView::Object(
        seq![
            ("name"@, JsonView::Text(name)),
            ("$type"@, JsonView::Text("TextIssueCustomField"@)),
            (
                "value"@,
                match prose {
                    Some(s) => JsonView::Object(seq![("text"@, JsonView::Text(s))]),
                    None => JsonView::Null,
                },
            ),
        ],
    )
}

/// The field that names the bead.
pub open spec fn bead_field(id: Seq<char>) -> JsonView {
    JsonView::Object(
        seq![
            ("name"@, JsonView::Text("Beads ID"@)),
            ("$type"@, JsonView::Text("SimpleIssueCustomField"@)),
            ("value"@, JsonView::Text(id)),
        ],
    )
}

/// The refusal to push a bead's value that no value of the mirror is mapped
/// to.
pub open spec fn unmapped_local(
    field: Seq<char>,
    value: Seq<char>,
    map_key: Seq<char>,
) -> RemoteErrorView {
    RemoteErrorView::Config(
        "beads "@ + field + " '"@ + value + "' has no YouTrack mapping; add an entry to "@
            + map_key + " in remote.yaml"@,
    )
}

/// The mirror's name of a type.
pub open spec fn type_mapped(cfg: RemoteConfigView, t: IssueTypeView) -> Result<
    Seq<char>,
    RemoteErrorView,
> {
    match config::value_under(cfg.type_map, model::issue_type_name(t)) {
        Some(v) => Ok(v),
        None => Err(unmapped_local("issue type"@, model::issue_type_name(t), "type_map"@)),
    }
}

/// The mirror's name of a status.
pub open spec fn status_mapped(cfg: RemoteConfigView, s: StatusView) -> Result<
    Seq<char>,
    RemoteErrorView,
> {
    match config::value_under(cfg.status_map, model::status_name(s)) {
        Some(v) => Ok(v),
        None => Err(unmapped_local("status"@, model::status_name(s), "status_map"@)),
    }
}

/// The mirror's name of a priority.
pub open spec fn priority_mapped(cfg: RemoteConfigView, p: Priority) -> Result<
    Seq<char>,
    RemoteErrorView,
> {
    match config::value_under(cfg.priority_map, text::decimal(p.0 as int)) {
        Some(v) => Ok(v),
        None => Err(
            unmapped_local("priority"@, "P"@ + text::decimal(p.0 as int), "priority_map"@),
        ),
    }
}

/// The first of three refusals.
pub open spec fn first_error(
    a: Result<Seq<char>, RemoteErrorView>,
    b: Result<Seq<char>, RemoteErrorView>,
    c: Result<Seq<char>, RemoteErrorView>,
) -> Option<RemoteErrorView> {
    match (a, b, c) {
        (Err(e), _, _) => Some(e),
        (Ok(_), Err(e), _) => Some(e),
        (Ok(_), Ok(_), Err(e)) => Some(e),
        _ => None,
    }
}

/// A list of one value or of none.
pub open spec fn one_if(wanted: bool, j: JsonView) -> Seq<JsonView> {
    if wanted {
        seq![j]
    } else {
        Seq::empty()
    }
}

/// The prose of a new issue: a field without any is left out.
pub open spec fn prose_if_present(name: Seq<char>, prose: Option<Seq<char>>) -> Seq<JsonView> {
    one_if(prose is Some, prose_entry(name, prose))
}

/// The custom fields of a new issue.
pub open spec fn create_fields(cfg: RemoteConfigView, issue: Issue) -> Seq<JsonView> {
    seq![
        bundle_field(
            "Type"@,
            "SingleEnumIssueCustomField"@,
            type_mapped(cfg, issue.issue_type@)->Ok_0,
        ),
        bundle_field(
            "State"@,
            "StateIssueCustomField"@,
            status_mapped(cfg, issue.status@)->Ok_0,
        ),
        bundle_field(
            "Priority"@,
            "SingleEnumIssueCustomField"@,
            priority_mapped(cfg, issue.priority)->Ok_0,
        ),
    ] + prose_if_present("Design"@, text::seen(issue.design)) + prose_if_present(
        "Acceptance Criteria"@,
        text::seen(issue.acceptance_criteria),
    ) + prose_if_present("Notes"@, text::seen(issue.notes)) + prose_if_present(
        "Close Reason"@,
        text::seen(issue.close_reason),
    ) + seq![bead_field(issue.id@)]
}

/// The body that creates an issue, or the refusal of a value that is not
/// mapped.
pub open spec fn create_body(cfg: RemoteConfigView, project_id: Seq<char>, issue: Issue) -> Result<
    JsonView,
    RemoteErrorView,
> {
    match first_error(
        type_mapped(cfg, issue.issue_type@),
        status_mapped(cfg, issue.status@),
        priority_mapped(cfg, issue.priority),
    ) {
        Some(e) => Err(e),
        None => Ok(
            JsonView::Object(
                seq![
                    ("project"@, JsonView::Object(seq![("id"@, JsonView::Text(project_id))])),
                    ("summary"@, JsonView::Text(issue.title@)),
                    ("customFields"@, JsonView::Array(create_fields(cfg, issue))),
                ] + (match text::seen(issue.description) {
                    Some(d) => seq![("description"@, JsonView::Text(d))],
                    None => Seq::empty(),
                }),
            ),
        ),
    }
}

/// The fields with a named value that an update carries.
pub open spec fn named_fields(cfg: RemoteConfigView, issue: Issue, fields: FieldSet) -> Seq<
    JsonView,
> {
    one_if(
        fields.issue_type,
        bundle_field(
            "Type"@,
            "SingleEnumIssueCustomField"@,
            type_mapped(cfg, issue.issue_type@)->Ok_0,
        ),
    ) + one_if(
        fields.status,
        bundle_field(
            "State"@,
            "StateIssueCustomField"@,
            status_mapped(cfg, issue.status@)->Ok_0,
        ),
    ) + one_if(
        fields.priority,
        bundle_field(
            "Priority"@,
            "SingleEnumIssueCustomField"@,
            priority_mapped(cfg, issue.priority)->Ok_0,
        ),
    )
}

/// The custom fields that an update carries.
pub open spec fn update_fields(cfg: RemoteConfigView, issue: Issue, fields: FieldSet) -> Seq<
    JsonView,
> {
    named_fields(cfg, issue, fields) + one_if(
        fields.design,
        prose_entry("Design"@, text::seen(issue.design)),
    ) + one_if(
        fields.acceptance_criteria,
        prose_entry("Acceptance Criteria"@, text::seen(issue.acceptance_criteria)),
    ) + one_if(fields.notes, prose_entry("Notes"@, text::seen(issue.notes))) + one_if(
        fields.close_reason,
        prose_entry("Close Reason"@, text::seen(issue.close_reason)),
    ) + one_if(fields.beads_id, bead_field(issue.id@))
}

/// A value that is not asked for cannot be refused.
pub open spec fn only_if(wanted: bool, r: Result<Seq<char>, RemoteErrorView>) -> Result<
    Seq<char>,
    RemoteErrorView,
> {
    if wanted {
        r
    } else {
        Ok(Seq::empty())
    }
}

/// The body that updates the given fields of an issue, or the refusal of a
/// value among them that is not mapped.
pub open spec fn update_body(cfg: RemoteConfigView, issue: Issue, fields: FieldSet) -> Result<
    JsonView,
    RemoteErrorView,
> {
    match first_error(
        only_if(fields.issue_type, type_mapped(cfg, issue.issue_type@)),
        only_if(fields.status, status_mapped(cfg, issue.status@)),
        only_if(fields.priority, priority_mapped(cfg, issue.priority)),
    ) {
        Some(e) => Err(e),
        None => Ok(
            JsonView::Object(
                (if fields.title {
                    seq![("summary"@, JsonView::Text(issue.title@))]
                } else {
                    Seq::empty()
                }) + (if fields.description {
                    seq![
                        (
                            "description"@,
                            match text::seen(issue.description) {
                                Some(d) => JsonView::Text(d),
                                None => JsonView::Null,
                            },
                        ),
                    ]
                } else {
                    Seq::empty()
                }) + (if update_fields(cfg, issue, fields).len() > 0 {
                    seq![("customFields"@, JsonView::Array(update_fields(cfg, issue, fields)))]
                } else {
                    Seq::empty()
                }),
            ),
        ),
    }
}

/// The body that marks an issue as deleted: its state, and nothing else.
pub open spec fn deleted_body(cfg: RemoteConfigView) -> JsonView {
    JsonView::Object(
        seq![
            (
                "customFields"@,
                JsonView::Array(
                    seq![bundle_field("State"@, "StateIssueCustomField"@, cfg.deleted_state)],
                ),
            ),
        ],
    )
}

fn unmapped_local_error(field: &str, value: &str, map_key: &str) -> (r: RemoteError)
    ensures
        r@ == unmapped_local(field@, value@, map_key@),
{
    let mut out = "beads ".to_owned();
    out.append(field);
    out.append(" '");
    out.append(value);
    out.append("' has no YouTrack mapping; add an entry to ");
    out.append(map_key);
    out.append(" in remote.yaml");
    RemoteError::Config(out)
}

/// The mirror's name of a type.
pub fn mapped_type(cfg: &RemoteConfig, issue_type: &IssueType) -> (r: Result<String, RemoteError>)
    ensures
        error::seen_result(r) == type_mapped(cfg@, issue_type@),
{
    match map_get(&cfg.type_map, issue_type.as_str()) {
        Some(v) => Ok(v.clone()),
        None => Err(unmapped_local_error("issue type", issue_type.as_str(), "type_map")),
    }
}

/// The mirror's name of a status.
pub fn mapped_status(cfg: &RemoteConfig, status: &Status) -> (r: Result<String, RemoteError>)
    ensures
        error::seen_result(r) == status_mapped(cfg@, status@),
{
    match map_get(&cfg.status_map, status.as_str()) {
        Some(v) => Ok(v.clone()),
        None => Err(unmapped_local_error("status", status.as_str(), "status_map")),
    }
}

/// The mirror's name of a priority.
pub fn mapped_priority(cfg: &RemoteConfig, priority: Priority) -> (r: Result<String, RemoteError>)
    ensures
        error::seen_result(r) == priority_mapped(cfg@, priority),
{
    match map_get(&cfg.priority_map, signed_decimal_of(priority.0 as i64).as_str()) {
        Some(v) => Ok(v.clone()),
        None => Err(
            unmapped_local_error("priority", priority.to_string().as_str(), "priority_map"),
        ),
    }
}

fn push_bundle_field(fields: &mut Vec<Json>, name: &str, type_tag: &str, mapped: &str)
    ensures
        text::views(final(fields)@) == text::views(old(fields)@).push(
            bundle_field(name@, type_tag@, mapped@),
        ),
{
    let one = object_3(
        entry("name", text_value(name)),
        entry("$type", text_value(type_tag)),
        entry("value", object_1(entry("name", text_value(mapped)))),
    );
    proof {
        text::views_push(fields@, one);
    }
    fields.push(one);
}

/// Always adds the field; without prose it is cleared.
fn push_prose_field_or_clear(fields: &mut Vec<Json>, name: &str, prose: &Option<String>)
    ensures
        text::views(final(fields)@) == text::views(old(fields)@).push(
            prose_entry(name@, text::seen(*prose)),
        ),
{
    let value = match prose {
        Some(s) => object_1(entry("text", text_value(s.as_str()))),
        None => Json::Null,
    };
    assert(value@ == (match text::seen(*prose) {
        Some(s) => JsonView::Object(seq![("text"@, JsonView::Text(s))]),
        None => JsonView::Null,
    }));
    let one = object_3(
        entry("name", text_value(name)),
        entry("$type", text_value("TextIssueCustomField")),
        entry("value", value),
    );
    assert(one@->Object_0 =~= prose_entry(name@, text::seen(*prose))->Object_0);
    proof {
        text::views_push(fields@, one);
    }
    fields.push(one);
}

/// Adds the field where there is prose for it.
fn push_prose_field_if_present(fields: &mut Vec<Json>, name: &str, prose: &Option<String>)
    ensures
        text::views(final(fields)@) == text::views(old(fields)@) + prose_if_present(
            name@,
            text::seen(*prose),
        ),
{
    let ghost before = text::views(fields@);
    if prose.is_some() {
        push_prose_field_or_clear(fields, name, prose);
    }
    assert(text::views(fields@) =~= before + prose_if_present(name@, text::seen(*prose)));
}

fn push_bead_field(fields: &mut Vec<Json>, id: &str)
    ensures
        text::views(final(fields)@) == text::views(old(fields)@).push(bead_field(id@)),
{
    let one = object_3(
        entry("name", text_value("Beads ID")),
        entry("$type", text_value("SimpleIssueCustomField")),
        entry("value", text_value(id)),
    );
    proof {
        text::views_push(fields@, one);
    }
    fields.push(one);
}

/// The body that creates `issue`, with every field that it has a value for.
pub fn issue_create_body(cfg: &RemoteConfig, project_id: &str, issue: &Issue) -> (r: Result<
    Json,
    RemoteError,
>)
    ensures
        error::seen_result(r) == create_body(cfg@, project_id@, *issue),
{
    let mut fields: Vec<Json> = Vec::new();
    let type_tag = match mapped_type(cfg, &issue.issue_type) {
        Ok(name) => name,
        Err(e) => {
            return Err(e);
        },
    };
    push_bundle_field(&mut fields, "Type", "SingleEnumIssueCustomField", type_tag.as_str());
    let state = match mapped_status(cfg, &issue.status) {
        Ok(name) => name,
        Err(e) => {
            return Err(e);
        },
    };
    push_bundle_field(&mut fields, "State", "StateIssueCustomField", state.as_str());
    let priority = match mapped_priority(cfg, issue.priority) {
        Ok(name) => name,
        Err(e) => {
            return Err(e);
        },
    };
    push_bundle_field(&mut fields, "Priority", "SingleEnumIssueCustomField", priority.as_str());
    push_prose_field_if_present(&mut fields, "Design", &issue.design);
    push_prose_field_if_present(&mut fields, "Acceptance Criteria", &issue.acceptance_criteria);
    push_prose_field_if_present(&mut fields, "Notes", &issue.notes);
    push_prose_field_if_present(&mut fields, "Close Reason", &issue.close_reason);
    push_bead_field(&mut fields, issue.id.as_str());
    assert(text::views(fields@) =~= create_fields(cfg@, *issue));

    let mut body: Vec<(String, Json)> = Vec::new();
    body.push(entry("project", object_1(entry("id", text_value(project_id)))));
    body.push(entry("summary", text_value(issue.title.as_str())));
    body.push(entry("customFields", Json::Array(fields)));
    if let Some(description) = &issue.description {
        body.push(entry("description", text_value(description.as_str())));
    }
    assert(json::entries_view(body@) =~= create_body(cfg@, project_id@, *issue)->Ok_0->Object_0);
    Ok(Json::Object(body))
}

/// Adds the field where it is wanted; without prose it is cleared.
fn push_prose_field_where(
    fields: &mut Vec<Json>,
    wanted: bool,
    name: &str,
    prose: &Option<String>,
)
    ensures
        text::views(final(fields)@) == text::views(old(fields)@) + one_if(
            wanted,
            prose_entry(name@, text::seen(*prose)),
        ),
{
    let ghost before = text::views(fields@);
    if wanted {
        push_prose_field_or_clear(fields, name, prose);
    }
    assert(text::views(fields@) =~= before + one_if(
        wanted,
        prose_entry(name@, text::seen(*prose)),
    ));
}

/// The fields with a named value that an update carries.
fn update_named_fields(cfg: &RemoteConfig, issue: &Issue, fields: FieldSet) -> (r: Result<
    Vec<Json>,
    RemoteError,
>)
    ensures
        (match first_error(
            only_if(fields.issue_type, type_mapped(cfg@, issue.issue_type@)),
            only_if(fields.status, status_mapped(cfg@, issue.status@)),
            only_if(fields.priority, priority_mapped(cfg@, issue.priority)),
        ) {
            Some(e) => r is Err && r->Err_0@ == e,
            None => r is Ok && text::views(r->Ok_0@) == named_fields(cfg@, *issue, fields),
        }),
{
    let mut custom: Vec<Json> = Vec::new();
    if fields.issue_type {
        match mapped_type(cfg, &issue.issue_type) {
            Ok(name) => push_bundle_field(
                &mut custom,
                "Type",
                "SingleEnumIssueCustomField",
                name.as_str(),
            ),
            Err(e) => {
                return Err(e);
            },
        }
    }
    if fields.status {
        match mapped_status(cfg, &issue.status) {
            Ok(name) => push_bundle_field(
                &mut custom,
                "State",
                "StateIssueCustomField",
                name.as_str(),
            ),
            Err(e) => {
                return Err(e);
            },
        }
    }
    if fields.priority {
        match mapped_priority(cfg, issue.priority) {
            Ok(name) => push_bundle_field(
                &mut custom,
                "Priority",
                "SingleEnumIssueCustomField",
                name.as_str(),
            ),
            Err(e) => {
                return Err(e);
            },
        }
    }
    assert(text::views(custom@) =~= named_fields(cfg@, *issue, fields));
    Ok(custom)
}

/// The custom fields that an update carries.
fn update_custom_fields(cfg: &RemoteConfig, issue: &Issue, fields: FieldSet) -> (r: Result<
    Vec<Json>,
    RemoteError,
>)
    ensures
        (match first_error(
            only_if(fields.issue_type, type_mapped(cfg@, issue.issue_type@)),
            only_if(fields.status, status_mapped(cfg@, issue.status@)),
            only_if(fields.priority, priority_mapped(cfg@, issue.priority)),
        ) {
            Some(e) => r is Err && r->Err_0@ == e,
            None => r is Ok && text::views(r->Ok_0@) == update_fields(cfg@, *issue, fields),
        }),
{
    let mut custom = match update_named_fields(cfg, issue, fields) {
        Ok(custom) => custom,
        Err(e) => {
            return Err(e);
        },
    };
    push_prose_field_where(&mut custom, fields.design, "Design", &issue.design);
    push_prose_field_where(
        &mut custom,
        fields.acceptance_criteria,
        "Acceptance Criteria",
        &issue.acceptance_criteria,
    );
    push_prose_field_where(&mut custom, fields.notes, "Notes", &issue.notes);
    push_prose_field_where(&mut custom, fields.close_reason, "Close Reason", &issue.close_reason);
    let ghost before = text::views(custom@);
    if fields.beads_id {
        push_bead_field(&mut custom, issue.id.as_str());
    }
    assert(text::views(custom@) =~= before + one_if(fields.beads_id, bead_field(issue.id@)));
    Ok(custom)
}

/// The body that updates the given fields of `issue`. Prose that is to be
/// updated and is absent is cleared.
pub fn issue_update_body(cfg: &RemoteConfig, issue: &Issue, fields: FieldSet) -> (r: Result<
    Json,
    RemoteError,
>)
    ensures
        error::seen_result(r) == update_body(cfg@, *issue, fields),
{
    let custom = match update_custom_fields(cfg, issue, fields) {
        Ok(custom) => custom,
        Err(e) => {
            return Err(e);
        },
    };
    let mut body: Vec<(String, Json)> = Vec::new();
    if fields.title {
        body.push(entry("summary", text_value(issue.title.as_str())));
    }
    if fields.description {
        let value = match &issue.description {
            Some(description) => text_value(description.as_str()),
            None => Json::Null,
        };
        body.push(entry("description", value));
    }
    if custom.len() > 0 {
        assert(text::views(custom@).len() > 0);
        body.push(entry("customFields", Json::Array(custom)));
    } else {
        assert(text::views(custom@).len() == 0);
    }
    assert(json::entries_view(body@) =~= update_body(cfg@, *issue, fields)->Ok_0->Object_0);
    Ok(Json::Object(body))
}

/// The body that marks an issue as deleted. The state comes from the
/// configuration as it is, through no map.
pub fn deleted_state_body(cfg: &RemoteConfig) -> (r: Json)
    ensures
        r@ == deleted_body(cfg@),
{
    let mut fields: Vec<Json> = Vec::new();
    push_bundle_field(&mut fields, "State", "StateIssueCustomField", cfg.deleted_state.as_str());
    assert(text::views(fields@) =~= seq![
        bundle_field("State"@, "StateIssueCustomField"@, cfg@.deleted_state),
    ]);
    object_1(entry("customFields", Json::Array(fields)))
}

// ---------------------------------------------------------------------------
// Reading
// ---------------------------------------------------------------------------

/// The first custom field called `name`.
pub open spec fn custom_field(raw: JsonView, name: Seq<char>) -> Option<JsonView> {
    json::first_with(json::items_of(json::member(raw, "customFields"@)), "name"@, name)
}

/// The value of a custom field.
pub open spec fn custom_value(raw: JsonView, name: Seq<char>) -> Option<JsonView> {
    match custom_field(raw, name) {
        Some(field) => json::member(field, "value"@),
        None => None,
    }
}

/// The name of a custom field's value.
pub open spec fn bundle_value(raw: JsonView, name: Seq<char>) -> Option<Seq<char>> {
    match custom_value(raw, name) {
        Some(value) => json::text_at(value, "name"@),
        None => None,
    }
}

/// The prose of a custom field's value.
pub open spec fn prose_value(raw: JsonView, name: Seq<char>) -> Option<Seq<char>> {
    match custom_value(raw, name) {
        Some(value) => json::text_at(value, "text"@),
        None => None,
    }
}

/// The bead that an issue names.
pub open spec fn bead_named(raw: JsonView) -> Option<Seq<char>> {
    match custom_value(raw, "Beads ID"@) {
        Some(value) => json::text_in(value),
        None => None,
    }
}

/// The bead status of an issue: an absent state is an open one.
pub open spec fn status_read(cfg: RemoteConfigView, raw: JsonView) -> Result<
    StatusView,
    UnmappedValueView,
> {
    match bundle_value(raw, "State"@) {
        None => Ok(StatusView::Open),
        Some(name) => {
            let known = match config::key_over(cfg.status_map, name) {
                Some(key) => model::status_named(text::lower(key)),
                None => None,
            };
            match known {
                Some(status) => Ok(status),
                None => Err(
                    UnmappedValueView {
                        field: "State"@,
                        value: name,
                        config_key: "status_map"@,
                    },
                ),
            }
        },
    }
}

/// The bead type of an issue: an absent type is a task.
pub open spec fn type_read(cfg: RemoteConfigView, raw: JsonView) -> Result<
    IssueTypeView,
    UnmappedValueView,
> {
    match bundle_value(raw, "Type"@) {
        None => Ok(IssueTypeView::Task),
        Some(name) => {
            let known = match config::key_over(cfg.type_map, name) {
                Some(key) => model::issue_type_named(text::lower(key)),
                None => None,
            };
            match known {
                Some(t) => Ok(t),
                None => Err(
                    UnmappedValueView { field: "Type"@, value: name, config_key: "type_map"@ },
                ),
            }
        },
    }
}

/// The bead priority of an issue: an absent priority is the usual one.
pub open spec fn priority_read(cfg: RemoteConfigView, raw: JsonView) -> Result<
    Priority,
    UnmappedValueView,
> {
    match bundle_value(raw, "Priority"@) {
        None => Ok(Priority(2)),
        Some(name) => {
            let number = match config::key_over(cfg.priority_map, name) {
                Some(key) => config::priority_key(key),
                None => None,
            };
            match number {
                Some(n) => Ok(Priority(n as i32)),
                None => Err(
                    UnmappedValueView {
                        field: "Priority"@,
                        value: name,
                        config_key: "priority_map"@,
                    },
                ),
            }
        },
    }
}

/// The fields of a fetched issue, or the first of its values that is not
/// mapped.
pub open spec fn fields_read(cfg: RemoteConfigView, raw: JsonView) -> Result<
    RemoteIssueFieldsView,
    UnmappedValueView,
> {
    match (status_read(cfg, raw), type_read(cfg, raw), priority_read(cfg, raw)) {
        (Err(u), _, _) => Err(u),
        (Ok(_), Err(u), _) => Err(u),
        (Ok(_), Ok(_), Err(u)) => Err(u),
        (Ok(status), Ok(issue_type), Ok(priority)) => Ok(
            RemoteIssueFieldsView {
                title: json::text_or_empty(raw, "summary"@),
                description: json::text_at(raw, "description"@),
                status,
                issue_type,
                priority,
                design: prose_value(raw, "Design"@),
                acceptance_criteria: prose_value(raw, "Acceptance Criteria"@),
                notes: prose_value(raw, "Notes"@),
                close_reason: prose_value(raw, "Close Reason"@),
                beads_id: bead_named(raw),
            },
        ),
    }
}

/// The first custom field called `name`. An issue carries every field of its
/// project, so a field is found by name and never by place.
pub fn custom_field_by_name<'a>(raw: &'a Json, name: &str) -> (r: Option<&'a Json>)
    ensures
        text::seen(r) == custom_field(raw@, name@),
{
    find_with(raw.items_at("customFields"), "name", name)
}

fn field_value<'a>(raw: &'a Json, name: &str) -> (r: Option<&'a Json>)
    ensures
        text::seen(r) == custom_value(raw@, name@),
{
    match custom_field_by_name(raw, name) {
        Some(field) => field.get("value"),
        None => None,
    }
}

fn bundle_value_name<'a>(raw: &'a Json, name: &str) -> (r: Option<&'a str>)
    ensures
        text::seen(r) == bundle_value(raw@, name@),
{
    match field_value(raw, name) {
        Some(value) => value.text_at("name"),
        None => None,
    }
}

fn owned(s: Option<&str>) -> (r: Option<String>)
    ensures
        text::seen(r) == text::seen(s),
{
    match s {
        Some(s) => Some(s.to_owned()),
        None => None,
    }
}

fn prose_field(raw: &Json, name: &str) -> (r: Option<String>)
    ensures
        text::seen(r) == prose_value(raw@, name@),
{
    match field_value(raw, name) {
        Some(value) => owned(value.text_at("text")),
        None => None,
    }
}

fn beads_id_field(raw: &Json) -> (r: Option<String>)
    ensures
        text::seen(r) == bead_named(raw@),
{
    match field_value(raw, "Beads ID") {
        Some(value) => owned(value.as_str()),
        None => None,
    }
}

fn unmapped_remote_value(field: &str, value: &str, map_key: &str) -> (r: UnmappedValue)
    ensures
        r@ == (UnmappedValueView { field: field@, value: value@, config_key: map_key@ }),
{
    UnmappedValue {
        field: field.to_owned(),
        value: value.to_owned(),
        config_key: map_key.to_owned(),
    }
}

fn reverse_type(cfg: &RemoteConfig, raw: &Json) -> (r: Result<IssueType, UnmappedValue>)
    ensures
        (match r {
            Ok(t) => Ok(t@),
            Err(u) => Err(u@),
        }) == type_read(cfg@, raw@),
{
    let name = match bundle_value_name(raw, "Type") {
        Some(name) => name,
        None => {
            return Ok(IssueType::Task);
        },
    };
    if let Some(key) = cfg.reverse_type(name) {
        if let Some(known) = IssueType::known_value(key) {
            return Ok(known);
        }
    }
    Err(unmapped_remote_value("Type", name, "type_map"))
}

fn reverse_status(cfg: &RemoteConfig, raw: &Json) -> (r: Result<Status, UnmappedValue>)
    ensures
        (match r {
            Ok(s) => Ok(s@),
            Err(u) => Err(u@),
        }) == status_read(cfg@, raw@),
{
    let name = match bundle_value_name(raw, "State") {
        Some(name) => name,
        None => {
            return Ok(Status::Open);
        },
    };
    if let Some(key) = cfg.reverse_status(name) {
        if let Some(known) = Status::known_value(key) {
            return Ok(known);
        }
    }
    Err(unmapped_remote_value("State", name, "status_map"))
}

fn reverse_priority(cfg: &RemoteConfig, raw: &Json) -> (r: Result<Priority, UnmappedValue>)
    ensures
        (match r {
            Ok(p) => Ok(p),
            Err(u) => Err(u@),
        }) == priority_read(cfg@, raw@),
{
    let name = match bundle_value_name(raw, "Priority") {
        Some(name) => name,
        None => {
            return Ok(Priority(2));
        },
    };
    match cfg.reverse_priority(name) {
        Some(n) => {
            proof {
                let key = config::key_over(cfg@.priority_map, name@)->0;
                digits_are_not_negative(key);
            }
            Ok(Priority(n as i32))
        },
        None => Err(unmapped_remote_value("Priority", name, "priority_map")),
    }
}

proof fn digits_are_not_negative(key: Seq<char>)
    ensures
        config::priority_key(key) is Some ==> 0 <= config::priority_key(key)->0 <= 255,
{
    let row = if key.len() > 0 && key[0] == '+' {
        key.drop_first()
    } else {
        key
    };
    if text::digits_value(row) is Some {
        text::digits_value_grows(row, 1);
    }
}

/// The fields of a fetched issue. A value that is there and not mapped is
/// refused; one that is absent means the default.
pub fn reverse_fields_structured(cfg: &RemoteConfig, raw: &Json) -> (r: Result<
    RemoteIssueFields,
    UnmappedValue,
>)
    ensures
        (match r {
            Ok(f) => Ok(f@),
            Err(u) => Err(u@),
        }) == fields_read(cfg@, raw@),
{
    let status = match reverse_status(cfg, raw) {
        Ok(status) => status,
        Err(u) => {
            return Err(u);
        },
    };
    let issue_type = match reverse_type(cfg, raw) {
        Ok(issue_type) => issue_type,
        Err(u) => {
            return Err(u);
        },
    };
    let priority = match reverse_priority(cfg, raw) {
        Ok(priority) => priority,
        Err(u) => {
            return Err(u);
        },
    };
    Ok(
        RemoteIssueFields {
            title: raw.text_or_empty("summary").to_owned(),
            description: owned(raw.text_at("description")),
            status,
            issue_type,
            priority,
            design: prose_field(raw, "Design"),
            acceptance_criteria: prose_field(raw, "Acceptance Criteria"),
            notes: prose_field(raw, "Notes"),
            close_reason: prose_field(raw, "Close Reason"),
            beads_id: beads_id_field(raw),
        },
    )
}

/// The fields of a fetched issue, with the refusal in words.
pub fn reverse_fields(cfg: &RemoteConfig, raw: &Json) -> (r: Result<
    RemoteIssueFields,
    RemoteError,
>)
    ensures
        error::seen_result(r) == (match fields_read(cfg@, raw@) {
            Ok(f) => Ok(f),
            Err(u) => Err(RemoteErrorView::Config(unmapped_text(u))),
        }),
{
    match reverse_fields_structured(cfg, raw) {
        Ok(fields) => Ok(fields),
        Err(unmapped) => Err(RemoteError::Config(unmapped.message())),
    }
}

// ---------------------------------------------------------------------------
// What was written is read back
// ---------------------------------------------------------------------------

proof fn first_with_sum(a: Seq<JsonView>, b: Seq<JsonView>, key: Seq<char>, value: Seq<char>)
    ensures
        json::first_with(a + b, key, value) == (match json::first_with(a, key, value) {
            Some(j) => Some(j),
            None => json::first_with(b, key, value),
        }),
    decreases a.len(),
{
    if a.len() == 0 {
        assert(a + b =~= b);
    } else {
        assert((a + b)[0] == a[0]);
        assert((a + b).drop_first() =~= a.drop_first() + b);
        first_with_sum(a.drop_first(), b, key, value);
    }
}

proof fn first_with_one(j: JsonView, key: Seq<char>, value: Seq<char>)
    ensures
        json::first_with(seq![j], key, value) == (if json::text_at(j, key) == Some(value) {
            Some(j)
        } else {
            None
        }),
        json::first_with(Seq::empty(), key, value) is None,
{
    assert(seq![j].drop_first() =~= Seq::<JsonView>::empty());
    reveal_with_fuel(json::first_with, 2);
}

proof fn lookup_three(a: (Seq<char>, JsonView), b: (Seq<char>, JsonView), c: (Seq<char>, JsonView))
    requires
        a.0 != b.0,
        a.0 != c.0,
        b.0 != c.0,
    ensures
        json::lookup(seq![a, b, c], a.0) == Some(a.1),
        json::lookup(seq![a, b, c], b.0) == Some(b.1),
        json::lookup(seq![a, b, c], c.0) == Some(c.1),
        json::lookup(seq![a], a.0) == Some(a.1),
{
    let all = seq![a, b, c];
    assert(all.drop_first() =~= seq![b, c]);
    assert(seq![b, c].drop_first() =~= seq![c]);
    reveal_with_fuel(json::lookup, 4);
}

/// A custom field as it is sent holds its name and its value.
proof fn field_members(name: Seq<char>, tag: Seq<char>, value: JsonView)
    ensures
        ({
            let j = JsonView::Object(
                seq![
                    ("name"@, JsonView::Text(name)),
                    ("$type"@, JsonView::Text(tag)),
                    ("value"@, value),
                ],
            );
            json::text_at(j, "name"@) == Some(name) && json::member(j, "value"@) == Some(value)
        }),
{
    reveal_strlit("name");
    reveal_strlit("$type");
    reveal_strlit("value");
    assert("name"@[0] == 'n' && "$type"@[0] == '$' && "value"@[0] == 'v');
    lookup_three(
        ("name"@, JsonView::Text(name)),
        ("$type"@, JsonView::Text(tag)),
        ("value"@, value),
    );
}

proof fn sole_member(key: Seq<char>, s: Seq<char>)
    ensures
        json::text_at(JsonView::Object(seq![(key, JsonView::Text(s))]), key) == Some(s),
{
    reveal_with_fuel(json::lookup, 2);
}

proof fn prose_found(name: Seq<char>, prose: Option<Seq<char>>, want: Seq<char>)
    ensures
        json::first_with(prose_if_present(name, prose), "name"@, want) == (if prose is Some && name
            == want {
            Some(prose_entry(name, prose))
        } else {
            None
        }),
        prose is Some ==> json::member(prose_entry(name, prose), "value"@) == Some(
            JsonView::Object(seq![("text"@, JsonView::Text(prose->0))]),
        ),
{
    let value = match prose {
        Some(s) => JsonView::Object(seq![("text"@, JsonView::Text(s))]),
        None => JsonView::Null,
    };
    field_members(name, "TextIssueCustomField"@, value);
    let entries = seq![
        ("name"@, JsonView::Text(name)),
        ("$type"@, JsonView::Text("TextIssueCustomField"@)),
        ("value"@, value),
    ];
    assert(prose_entry(name, prose)->Object_0 =~= entries) by {
        assert(prose_entry(name, prose)->Object_0[2] == ("value"@, value));
    }
    first_with_one(prose_entry(name, prose), "name"@, want);
}

proof fn field_names_differ()
    ensures
        "Type"@ != "State"@,
        "Type"@ != "Priority"@,
        "Type"@ != "Design"@,
        "Type"@ != "Acceptance Criteria"@,
        "Type"@ != "Notes"@,
        "Type"@ != "Close Reason"@,
        "Type"@ != "Beads ID"@,
        "State"@ != "Priority"@,
        "State"@ != "Design"@,
        "State"@ != "Acceptance Criteria"@,
        "State"@ != "Notes"@,
        "State"@ != "Close Reason"@,
        "State"@ != "Beads ID"@,
        "Priority"@ != "Design"@,
        "Priority"@ != "Acceptance Criteria"@,
        "Priority"@ != "Notes"@,
        "Priority"@ != "Close Reason"@,
        "Priority"@ != "Beads ID"@,
        "Design"@ != "Acceptance Criteria"@,
        "Design"@ != "Notes"@,
        "Design"@ != "Close Reason"@,
        "Design"@ != "Beads ID"@,
        "Acceptance Criteria"@ != "Notes"@,
        "Acceptance Criteria"@ != "Close Reason"@,
        "Acceptance Criteria"@ != "Beads ID"@,
        "Notes"@ != "Close Reason"@,
        "Notes"@ != "Beads ID"@,
        "Close Reason"@ != "Beads ID"@,
{
    reveal_strlit("Type");
    reveal_strlit("State");
    reveal_strlit("Priority");
    reveal_strlit("Design");
    reveal_strlit("Acceptance Criteria");
    reveal_strlit("Notes");
    reveal_strlit("Close Reason");
    reveal_strlit("Beads ID");
    assert("Type"@[0] == 'T' && "State"@[0] == 'S' && "Priority"@[0] == 'P');
    assert("Design"@[0] == 'D' && "Acceptance Criteria"@[0] == 'A' && "Notes"@[0] == 'N');
    assert("Close Reason"@[0] == 'C' && "Beads ID"@[0] == 'B');
}

/// The custom field of that name among those that a new issue is sent with.
proof fn created_field(cfg: RemoteConfigView, issue: Issue, want: Seq<char>)
    ensures
        json::first_with(create_fields(cfg, issue), "name"@, want) == (if want == "Type"@ {
            Some(
                bundle_field(
                    "Type"@,
                    "SingleEnumIssueCustomField"@,
                    type_mapped(cfg, issue.issue_type@)->Ok_0,
                ),
            )
        } else if want == "State"@ {
            Some(
                bundle_field(
                    "State"@,
                    "StateIssueCustomField"@,
                    status_mapped(cfg, issue.status@)->Ok_0,
                ),
            )
        } else if want == "Priority"@ {
            Some(
                bundle_field(
                    "Priority"@,
                    "SingleEnumIssueCustomField"@,
                    priority_mapped(cfg, issue.priority)->Ok_0,
                ),
            )
        } else if want == "Design"@ && issue.design is Some {
            Some(prose_entry("Design"@, text::seen(issue.design)))
        } else if want == "Acceptance Criteria"@ && issue.acceptance_criteria is Some {
            Some(prose_entry("Acceptance Criteria"@, text::seen(issue.acceptance_criteria)))
        } else if want == "Notes"@ && issue.notes is Some {
            Some(prose_entry("Notes"@, text::seen(issue.notes)))
        } else if want == "Close Reason"@ && issue.close_reason is Some {
            Some(prose_entry("Close Reason"@, text::seen(issue.close_reason)))
        } else if want == "Beads ID"@ {
            Some(bead_field(issue.id@))
        } else {
            None
        }),
{
    field_names_differ();
    let kind = type_mapped(cfg, issue.issue_type@)->Ok_0;
    let state = status_mapped(cfg, issue.status@)->Ok_0;
    let priority = priority_mapped(cfg, issue.priority)->Ok_0;
    let a = bundle_field("Type"@, "SingleEnumIssueCustomField"@, kind);
    let b = bundle_field("State"@, "StateIssueCustomField"@, state);
    let c = bundle_field("Priority"@, "SingleEnumIssueCustomField"@, priority);
    let design = prose_if_present("Design"@, text::seen(issue.design));
    let criteria = prose_if_present(
        "Acceptance Criteria"@,
        text::seen(issue.acceptance_criteria),
    );
    let notes = prose_if_present("Notes"@, text::seen(issue.notes));
    let reason = prose_if_present("Close Reason"@, text::seen(issue.close_reason));
    let id = bead_field(issue.id@);
    field_members(
        "Type"@,
        "SingleEnumIssueCustomField"@,
        JsonView::Object(seq![("name"@, JsonView::Text(kind))]),
    );
    field_members(
        "State"@,
        "StateIssueCustomField"@,
        JsonView::Object(seq![("name"@, JsonView::Text(state))]),
    );
    field_members(
        "Priority"@,
        "SingleEnumIssueCustomField"@,
        JsonView::Object(seq![("name"@, JsonView::Text(priority))]),
    );
    field_members("Beads ID"@, "SimpleIssueCustomField"@, JsonView::Text(issue.id@));
    first_with_one(a, "name"@, want);
    first_with_one(b, "name"@, want);
    first_with_one(c, "name"@, want);
    first_with_one(id, "name"@, want);
    prose_found("Design"@, text::seen(issue.design), want);
    prose_found("Acceptance Criteria"@, text::seen(issue.acceptance_criteria), want);
    prose_found("Notes"@, text::seen(issue.notes), want);
    prose_found("Close Reason"@, text::seen(issue.close_reason), want);
    assert(seq![a, b, c] =~= seq![a] + seq![b] + seq![c]);
    first_with_sum(seq![a], seq![b], "name"@, want);
    first_with_sum(seq![a] + seq![b], seq![c], "name"@, want);
    first_with_sum(seq![a, b, c], design, "name"@, want);
    first_with_sum(seq![a, b, c] + design, criteria, "name"@, want);
    first_with_sum(seq![a, b, c] + design + criteria, notes, "name"@, want);
    first_with_sum(seq![a, b, c] + design + criteria + notes, reason, "name"@, want);
    first_with_sum(
        seq![a, b, c] + design + criteria + notes + reason,
        seq![id],
        "name"@,
        want,
    );
}

proof fn created_members(
    project_id: Seq<char>,
    title: Seq<char>,
    fields: Seq<JsonView>,
    description: Option<Seq<char>>,
)
    ensures
        ({
            let body = JsonView::Object(
                seq![
                    ("project"@, JsonView::Object(seq![("id"@, JsonView::Text(project_id))])),
                    ("summary"@, JsonView::Text(title)),
                    ("customFields"@, JsonView::Array(fields)),
                ] + (match description {
                    Some(d) => seq![("description"@, JsonView::Text(d))],
                    None => Seq::empty(),
                }),
            );
            &&& json::text_at(body, "summary"@) == Some(title)
            &&& json::items_of(json::member(body, "customFields"@)) == fields
            &&& json::text_at(body, "description"@) == description
        }),
{
    reveal_strlit("project");
    reveal_strlit("summary");
    reveal_strlit("customFields");
    reveal_strlit("description");
    assert("project"@[0] == 'p' && "summary"@[0] == 's' && "customFields"@[0] == 'c');
    assert("description"@[0] == 'd');
    let a = ("project"@, JsonView::Object(seq![("id"@, JsonView::Text(project_id))]));
    let b = ("summary"@, JsonView::Text(title));
    let c = ("customFields"@, JsonView::Array(fields));
    let rest = match description {
        Some(d) => seq![("description"@, JsonView::Text(d))],
        None => Seq::empty(),
    };
    let all = seq![a, b, c] + rest;
    assert(all.drop_first() =~= seq![b, c] + rest);
    assert((seq![b, c] + rest).drop_first() =~= seq![c] + rest);
    assert((seq![c] + rest).drop_first() =~= rest);
    assert(rest.len() > 0 ==> rest.drop_first() =~= Seq::empty());
    reveal_with_fuel(json::lookup, 5);
}

/// What an issue of the mirror says that agrees with a bead.
pub open spec fn agreed_fields(issue: Issue) -> RemoteIssueFieldsView {
    RemoteIssueFieldsView {
        title: issue.title@,
        description: text::seen(issue.description),
        status: issue.status@,
        issue_type: issue.issue_type@,
        priority: issue.priority,
        design: text::seen(issue.design),
        acceptance_criteria: text::seen(issue.acceptance_criteria),
        notes: text::seen(issue.notes),
        close_reason: text::seen(issue.close_reason),
        beads_id: Some(issue.id@),
    }
}

proof fn created_value(
    cfg: RemoteConfigView,
    project_id: Seq<char>,
    issue: Issue,
    want: Seq<char>,
)
    requires
        create_body(cfg, project_id, issue) is Ok,
    ensures
        custom_field(create_body(cfg, project_id, issue)->Ok_0, want) == json::first_with(
            create_fields(cfg, issue),
            "name"@,
            want,
        ),
{
    created_members(
        project_id,
        issue.title@,
        create_fields(cfg, issue),
        text::seen(issue.description),
    );
}

/// Where every value of a bead is mapped and each map leads back, the issue
/// that is created for the bead reads back as that bead.
proof fn mapped_issue_reads_back(cfg: RemoteConfigView, project_id: Seq<char>, issue: Issue)
    requires
        create_body(cfg, project_id, issue) is Ok,
        status_read_of(cfg, status_mapped(cfg, issue.status@)->Ok_0) == Some(issue.status@),
        type_read_of(cfg, type_mapped(cfg, issue.issue_type@)->Ok_0) == Some(issue.issue_type@),
        priority_read_of(cfg, priority_mapped(cfg, issue.priority)->Ok_0) == Some(issue.priority),
    ensures
        fields_read(cfg, create_body(cfg, project_id, issue)->Ok_0) == Ok::<
            RemoteIssueFieldsView,
            UnmappedValueView,
        >(agreed_fields(issue)),
{
    field_names_differ();
    let body = create_body(cfg, project_id, issue)->Ok_0;
    created_members(
        project_id,
        issue.title@,
        create_fields(cfg, issue),
        text::seen(issue.description),
    );
    let kind = type_mapped(cfg, issue.issue_type@)->Ok_0;
    let state = status_mapped(cfg, issue.status@)->Ok_0;
    let priority = priority_mapped(cfg, issue.priority)->Ok_0;
    created_value(cfg, project_id, issue, "Type"@);
    created_field(cfg, issue, "Type"@);
    field_members(
        "Type"@,
        "SingleEnumIssueCustomField"@,
        JsonView::Object(seq![("name"@, JsonView::Text(kind))]),
    );
    sole_member("name"@, kind);
    assert(bundle_value(body, "Type"@) == Some(kind));
    created_value(cfg, project_id, issue, "State"@);
    created_field(cfg, issue, "State"@);
    field_members(
        "State"@,
        "StateIssueCustomField"@,
        JsonView::Object(seq![("name"@, JsonView::Text(state))]),
    );
    sole_member("name"@, state);
    assert(bundle_value(body, "State"@) == Some(state));
    created_value(cfg, project_id, issue, "Priority"@);
    created_field(cfg, issue, "Priority"@);
    field_members(
        "Priority"@,
        "SingleEnumIssueCustomField"@,
        JsonView::Object(seq![("name"@, JsonView::Text(priority))]),
    );
    sole_member("name"@, priority);
    assert(bundle_value(body, "Priority"@) == Some(priority));
    created_prose(cfg, project_id, issue, "Design"@, text::seen(issue.design));
    created_prose(
        cfg,
        project_id,
        issue,
        "Acceptance Criteria"@,
        text::seen(issue.acceptance_criteria),
    );
    created_prose(cfg, project_id, issue, "Notes"@, text::seen(issue.notes));
    created_prose(cfg, project_id, issue, "Close Reason"@, text::seen(issue.close_reason));
    created_value(cfg, project_id, issue, "Beads ID"@);
    created_field(cfg, issue, "Beads ID"@);
    field_members("Beads ID"@, "SimpleIssueCustomField"@, JsonView::Text(issue.id@));
    assert(bead_named(body) == Some(issue.id@));
}

proof fn created_prose(
    cfg: RemoteConfigView,
    project_id: Seq<char>,
    issue: Issue,
    name: Seq<char>,
    prose: Option<Seq<char>>,
)
    requires
        create_body(cfg, project_id, issue) is Ok,
        ({
            ||| name == "Design"@ && prose == text::seen(issue.design)
            ||| name == "Acceptance Criteria"@ && prose == text::seen(issue.acceptance_criteria)
            ||| name == "Notes"@ && prose == text::seen(issue.notes)
            ||| name == "Close Reason"@ && prose == text::seen(issue.close_reason)
        }),
    ensures
        prose_value(create_body(cfg, project_id, issue)->Ok_0, name) == prose,
{
    field_names_differ();
    created_value(cfg, project_id, issue, name);
    created_field(cfg, issue, name);
    prose_found(name, prose, name);
    if prose is Some {
        sole_member("text"@, prose->0);
    }
}

/// The status that a name of the mirror stands for.
spec fn status_read_of(cfg: RemoteConfigView, name: Seq<char>) -> Option<StatusView> {
    match config::key_over(cfg.status_map, name) {
        Some(key) => model::status_named(text::lower(key)),
        None => None,
    }
}

/// The type that a name of the mirror stands for.
spec fn type_read_of(cfg: RemoteConfigView, name: Seq<char>) -> Option<IssueTypeView> {
    match config::key_over(cfg.type_map, name) {
        Some(key) => model::issue_type_named(text::lower(key)),
        None => None,
    }
}

/// The priority that a name of the mirror stands for.
spec fn priority_read_of(cfg: RemoteConfigView, name: Seq<char>) -> Option<Priority> {
    match config::key_over(cfg.priority_map, name) {
        Some(key) => match config::priority_key(key) {
            Some(n) => Some(Priority(n as i32)),
            None => None,
        },
        None => None,
    }
}

/// With a configuration that passes its check, every bead of a known status
/// other than a tombstone, a known type and one of the five priorities can be
/// created on the mirror, and what is sent reads back as that bead.
pub proof fn created_issue_reads_back(cfg: RemoteConfigView, project_id: Seq<char>, issue: Issue)
    requires
        config::config_refusal(cfg) is None,
        !(issue.status@ is Custom),
        !(issue.status@ is Tombstone),
        !(issue.issue_type@ is Custom),
        0 <= issue.priority.0 <= 4,
    ensures
        create_body(cfg, project_id, issue) is Ok,
        fields_read(cfg, create_body(cfg, project_id, issue)->Ok_0) == Ok::<
            RemoteIssueFieldsView,
            UnmappedValueView,
        >(agreed_fields(issue)),
{
    config::valid_config_round_trips(cfg);
    model::status_reads_back(issue.status@);
    model::issue_type_reads_back(issue.issue_type@);
    model::priority_reads_back(issue.priority);
    let status = model::status_name(issue.status@);
    let kind = model::issue_type_name(issue.issue_type@);
    let number = text::decimal(issue.priority.0 as int);
    known_values_are_required(issue.status@, issue.issue_type@, issue.priority);
    assert(config::value_under(cfg.status_map, status) is Some);
    assert(config::value_under(cfg.type_map, kind) is Some);
    assert(config::value_under(cfg.priority_map, number) is Some);
    mapped_issue_reads_back(cfg, project_id, issue);
}

/// The values that a configuration must map are the known statuses but the
/// tombstone, the known types and the five priorities.
proof fn known_values_are_required(s: StatusView, t: IssueTypeView, p: Priority)
    requires
        !(s is Custom),
        !(s is Tombstone),
        !(t is Custom),
        0 <= p.0 <= 4,
    ensures
        exists|k: int|
            0 <= k < 7 && (#[trigger] config::MIRRORED_STATUSES@[k])@ == model::status_name(s),
        exists|k: int|
            0 <= k < 7 && (#[trigger] config::BUILTIN_TYPES@[k])@ == model::issue_type_name(t),
        exists|k: int|
            0 <= k < 5 && (#[trigger] config::BUILTIN_PRIORITIES@[k])@ == text::decimal(p.0 as int),
{
    let statuses = config::MIRRORED_STATUSES@;
    assert(statuses[0]@ == statuses[0]@ && statuses[1]@ == statuses[1]@);
    assert(statuses[2]@ == statuses[2]@ && statuses[3]@ == statuses[3]@);
    assert(statuses[4]@ == statuses[4]@ && statuses[5]@ == statuses[5]@);
    assert(statuses[6]@ == statuses[6]@);
    let types = config::BUILTIN_TYPES@;
    assert(types[0]@ == types[0]@ && types[1]@ == types[1]@ && types[2]@ == types[2]@);
    assert(types[3]@ == types[3]@ && types[4]@ == types[4]@ && types[5]@ == types[5]@);
    assert(types[6]@ == types[6]@);
    reveal_strlit("0");
    reveal_strlit("1");
    reveal_strlit("2");
    reveal_strlit("3");
    reveal_strlit("4");
    let numbers = config::BUILTIN_PRIORITIES@;
    let k = p.0 as int;
    assert(text::decimal(k) =~= seq![text::digit(k)]);
    assert(numbers[k]@ =~= text::decimal(k));
}

/// The body that marks an issue as deleted sets its state to the configured
/// one.
pub proof fn deletion_sets_the_state(cfg: RemoteConfigView)
    ensures
        bundle_value(deleted_body(cfg), "State"@) == Some(cfg.deleted_state),
{
    let field = bundle_field("State"@, "StateIssueCustomField"@, cfg.deleted_state);
    field_members(
        "State"@,
        "StateIssueCustomField"@,
        JsonView::Object(seq![("name"@, JsonView::Text(cfg.deleted_state))]),
    );
    first_with_one(field, "name"@, "State"@);
    sole_member("name"@, cfg.deleted_state);
    reveal_with_fuel(json::lookup, 2);
}

// ---------------------------------------------------------------------------
// What goes over the wire, and under which name
// ---------------------------------------------------------------------------

/// A custom field as the mirror knows it: its name, its class and its value.
pub open spec fn wire_field(name: Seq<char>, class: Seq<char>, value: JsonView) -> JsonView {
    JsonView::Object(
        seq![
            ("name"@, JsonView::Text(name)),
            ("$type"@, JsonView::Text(class)),
            ("value"@, value),
        ],
    )
}

/// A value that is set by its name.
pub open spec fn by_name(name: Seq<char>) -> JsonView {
    JsonView::Object(seq![("name"@, JsonView::Text(name))])
}

/// Prose as a value; no prose clears the field.
pub open spec fn as_prose(prose: Option<String>) -> JsonView {
    match prose {
        Some(s) => JsonView::Object(seq![("text"@, JsonView::Text(s@))]),
        None => JsonView::Null,
    }
}

/// `1` where something is there.
pub open spec fn one_where(there: bool) -> nat {
    if there {
        1
    } else {
        0
    }
}

/// The body sets the custom field to what it is given, where that is wanted,
/// and leaves the field alone where it is not.
pub open spec fn sets_field(
    body: JsonView,
    wanted: bool,
    name: Seq<char>,
    class: Seq<char>,
    value: JsonView,
) -> bool {
    if wanted {
        custom_field(body, name) == Some(wire_field(name, class, value)) && custom_value(body, name)
            == Some(value)
    } else {
        custom_field(body, name) is None && custom_value(body, name) is None
    }
}

proof fn lookup_sum(
    a: Seq<(Seq<char>, JsonView)>,
    b: Seq<(Seq<char>, JsonView)>,
    key: Seq<char>,
)
    ensures
        json::lookup(a + b, key) == (match json::lookup(a, key) {
            Some(v) => Some(v),
            None => json::lookup(b, key),
        }),
    decreases a.len(),
{
    if a.len() == 0 {
        assert(a + b =~= b);
    } else {
        assert((a + b)[0] == a[0]);
        assert((a + b).drop_first() =~= a.drop_first() + b);
        lookup_sum(a.drop_first(), b, key);
    }
}

proof fn lookup_one(e: (Seq<char>, JsonView), key: Seq<char>)
    ensures
        json::lookup(seq![e], key) == (if e.0 == key {
            Some(e.1)
        } else {
            None
        }),
        json::lookup(Seq::empty(), key) is None,
{
    assert(seq![e].drop_first() =~= Seq::<(Seq<char>, JsonView)>::empty());
    reveal_with_fuel(json::lookup, 2);
}

proof fn body_names_differ()
    ensures
        "summary"@ != "description"@,
        "summary"@ != "customFields"@,
        "description"@ != "customFields"@,
        "tags"@ != "summary"@,
        "tags"@ != "description"@,
        "tags"@ != "customFields"@,
        "project"@ != "summary"@,
        "project"@ != "description"@,
        "project"@ != "customFields"@,
{
    reveal_strlit("summary");
    reveal_strlit("description");
    reveal_strlit("customFields");
    reveal_strlit("tags");
    reveal_strlit("project");
    assert("summary"@[0] == 's' && "description"@[0] == 'd' && "customFields"@[0] == 'c');
    assert("tags"@[0] == 't' && "project"@[0] == 'p');
}

proof fn one_found(wanted: bool, j: JsonView, name: Seq<char>, want: Seq<char>)
    requires
        json::text_at(j, "name"@) == Some(name),
    ensures
        json::first_with(one_if(wanted, j), "name"@, want) == (if wanted && name == want {
            Some(j)
        } else {
            None
        }),
{
    first_with_one(j, "name"@, want);
}

proof fn wire_members(name: Seq<char>, class: Seq<char>, value: JsonView)
    ensures
        json::text_at(wire_field(name, class, value), "name"@) == Some(name),
        json::member(wire_field(name, class, value), "value"@) == Some(value),
{
    field_members(name, class, value);
}

proof fn entries_on_the_wire(
    name: Seq<char>,
    class: Seq<char>,
    mapped: Seq<char>,
    prose: Option<String>,
)
    ensures
        bundle_field(name, class, mapped) == wire_field(name, class, by_name(mapped)),
        prose_entry(name, text::seen(prose)) == wire_field(
            name,
            "TextIssueCustomField"@,
            as_prose(prose),
        ),
{
    assert(prose_entry(name, text::seen(prose))->Object_0 =~= wire_field(
        name,
        "TextIssueCustomField"@,
        as_prose(prose),
    )->Object_0);
}

/// The custom field of that name among those of an update.
proof fn updated_field(cfg: RemoteConfigView, issue: Issue, fields: FieldSet, want: Seq<char>)
    ensures
        json::first_with(update_fields(cfg, issue, fields), "name"@, want) == (if want == "Type"@
            && fields.issue_type {
            Some(
                wire_field(
                    want,
                    "SingleEnumIssueCustomField"@,
                    by_name(type_mapped(cfg, issue.issue_type@)->Ok_0),
                ),
            )
        } else if want == "State"@ && fields.status {
            Some(
                wire_field(
                    want,
                    "StateIssueCustomField"@,
                    by_name(status_mapped(cfg, issue.status@)->Ok_0),
                ),
            )
        } else if want == "Priority"@ && fields.priority {
            Some(
                wire_field(
                    want,
                    "SingleEnumIssueCustomField"@,
                    by_name(priority_mapped(cfg, issue.priority)->Ok_0),
                ),
            )
        } else if want == "Design"@ && fields.design {
            Some(wire_field(want, "TextIssueCustomField"@, as_prose(issue.design)))
        } else if want == "Acceptance Criteria"@ && fields.acceptance_criteria {
            Some(wire_field(want, "TextIssueCustomField"@, as_prose(issue.acceptance_criteria)))
        } else if want == "Notes"@ && fields.notes {
            Some(wire_field(want, "TextIssueCustomField"@, as_prose(issue.notes)))
        } else if want == "Close Reason"@ && fields.close_reason {
            Some(wire_field(want, "TextIssueCustomField"@, as_prose(issue.close_reason)))
        } else if want == "Beads ID"@ && fields.beads_id {
            Some(wire_field(want, "SimpleIssueCustomField"@, JsonView::Text(issue.id@)))
        } else {
            None
        }),
{
    field_names_differ();
    let kind = type_mapped(cfg, issue.issue_type@)->Ok_0;
    let state = status_mapped(cfg, issue.status@)->Ok_0;
    let level = priority_mapped(cfg, issue.priority)->Ok_0;
    let enumerated = "SingleEnumIssueCustomField"@;
    let none: Option<String> = None;
    entries_on_the_wire("Type"@, enumerated, kind, none);
    entries_on_the_wire("State"@, "StateIssueCustomField"@, state, none);
    entries_on_the_wire("Priority"@, enumerated, level, none);
    entries_on_the_wire("Design"@, enumerated, level, issue.design);
    entries_on_the_wire("Acceptance Criteria"@, enumerated, level, issue.acceptance_criteria);
    entries_on_the_wire("Notes"@, enumerated, level, issue.notes);
    entries_on_the_wire("Close Reason"@, enumerated, level, issue.close_reason);
    let a = bundle_field("Type"@, enumerated, kind);
    let b = bundle_field("State"@, "StateIssueCustomField"@, state);
    let c = bundle_field("Priority"@, enumerated, level);
    let d = prose_entry("Design"@, text::seen(issue.design));
    let e = prose_entry("Acceptance Criteria"@, text::seen(issue.acceptance_criteria));
    let f = prose_entry("Notes"@, text::seen(issue.notes));
    let g = prose_entry("Close Reason"@, text::seen(issue.close_reason));
    let h = bead_field(issue.id@);
    wire_members("Type"@, enumerated, by_name(kind));
    wire_members("State"@, "StateIssueCustomField"@, by_name(state));
    wire_members("Priority"@, enumerated, by_name(level));
    wire_members("Design"@, "TextIssueCustomField"@, as_prose(issue.design));
    wire_members(
        "Acceptance Criteria"@,
        "TextIssueCustomField"@,
        as_prose(issue.acceptance_criteria),
    );
    wire_members("Notes"@, "TextIssueCustomField"@, as_prose(issue.notes));
    wire_members("Close Reason"@, "TextIssueCustomField"@, as_prose(issue.close_reason));
    wire_members("Beads ID"@, "SimpleIssueCustomField"@, JsonView::Text(issue.id@));
    one_found(fields.issue_type, a, "Type"@, want);
    one_found(fields.status, b, "State"@, want);
    one_found(fields.priority, c, "Priority"@, want);
    one_found(fields.design, d, "Design"@, want);
    one_found(fields.acceptance_criteria, e, "Acceptance Criteria"@, want);
    one_found(fields.notes, f, "Notes"@, want);
    one_found(fields.close_reason, g, "Close Reason"@, want);
    one_found(fields.beads_id, h, "Beads ID"@, want);
    first_of_eight(
        one_if(fields.issue_type, a),
        one_if(fields.status, b),
        one_if(fields.priority, c),
        one_if(fields.design, d),
        one_if(fields.acceptance_criteria, e),
        one_if(fields.notes, f),
        one_if(fields.close_reason, g),
        one_if(fields.beads_id, h),
        want,
    );
}

/// The first item that is found, or else the next.
spec fn or_else(a: Option<JsonView>, b: Option<JsonView>) -> Option<JsonView> {
    match a {
        Some(j) => Some(j),
        None => b,
    }
}

proof fn first_of_eight(
    a: Seq<JsonView>,
    b: Seq<JsonView>,
    c: Seq<JsonView>,
    d: Seq<JsonView>,
    e: Seq<JsonView>,
    f: Seq<JsonView>,
    g: Seq<JsonView>,
    h: Seq<JsonView>,
    want: Seq<char>,
)
    ensures
        ({
            let find = |s: Seq<JsonView>| json::first_with(s, "name"@, want);
            find(a + b + c + d + e + f + g + h) == or_else(
                find(a),
                or_else(
                    find(b),
                    or_else(
                        find(c),
                        or_else(
                            find(d),
                            or_else(find(e), or_else(find(f), or_else(find(g), find(h)))),
                        ),
                    ),
                ),
            )
        }),
{
    first_with_sum(a, b, "name"@, want);
    first_with_sum(a + b, c, "name"@, want);
    first_with_sum(a + b + c, d, "name"@, want);
    first_with_sum(a + b + c + d, e, "name"@, want);
    first_with_sum(a + b + c + d + e, f, "name"@, want);
    first_with_sum(a + b + c + d + e + f, g, "name"@, want);
    first_with_sum(a + b + c + d + e + f + g, h, "name"@, want);
}

proof fn updated_count(cfg: RemoteConfigView, issue: Issue, fields: FieldSet)
    ensures
        update_fields(cfg, issue, fields).len() == one_where(fields.issue_type) + one_where(
            fields.status,
        ) + one_where(fields.priority) + one_where(fields.design) + one_where(
            fields.acceptance_criteria,
        ) + one_where(fields.notes) + one_where(fields.close_reason) + one_where(fields.beads_id),
{
}

/// An update carries exactly the fields that are asked for: the title as
/// `summary`, the description under its own name, and each other field as the
/// custom field of its name, with the bead's own value. A type, a status and a
/// priority go under the name that the configuration maps them to. Absent
/// prose that is asked for is cleared.
pub proof fn update_carries_what_is_asked_for(
    cfg: RemoteConfigView,
    issue: Issue,
    fields: FieldSet,
)
    requires
        update_body(cfg, issue, fields) is Ok,
    ensures
        ({
            let body = update_body(cfg, issue, fields)->Ok_0;
            let kind = config::value_under(cfg.type_map, model::issue_type_name(issue.issue_type@));
            let state = config::value_under(cfg.status_map, model::status_name(issue.status@));
            let level = config::value_under(
                cfg.priority_map,
                text::decimal(issue.priority.0 as int),
            );
            &&& body is Object
            &&& json::member(body, "tags"@) is None
            &&& json::member(body, "summary"@) == (if fields.title {
                Some(JsonView::Text(issue.title@))
            } else {
                None
            })
            &&& json::member(body, "description"@) == (if fields.description {
                Some(
                    match issue.description {
                        Some(d) => JsonView::Text(d@),
                        None => JsonView::Null,
                    },
                )
            } else {
                None
            })
            &&& sets_field(
                body,
                fields.issue_type,
                "Type"@,
                "SingleEnumIssueCustomField"@,
                by_name(kind->0),
            )
            &&& sets_field(
                body,
                fields.status,
                "State"@,
                "StateIssueCustomField"@,
                by_name(state->0),
            )
            &&& sets_field(
                body,
                fields.priority,
                "Priority"@,
                "SingleEnumIssueCustomField"@,
                by_name(level->0),
            )
            &&& sets_field(
                body,
                fields.design,
                "Design"@,
                "TextIssueCustomField"@,
                as_prose(issue.design),
            )
            &&& sets_field(
                body,
                fields.acceptance_criteria,
                "Acceptance Criteria"@,
                "TextIssueCustomField"@,
                as_prose(issue.acceptance_criteria),
            )
            &&& sets_field(
                body,
                fields.notes,
                "Notes"@,
                "TextIssueCustomField"@,
                as_prose(issue.notes),
            )
            &&& sets_field(
                body,
                fields.close_reason,
                "Close Reason"@,
                "TextIssueCustomField"@,
                as_prose(issue.close_reason),
            )
            &&& sets_field(
                body,
                fields.beads_id,
                "Beads ID"@,
                "SimpleIssueCustomField"@,
                JsonView::Text(issue.id@),
            )
            &&& json::items_of(json::member(body, "customFields"@)).len() == one_where(
                fields.issue_type,
            ) + one_where(fields.status) + one_where(fields.priority) + one_where(fields.design)
                + one_where(fields.acceptance_criteria) + one_where(fields.notes) + one_where(
                fields.close_reason,
            ) + one_where(fields.beads_id)
            &&& fields.issue_type ==> kind is Some
            &&& fields.status ==> state is Some
            &&& fields.priority ==> level is Some
        }),
{
    field_names_differ();
    body_names_differ();
    let body = update_body(cfg, issue, fields)->Ok_0;
    let custom = update_fields(cfg, issue, fields);
    let description = match text::seen(issue.description) {
        Some(d) => JsonView::Text(d),
        None => JsonView::Null,
    };
    let a: Seq<(Seq<char>, JsonView)> = if fields.title {
        seq![("summary"@, JsonView::Text(issue.title@))]
    } else {
        Seq::empty()
    };
    let b: Seq<(Seq<char>, JsonView)> = if fields.description {
        seq![("description"@, description)]
    } else {
        Seq::empty()
    };
    let c: Seq<(Seq<char>, JsonView)> = if custom.len() > 0 {
        seq![("customFields"@, JsonView::Array(custom))]
    } else {
        Seq::empty()
    };
    assert(body->Object_0 =~= a + b + c);
    lookup_one(("summary"@, JsonView::Text(issue.title@)), "summary"@);
    lookup_one(("summary"@, JsonView::Text(issue.title@)), "description"@);
    lookup_one(("summary"@, JsonView::Text(issue.title@)), "customFields"@);
    lookup_one(("description"@, description), "summary"@);
    lookup_one(("description"@, description), "description"@);
    lookup_one(("description"@, description), "customFields"@);
    lookup_one(("customFields"@, JsonView::Array(custom)), "summary"@);
    lookup_one(("customFields"@, JsonView::Array(custom)), "description"@);
    lookup_one(("customFields"@, JsonView::Array(custom)), "customFields"@);
    lookup_one(("summary"@, JsonView::Text(issue.title@)), "tags"@);
    lookup_one(("description"@, description), "tags"@);
    lookup_one(("customFields"@, JsonView::Array(custom)), "tags"@);
    lookup_sum(a, b, "tags"@);
    lookup_sum(a + b, c, "tags"@);
    lookup_sum(a, b, "summary"@);
    lookup_sum(a + b, c, "summary"@);
    lookup_sum(a, b, "description"@);
    lookup_sum(a + b, c, "description"@);
    lookup_sum(a, b, "customFields"@);
    lookup_sum(a + b, c, "customFields"@);
    assert(json::items_of(json::member(body, "customFields"@)) =~= custom);
    updated_count(cfg, issue, fields);
    updated_field(cfg, issue, fields, "Type"@);
    updated_field(cfg, issue, fields, "State"@);
    updated_field(cfg, issue, fields, "Priority"@);
    updated_field(cfg, issue, fields, "Design"@);
    updated_field(cfg, issue, fields, "Acceptance Criteria"@);
    updated_field(cfg, issue, fields, "Notes"@);
    updated_field(cfg, issue, fields, "Close Reason"@);
    updated_field(cfg, issue, fields, "Beads ID"@);
    let kind = type_mapped(cfg, issue.issue_type@)->Ok_0;
    let state = status_mapped(cfg, issue.status@)->Ok_0;
    let level = priority_mapped(cfg, issue.priority)->Ok_0;
    wire_members("Type"@, "SingleEnumIssueCustomField"@, by_name(kind));
    wire_members("State"@, "StateIssueCustomField"@, by_name(state));
    wire_members("Priority"@, "SingleEnumIssueCustomField"@, by_name(level));
    wire_members("Design"@, "TextIssueCustomField"@, as_prose(issue.design));
    wire_members(
        "Acceptance Criteria"@,
        "TextIssueCustomField"@,
        as_prose(issue.acceptance_criteria),
    );
    wire_members("Notes"@, "TextIssueCustomField"@, as_prose(issue.notes));
    wire_members("Close Reason"@, "TextIssueCustomField"@, as_prose(issue.close_reason));
    wire_members("Beads ID"@, "SimpleIssueCustomField"@, JsonView::Text(issue.id@));
}

/// An update is refused exactly where it carries a type, a status or a
/// priority that the configuration does not map.
pub proof fn update_is_refused_for_unmapped_values(
    cfg: RemoteConfigView,
    issue: Issue,
    fields: FieldSet,
)
    ensures
        update_body(cfg, issue, fields) is Ok <==> {
            &&& fields.issue_type ==> config::value_under(
                cfg.type_map,
                model::issue_type_name(issue.issue_type@),
            ) is Some
            &&& fields.status ==> config::value_under(
                cfg.status_map,
                model::status_name(issue.status@),
            ) is Some
            &&& fields.priority ==> config::value_under(
                cfg.priority_map,
                text::decimal(issue.priority.0 as int),
            ) is Some
        },
{
}

/// A new issue is sent with the project, the bead's title and description, its
/// type, status and priority under the names that the configuration maps them
/// to, the prose that there is, and the identifier of the bead; each under its
/// own name, and nothing else.
pub proof fn creation_carries_every_field(
    cfg: RemoteConfigView,
    project_id: Seq<char>,
    issue: Issue,
)
    requires
        create_body(cfg, project_id, issue) is Ok,
    ensures
        ({
            let body = create_body(cfg, project_id, issue)->Ok_0;
            let kind = config::value_under(cfg.type_map, model::issue_type_name(issue.issue_type@));
            let state = config::value_under(cfg.status_map, model::status_name(issue.status@));
            let level = config::value_under(
                cfg.priority_map,
                text::decimal(issue.priority.0 as int),
            );
            &&& json::nested_text(body, "project"@, "id"@) == Some(project_id)
            &&& json::member(body, "summary"@) == Some(JsonView::Text(issue.title@))
            &&& json::member(body, "description"@) == (match issue.description {
                Some(d) => Some(JsonView::Text(d@)),
                None => None,
            })
            &&& kind is Some && sets_field(
                body,
                true,
                "Type"@,
                "SingleEnumIssueCustomField"@,
                by_name(kind->0),
            )
            &&& state is Some && sets_field(
                body,
                true,
                "State"@,
                "StateIssueCustomField"@,
                by_name(state->0),
            )
            &&& level is Some && sets_field(
                body,
                true,
                "Priority"@,
                "SingleEnumIssueCustomField"@,
                by_name(level->0),
            )
            &&& sets_field(
                body,
                issue.design is Some,
                "Design"@,
                "TextIssueCustomField"@,
                as_prose(issue.design),
            )
            &&& sets_field(
                body,
                issue.acceptance_criteria is Some,
                "Acceptance Criteria"@,
                "TextIssueCustomField"@,
                as_prose(issue.acceptance_criteria),
            )
            &&& sets_field(
                body,
                issue.notes is Some,
                "Notes"@,
                "TextIssueCustomField"@,
                as_prose(issue.notes),
            )
            &&& sets_field(
                body,
                issue.close_reason is Some,
                "Close Reason"@,
                "TextIssueCustomField"@,
                as_prose(issue.close_reason),
            )
            &&& sets_field(
                body,
                true,
                "Beads ID"@,
                "SimpleIssueCustomField"@,
                JsonView::Text(issue.id@),
            )
            &&& json::items_of(json::member(body, "customFields"@)).len() == 4 + one_where(
                issue.design is Some,
            ) + one_where(issue.acceptance_criteria is Some) + one_where(issue.notes is Some)
                + one_where(issue.close_reason is Some)
        }),
{
    field_names_differ();
    body_names_differ();
    let body = create_body(cfg, project_id, issue)->Ok_0;
    let custom = create_fields(cfg, issue);
    let project = ("project"@, JsonView::Object(seq![("id"@, JsonView::Text(project_id))]));
    let summary = ("summary"@, JsonView::Text(issue.title@));
    let fields = ("customFields"@, JsonView::Array(custom));
    let d: Seq<(Seq<char>, JsonView)> = match text::seen(issue.description) {
        Some(d) => seq![("description"@, JsonView::Text(d))],
        None => Seq::empty(),
    };
    assert(body->Object_0 =~= seq![project, summary, fields] + d);
    assert(seq![project, summary, fields] =~= seq![project] + seq![summary] + seq![fields]);
    let two = seq![project] + seq![summary];
    let three = two + seq![fields];
    lookup_three(project, summary, fields);
    lookup_sum(three, d, "project"@);
    lookup_sum(three, d, "summary"@);
    lookup_sum(three, d, "customFields"@);
    lookup_sum(three, d, "description"@);
    lookup_sum(two, seq![fields], "description"@);
    lookup_sum(seq![project], seq![summary], "description"@);
    lookup_one(project, "description"@);
    lookup_one(summary, "description"@);
    lookup_one(fields, "description"@);
    lookup_one(("description"@, JsonView::Text(text::seen(issue.description)->0)), "description"@);
    lookup_one(("id"@, JsonView::Text(project_id)), "id"@);
    created_wire(cfg, project_id, issue);
    assert(custom.len() == 4 + one_where(issue.design is Some) + one_where(
        issue.acceptance_criteria is Some,
    ) + one_where(issue.notes is Some) + one_where(issue.close_reason is Some));
}

proof fn created_wire(cfg: RemoteConfigView, project_id: Seq<char>, issue: Issue)
    requires
        create_body(cfg, project_id, issue) is Ok,
    ensures
        ({
            let body = create_body(cfg, project_id, issue)->Ok_0;
            let text_class = "TextIssueCustomField"@;
            &&& sets_field(
                body,
                true,
                "Type"@,
                "SingleEnumIssueCustomField"@,
                by_name(type_mapped(cfg, issue.issue_type@)->Ok_0),
            )
            &&& sets_field(
                body,
                true,
                "State"@,
                "StateIssueCustomField"@,
                by_name(status_mapped(cfg, issue.status@)->Ok_0),
            )
            &&& sets_field(
                body,
                true,
                "Priority"@,
                "SingleEnumIssueCustomField"@,
                by_name(priority_mapped(cfg, issue.priority)->Ok_0),
            )
            &&& sets_field(
                body,
                issue.design is Some,
                "Design"@,
                text_class,
                as_prose(issue.design),
            )
            &&& sets_field(
                body,
                issue.acceptance_criteria is Some,
                "Acceptance Criteria"@,
                text_class,
                as_prose(issue.acceptance_criteria),
            )
            &&& sets_field(body, issue.notes is Some, "Notes"@, text_class, as_prose(issue.notes))
            &&& sets_field(
                body,
                issue.close_reason is Some,
                "Close Reason"@,
                text_class,
                as_prose(issue.close_reason),
            )
            &&& sets_field(
                body,
                true,
                "Beads ID"@,
                "SimpleIssueCustomField"@,
                JsonView::Text(issue.id@),
            )
        }),
{
    field_names_differ();
    let kind = type_mapped(cfg, issue.issue_type@)->Ok_0;
    let state = status_mapped(cfg, issue.status@)->Ok_0;
    let level = priority_mapped(cfg, issue.priority)->Ok_0;
    let enumerated = "SingleEnumIssueCustomField"@;
    let none: Option<String> = None;
    created_value(cfg, project_id, issue, "Type"@);
    created_field(cfg, issue, "Type"@);
    entries_on_the_wire("Type"@, enumerated, kind, none);
    wire_members("Type"@, enumerated, by_name(kind));
    created_value(cfg, project_id, issue, "State"@);
    created_field(cfg, issue, "State"@);
    entries_on_the_wire("State"@, "StateIssueCustomField"@, state, none);
    wire_members("State"@, "StateIssueCustomField"@, by_name(state));
    created_value(cfg, project_id, issue, "Priority"@);
    created_field(cfg, issue, "Priority"@);
    entries_on_the_wire("Priority"@, enumerated, level, none);
    wire_members("Priority"@, enumerated, by_name(level));
    created_value(cfg, project_id, issue, "Design"@);
    created_field(cfg, issue, "Design"@);
    entries_on_the_wire("Design"@, enumerated, level, issue.design);
    wire_members("Design"@, "TextIssueCustomField"@, as_prose(issue.design));
    created_value(cfg, project_id, issue, "Acceptance Criteria"@);
    created_field(cfg, issue, "Acceptance Criteria"@);
    entries_on_the_wire("Acceptance Criteria"@, enumerated, level, issue.acceptance_criteria);
    wire_members(
        "Acceptance Criteria"@,
        "TextIssueCustomField"@,
        as_prose(issue.acceptance_criteria),
    );
    created_value(cfg, project_id, issue, "Notes"@);
    created_field(cfg, issue, "Notes"@);
    entries_on_the_wire("Notes"@, enumerated, level, issue.notes);
    wire_members("Notes"@, "TextIssueCustomField"@, as_prose(issue.notes));
    created_value(cfg, project_id, issue, "Close Reason"@);
    created_field(cfg, issue, "Close Reason"@);
    entries_on_the_wire("Close Reason"@, enumerated, level, issue.close_reason);
    wire_members("Close Reason"@, "TextIssueCustomField"@, as_prose(issue.close_reason));
    created_value(cfg, project_id, issue, "Beads ID"@);
    created_field(cfg, issue, "Beads ID"@);
    wire_members("Beads ID"@, "SimpleIssueCustomField"@, JsonView::Text(issue.id@));
}

/// What a fetched issue says is read field by field, each under its own name:
/// prose from the text of its custom field, the identifier of the bead from the
/// bare value, a state, a type and a priority through the configuration, whose
/// key of that value names the status, the type or the number.
pub proof fn each_field_is_read_under_its_name(cfg: RemoteConfigView, raw: JsonView)
    requires
        fields_read(cfg, raw) is Ok,
    ensures
        ({
            let f = fields_read(cfg, raw)->Ok_0;
            let text_of = |name: Seq<char>|
                match custom_value(raw, name) {
                    Some(value) => json::text_at(value, "text"@),
                    None => None,
                };
            let name_of = |name: Seq<char>|
                match custom_value(raw, name) {
                    Some(value) => json::text_at(value, "name"@),
                    None => None,
                };
            &&& json::text_at(raw, "summary"@) matches Some(s) ==> f.title == s
            &&& json::text_at(raw, "summary"@) is None ==> f.title.len() == 0
            &&& f.description == json::text_at(raw, "description"@)
            &&& f.design == text_of("Design"@)
            &&& f.acceptance_criteria == text_of("Acceptance Criteria"@)
            &&& f.notes == text_of("Notes"@)
            &&& f.close_reason == text_of("Close Reason"@)
            &&& f.beads_id == (match custom_value(raw, "Beads ID"@) {
                Some(JsonView::Text(id)) => Some(id),
                _ => None,
            })
            &&& match name_of("State"@) {
                None => f.status is Open,
                Some(name) => config::key_over(cfg.status_map, name) matches Some(key)
                    && model::status_named(text::lower(key)) == Some(f.status),
            }
            &&& match name_of("Type"@) {
                None => f.issue_type is Task,
                Some(name) => config::key_over(cfg.type_map, name) matches Some(key)
                    && model::issue_type_named(text::lower(key)) == Some(f.issue_type),
            }
            &&& match name_of("Priority"@) {
                None => f.priority.0 == 2,
                Some(name) => config::key_over(cfg.priority_map, name) matches Some(key)
                    && config::priority_key(key) == Some(f.priority.0 as int),
            }
        }),
{
    if let Some(name) = bundle_value(raw, "Priority"@) {
        if let Some(key) = config::key_over(cfg.priority_map, name) {
            digits_are_not_negative(key);
        }
    }
}

/// With a configuration that passes its check, a known status other than a
/// tombstone, a known type and each of the five priorities are mapped, and
/// what they are mapped to is read back as they are.
pub proof fn mapped_values_lead_back(cfg: RemoteConfigView, issue: Issue)
    requires
        config::config_refusal(cfg) is None,
        !(issue.status@ is Custom),
        !(issue.status@ is Tombstone),
        !(issue.issue_type@ is Custom),
        0 <= issue.priority.0 <= 4,
    ensures
        config::value_under(cfg.status_map, model::status_name(issue.status@)) matches Some(v)
            && config::key_over(cfg.status_map, v) matches Some(key) && model::status_named(
            text::lower(key),
        ) == Some(issue.status@),
        config::value_under(cfg.type_map, model::issue_type_name(issue.issue_type@)) matches Some(v)
            && config::key_over(cfg.type_map, v) matches Some(key) && model::issue_type_named(
            text::lower(key),
        ) == Some(issue.issue_type@),
        config::value_under(cfg.priority_map, text::decimal(issue.priority.0 as int)) matches Some(
            v,
        ) && config::key_over(cfg.priority_map, v) matches Some(key) && config::priority_key(key)
            == Some(issue.priority.0 as int),
{
    config::valid_config_round_trips(cfg);
    model::status_reads_back(issue.status@);
    model::issue_type_reads_back(issue.issue_type@);
    model::priority_reads_back(issue.priority);
    known_values_are_required(issue.status@, issue.issue_type@, issue.priority);
    assert(config::value_under(cfg.status_map, model::status_name(issue.status@)) is Some);
    assert(config::value_under(cfg.type_map, model::issue_type_name(issue.issue_type@)) is Some);
    assert(config::value_under(cfg.priority_map, text::decimal(issue.priority.0 as int)) is Some);
}

/// A value that is set by its name has that name, and prose that is set says
/// what it says.
pub proof fn set_values_say_what_they_say(name: Seq<char>, prose: Option<String>)
    ensures
        json::text_at(by_name(name), "name"@) == Some(name),
        json::text_at(as_prose(prose), "text"@) == text::seen(prose),
{
    sole_member("name"@, name);
    if let Some(s) = prose {
        sole_member("text"@, s@);
    }
}

/// Tags that are added to a body leave its other parts alone.
pub proof fn other_parts_stay(entries: Seq<(Seq<char>, JsonView)>, tags: JsonView)
    ensures
        ({
            let before = JsonView::Object(entries);
            let after = JsonView::Object(entries.push(("tags"@, tags)));
            &&& json::member(after, "summary"@) == json::member(before, "summary"@)
            &&& json::member(after, "description"@) == json::member(before, "description"@)
            &&& json::member(after, "customFields"@) == json::member(before, "customFields"@)
            &&& json::member(before, "tags"@) is None ==> json::member(after, "tags"@) == Some(tags)
        }),
{
    body_names_differ();
    let one = ("tags"@, tags);
    assert(entries.push(one) =~= entries + seq![one]);
    lookup_sum(entries, seq![one], "summary"@);
    lookup_sum(entries, seq![one], "description"@);
    lookup_sum(entries, seq![one], "customFields"@);
    lookup_sum(entries, seq![one], "tags"@);
    lookup_one(one, "summary"@);
    lookup_one(one, "description"@);
    lookup_one(one, "customFields"@);
    lookup_one(one, "tags"@);
}

/// The `i`-th custom field of the issue is the first one of this name.
pub open spec fn is_first_field(raw: JsonView, name: Seq<char>, i: int) -> bool {
    let all = json::items_of(json::member(raw, "customFields"@));
    &&& 0 <= i < all.len()
    &&& json::says(all[i], "name"@, name)
    &&& forall|j: int| 0 <= j < i ==> !json::says(#[trigger] all[j], "name"@, name)
}

/// The value of a custom field is that of the first field of its name, wherever
/// it stands among the others; and there is none where no field has the name.
pub proof fn custom_values_are_found_by_name(raw: JsonView, name: Seq<char>, i: int)
    ensures
        is_first_field(raw, name, i) ==> custom_value(raw, name) == json::member(
            json::items_of(json::member(raw, "customFields"@))[i],
            "value"@,
        ),
        (forall|j: int|
            0 <= j < json::items_of(json::member(raw, "customFields"@)).len() ==> !json::says(
                #[trigger] json::items_of(json::member(raw, "customFields"@))[j],
                "name"@,
                name,
            )) ==> custom_value(raw, name) is None,
{
    let all = json::items_of(json::member(raw, "customFields"@));
    json::first_item_that_says_it(all, "name"@, name);
    if is_first_field(raw, name, i) {
        let v = json::first_with(all, "name"@, name)->0;
        let k = choose|k: int|
            0 <= k < all.len() && #[trigger] all[k] == v && json::says(v, "name"@, name) && forall|
                j: int,
            |
                0 <= j < k ==> !json::says(#[trigger] all[j], "name"@, name);
        assert(i == k) by {
            if i < k {
                assert(!json::says(all[i], "name"@, name));
            } else if k < i {
                assert(!json::says(all[k], "name"@, name));
            }
        }
    }
}

/// An issue cannot be read exactly where its state, its type or its priority
/// bears a name that no key of its map leads to; and what is refused then is
/// that very value, with its field and the map to add it to.
pub proof fn unmapped_values_are_refused_by_name(cfg: RemoteConfigView, raw: JsonView)
    ensures
        fields_read(cfg, raw) matches Err(u) ==> {
            &&& bundle_value(raw, u.field) == Some(u.value)
            &&& (u.field == "State"@ && u.config_key == "status_map"@) || (u.field == "Type"@
                && u.config_key == "type_map"@) || (u.field == "Priority"@ && u.config_key
                == "priority_map"@)
            &&& u.config_key == "status_map"@ ==> !(config::key_over(
                cfg.status_map,
                u.value,
            ) matches Some(key) && model::status_named(text::lower(key)) is Some)
            &&& u.config_key == "type_map"@ ==> !(config::key_over(
                cfg.type_map,
                u.value,
            ) matches Some(key) && model::issue_type_named(text::lower(key)) is Some)
            &&& u.config_key == "priority_map"@ ==> !(config::key_over(
                cfg.priority_map,
                u.value,
            ) matches Some(key) && config::priority_key(key) is Some)
        },
        bundle_value(raw, "State"@) matches Some(v) ==> (config::key_over(cfg.status_map, v) is None
            ==> fields_read(cfg, raw) is Err),
        bundle_value(raw, "Type"@) matches Some(v) ==> (config::key_over(cfg.type_map, v) is None
            ==> fields_read(cfg, raw) is Err),
        bundle_value(raw, "Priority"@) matches Some(v) ==> (config::key_over(
            cfg.priority_map,
            v,
        ) is None ==> fields_read(cfg, raw) is Err),
{
    reveal_strlit("status_map");
    reveal_strlit("type_map");
    reveal_strlit("priority_map");
    assert("status_map"@.len() == 10 && "type_map"@.len() == 8 && "priority_map"@.len() == 12);
}

} // verus!
