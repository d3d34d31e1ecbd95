//! One issue of the mirror, in a shape that knows nothing of the wire.

use crate::json::{Json, JsonView};
use crate::model::{IssueType, Priority, Status};
use crate::remote::youtrack::links::{copy_links, RemoteLink, RemoteLinkView};
use crate::remote::youtrack::mapping::{RemoteIssueFields, RemoteIssueFieldsView};
use crate::text;
use crate::text::{copy_optional, copy_texts, split};
use crate::time::Timestamp;
use vstd::prelude::*;
use vstd::string::*;

verus! {

broadcast use vstd::string::group_string_axioms;

/// An issue of the mirror that could not be read, and why.
#[derive(Debug, Clone, PartialEq, Eq)]
pub struct UnmappableIssue {
    pub id_readable: String,
    pub reason: String,
}

/// What contracts say of an [`UnmappableIssue`].
pub struct UnmappableIssueView {
    pub id_readable: Seq<char>,
    pub reason: Seq<char>,
}

impl View for UnmappableIssue {
    type V = UnmappableIssueView;

    open spec fn view(&self) -> UnmappableIssueView {
        UnmappableIssueView { id_readable: self.id_readable@, reason: self.reason@ }
    }
}

/// The issues of the mirror that could be read, and those that could not.
#[derive(Debug, Clone, PartialEq, Eq)]
pub struct RemoteSnapshot {
    pub issues: Vec<RemoteIssue>,
    pub unmappable: Vec<UnmappableIssue>,
}

impl Default for RemoteSnapshot {
    fn default() -> (r: RemoteSnapshot)
        ensures
            r.issues@.len() == 0,
            r.unmappable@.len() == 0,
    {
        RemoteSnapshot { issues: Vec::new(), unmappable: Vec::new() }
    }
}

/// One issue of the mirror.
#[derive(Debug, Clone, PartialEq, Eq)]
pub struct RemoteIssue {
    /// Internal identifier, e.g. `"3-24"`. A link is removed by it.
    pub id: String,
    /// Readable identifier, e.g. `"EM-5"`. This is what a bead's
    /// `external_ref` holds.
    pub id_readable: String,
    pub summary: String,
    pub description: Option<String>,
    pub updated: Timestamp,
    pub comments_count: u32,
    pub labels: Vec<String>,
    pub links: Vec<RemoteLink>,
    pub fields: RemoteIssueFields,
    /// The custom fields as they were fetched, from which an adoption reads
    /// the issue again.
    pub raw_custom_fields: Json,
}

/// What contracts say of a [`RemoteIssue`].
pub struct RemoteIssueView {
    pub id: Seq<char>,
    pub id_readable: Seq<char>,
    pub summary: Seq<char>,
    pub description: Option<Seq<char>>,
    pub updated: Timestamp,
    pub comments_count: u32,
    pub labels: Seq<Seq<char>>,
    pub links: Seq<RemoteLinkView>,
    pub fields: RemoteIssueFieldsView,
    pub raw_custom_fields: JsonView,
}

impl View for RemoteIssue {
    type V = RemoteIssueView;

    open spec fn view(&self) -> RemoteIssueView {
        RemoteIssueView {
            id: self.id@,
            id_readable: self.id_readable@,
            summary: self.summary@,
            description: text::seen(self.description),
            updated: self.updated,
            comments_count: self.comments_count,
            labels: text::views(self.labels@),
            links: text::views(self.links@),
            fields: self.fields@,
            raw_custom_fields: self.raw_custom_fields@,
        }
    }
}

impl RemoteIssue {
    /// An issue with nothing but identifiers: the readable one, and an
    /// internal one made from what stands behind its last hyphen.
    pub fn for_test(id_readable: &str) -> (r: RemoteIssue)
        ensures
            r.id@ == "3-"@ + text::split_on(id_readable@, '-').last(),
            r.id_readable@ == id_readable@,
            r.summary@.len() == 0,
            r.description is None,
            r.updated == (Timestamp { secs: 0, nanos: 0 }),
            r.comments_count == 0,
            r.labels@.len() == 0,
            r.links@.len() == 0,
            r.fields.title@.len() == 0,
            r.fields.description is None,
            r.fields.status@ is Open,
            r.fields.issue_type@ is Task,
            r.fields.priority == Priority(2),
            r.fields.design is None,
            r.fields.acceptance_criteria is None,
            r.fields.notes is None,
            r.fields.close_reason is None,
            r.fields.beads_id is None,
            r.raw_custom_fields@ is Null,
    {
        let parts = split(id_readable, '-');
        let mut id = "3-".to_owned();
        id.append(parts[parts.len() - 1].as_str());
        assert(text::views(parts@).last() == parts@[parts@.len() - 1]@);
        RemoteIssue {
            id,
            id_readable: id_readable.to_owned(),
            summary: String::new(),
            description: None,
            updated: Timestamp { secs: 0, nanos: 0 },
            comments_count: 0,
            labels: Vec::new(),
            links: Vec::new(),
            fields: RemoteIssueFields {
                title: String::new(),
                description: None,
                status: Status::Open,
                issue_type: IssueType::Task,
                priority: Priority(2),
                design: None,
                acceptance_criteria: None,
                notes: None,
                close_reason: None,
                beads_id: None,
            },
            raw_custom_fields: Json::Null,
        }
    }
}

impl RemoteIssue {
    /// An equal issue.
    pub fn copy(&self) -> (r: RemoteIssue)
        ensures
            r@ == self@,
    {
        RemoteIssue {
            id: self.id.clone(),
            id_readable: self.id_readable.clone(),
            summary: self.summary.clone(),
            description: copy_optional(&self.description),
            updated: self.updated,
            comments_count: self.comments_count,
            labels: copy_texts(&self.labels),
            links: copy_links(&self.links),
            fields: self.fields.copy(),
            raw_custom_fields: self.raw_custom_fields.copy(),
        }
    }
}

} // verus!
