//! Errors raised on the way to and from the mirror.

use crate::error::BeadsError;
use crate::json;
use crate::json::read_json;
use crate::text;
use crate::text::{decimal_of, same_text};
use vstd::prelude::*;
use vstd::string::*;

verus! {

broadcast use vstd::string::group_string_axioms;

/// What can go wrong between the workspace and its mirror.
#[derive(Debug, Clone, PartialEq, Eq)]
pub enum RemoteError {
    /// The mirror answered with a status outside the 200s.
    Http { status: u16, body: String },
    /// What was to be created is there already.
    AlreadyExists { entity: String },
    /// No answer, or one that could not be read.
    Transport(String),
    /// The configuration and the mirror do not fit together.
    Config(String),
}

/// What contracts say of a [`RemoteError`].
pub enum RemoteErrorView {
    Http { status: u16, body: Seq<char> },
    AlreadyExists { entity: Seq<char> },
    Transport(Seq<char>),
    Config(Seq<char>),
}

impl View for RemoteError {
    type V = RemoteErrorView;

    open spec fn view(&self) -> RemoteErrorView {
        match self {
            RemoteError::Http { status, body } => RemoteErrorView::Http {
                status: *status,
                body: body@,
            },
            RemoteError::AlreadyExists { entity } => RemoteErrorView::AlreadyExists {
                entity: entity@,
            },
            RemoteError::Transport(reason) => RemoteErrorView::Transport(reason@),
            RemoteError::Config(reason) => RemoteErrorView::Config(reason@),
        }
    }
}

/// Only a rate limit and the failures of the server itself may pass on their
/// own.
pub open spec fn may_pass(e: RemoteErrorView) -> bool {
    e matches RemoteErrorView::Http { status, .. } && (status == 429 || 500 <= status < 600)
}

/// The error in words.
pub open spec fn error_text(e: RemoteErrorView) -> Seq<char> {
    match e {
        RemoteErrorView::Http { status, body } => "remote returned HTTP "@ + text::decimal(
            status as int,
        ) + ": "@ + body,
        RemoteErrorView::AlreadyExists { entity } => entity + " already exists"@,
        RemoteErrorView::Transport(reason) => "transport error: "@ + reason,
        RemoteErrorView::Config(reason) => "remote configuration error: "@ + reason,
    }
}

/// What a body, read as JSON, says of a status outside the 200s: a body that
/// names the error `must-be-unique` means that the entity exists already.
pub open spec fn response_error(
    status: u16,
    body: Seq<char>,
    reading: Result<json::JsonView, Seq<char>>,
    entity: Seq<char>,
) -> RemoteErrorView {
    if reading matches Ok(value) && json::text_at(value, "error"@) == Some("must-be-unique"@) {
        RemoteErrorView::AlreadyExists { entity }
    } else {
        RemoteErrorView::Http { status, body }
    }
}

impl RemoteError {
    /// Whether sending the same request again could help.
    pub fn is_retryable(&self) -> (r: bool)
        ensures
            r == may_pass(self@),
    {
        match self {
            RemoteError::Http { status, .. } => *status == 429 || (500 <= *status && *status < 600),
            _ => false,
        }
    }

    /// Classifies a response with a status outside the 200s. `entity` names
    /// what was to be created or changed.
    pub fn from_response(status: u16, body: &str, entity: &str) -> (r: RemoteError)
        ensures
            r@ == response_error(status, body@, json::json_reading(body@), entity@),
    {
        RemoteError::from_reading(status, body, read_json(body), entity)
    }

    /// Classifies a response with a status outside the 200s whose body has
    /// been read as JSON, or not.
    pub fn from_reading(
        status: u16,
        body: &str,
        reading: Result<json::Json, String>,
        entity: &str,
    ) -> (r: RemoteError)
        ensures
            r@ == response_error(
                status,
                body@,
                match reading {
                    Ok(j) => Ok(j@),
                    Err(e) => Err(e@),
                },
                entity@,
            ),
    {
        if let Ok(value) = reading {
            if let Some(name) = value.text_at("error") {
                if same_text(name, "must-be-unique") {
                    return RemoteError::AlreadyExists { entity: entity.to_owned() };
                }
            }
        }
        RemoteError::Http { status, body: body.to_owned() }
    }

    /// The error in words.
    pub fn to_string(&self) -> (r: String)
        ensures
            r@ == error_text(self@),
    {
        match self {
            RemoteError::Http { status, body } => {
                let mut out = "remote returned HTTP ".to_owned();
                out.append(decimal_of(*status as u64).as_str());
                out.append(": ");
                out.append(body.as_str());
                out
            },
            RemoteError::AlreadyExists { entity } => {
                let mut out = entity.clone();
                out.append(" already exists");
                out
            },
            RemoteError::Transport(reason) => {
                let mut out = "transport error: ".to_owned();
                out.append(reason.as_str());
                out
            },
            RemoteError::Config(reason) => {
                let mut out = "remote configuration error: ".to_owned();
                out.append(reason.as_str());
                out
            },
        }
    }

    /// The error as one of the tracker's own.
    pub fn into_beads_error(self) -> (r: BeadsError)
        ensures
            r@ == (crate::error::BeadsErrorView::ExternalCommand {
                command: "br remote"@,
                reason: error_text(self@),
            }),
    {
        BeadsError::ExternalCommand { command: "br remote".to_owned(), reason: self.to_string() }
    }

    /// An equal error.
    pub fn copy(&self) -> (r: RemoteError)
        ensures
            r@ == self@,
    {
        match self {
            RemoteError::Http { status, body } => RemoteError::Http {
                status: *status,
                body: body.clone(),
            },
            RemoteError::AlreadyExists { entity } => RemoteError::AlreadyExists {
                entity: entity.clone(),
            },
            RemoteError::Transport(reason) => RemoteError::Transport(reason.clone()),
            RemoteError::Config(reason) => RemoteError::Config(reason.clone()),
        }
    }
}

/// What contracts say of a result that may be refused.
pub open spec fn seen_result<T: View>(r: Result<T, RemoteError>) -> Result<T::V, RemoteErrorView> {
    match r {
        Ok(x) => Ok(x@),
        Err(e) => Err(e@),
    }
}

} // verus!
