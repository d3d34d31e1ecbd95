//! An issue that somebody made on the mirror becomes a bead.
//!
//! It is taken over whole, once, and is an ordinary mirrored bead from then
//! on. The bead is authoritative from the moment it is paired, so a value
//! that cannot be read refuses the issue by name: a value made up here would
//! be written over the real one by the next push.
//!
//! Parents are taken over before their children, so that a child gets its
//! identifier from its parent and is never renamed.

use crate::error::{BeadsError, BeadsErrorView};
use crate::json::{entry, object_3, text_value, Json, JsonView};
use crate::model::{Dependency, DependencyType, DependencyTypeView, DependencyView, Issue};
use crate::order;
use crate::remote::comments;
use crate::remote::comments::{is_br_echo, RemoteComment, RemoteCommentView, YOUTRACK_AUTHOR};
use crate::remote::config::{RemoteConfig, RemoteConfigView};
use crate::remote::diff;
use crate::remote::error;
use crate::remote::error::{RemoteError, RemoteErrorView};
use crate::remote::link_diff;
use crate::remote::link_diff::{direction_tag, mirrored_direction};
use crate::remote::model::{RemoteIssue, RemoteIssueView};
use crate::remote::plan;
use crate::remote::youtrack::fetch;
use crate::remote::youtrack::links::{
    LinkKind, LinkTypesView, LinkedIssueView, RemoteLink, RemoteLinkView,
};
use crate::remote::youtrack::mapping;
use crate::remote::youtrack::mapping::{
    reverse_fields_structured, RemoteIssueFields, RemoteIssueFieldsView,
};
use crate::text;
use crate::text::{copy_optional, copy_texts, decimal_of, find_last, same_text, trim};
use crate::time::Timestamp;
use vstd::prelude::*;
use vstd::string::*;

verus! {

broadcast use vstd::string::group_string_axioms;

/// An issue that no bead names, and the fields that it was read into.
#[derive(Debug, Clone, PartialEq, Eq)]
pub struct AdoptionCandidate {
    pub remote: RemoteIssue,
    pub fields: RemoteIssueFields,
}

/// What contracts say of an [`AdoptionCandidate`].
pub struct AdoptionCandidateView {
    pub remote: RemoteIssueView,
    pub fields: RemoteIssueFieldsView,
}

impl View for AdoptionCandidate {
    type V = AdoptionCandidateView;

    open spec fn view(&self) -> AdoptionCandidateView {
        AdoptionCandidateView { remote: self.remote@, fields: self.fields@ }
    }
}

/// An issue that cannot be read, with everything that is needed to mend that.
#[derive(Debug, Clone, PartialEq, Eq)]
pub struct RefusedAdoption {
    pub id_readable: String,
    /// The field's name, e.g. `Type`.
    pub field: String,
    /// The value, e.g. `User Story`.
    pub value: String,
    /// The map of the configuration that would cover it, e.g. `type_map`.
    pub config_key: String,
}

/// What contracts say of a [`RefusedAdoption`].
pub struct RefusedAdoptionView {
    pub id_readable: Seq<char>,
    pub field: Seq<char>,
    pub value: Seq<char>,
    pub config_key: Seq<char>,
}

impl View for RefusedAdoption {
    type V = RefusedAdoptionView;

    open spec fn view(&self) -> RefusedAdoptionView {
        RefusedAdoptionView {
            id_readable: self.id_readable@,
            field: self.field@,
            value: self.value@,
            config_key: self.config_key@,
        }
    }
}

/// The refusal in words: issue, field, value and remedy.
pub open spec fn refusal_text(r: RefusedAdoptionView) -> Seq<char> {
    r.id_readable + ": "@ + r.field + " '"@ + r.value
        + "' has no beads mapping — add an entry to "@ + r.config_key
        + " in remote.yaml and the next run will offer this issue again"@
}

impl RefusedAdoption {
    /// One line with the issue, the field, the value and the remedy.
    pub fn render(&self) -> (r: String)
        ensures
            r@ == refusal_text(self@),
    {
        let mut out = self.id_readable.clone();
        out.append(": ");
        out.append(self.field.as_str());
        out.append(" '");
        out.append(self.value.as_str());
        out.append("' has no beads mapping — add an entry to ");
        out.append(self.config_key.as_str());
        out.append(" in remote.yaml and the next run will offer this issue again");
        out
    }

    /// The refusal as a plan lists it.
    pub fn into_planned(self) -> (r: plan::RefusedAdoption)
        ensures
            r@ == (plan::RefusedAdoptionView {
                remote_id: self.id_readable@,
                reason: refusal_text(self@),
            }),
    {
        let reason = self.render();
        plan::RefusedAdoption { remote_id: self.id_readable, reason }
    }
}

/// The part of a fetched issue that its fields are read from.
pub open spec fn kept_body(issue: RemoteIssueView) -> JsonView {
    JsonView::Object(
        seq![
            ("summary"@, JsonView::Text(issue.summary)),
            (
                "description"@,
                match issue.description {
                    Some(d) => JsonView::Text(d),
                    None => JsonView::Null,
                },
            ),
            ("customFields"@, issue.raw_custom_fields),
        ],
    )
}

/// Whether an issue can be taken over, and what it was read into.
pub open spec fn adoption_read(cfg: RemoteConfigView, issue: RemoteIssueView) -> Result<
    AdoptionCandidateView,
    RefusedAdoptionView,
> {
    match mapping::fields_read(cfg, kept_body(issue)) {
        Ok(fields) => Ok(AdoptionCandidateView { remote: issue, fields }),
        Err(u) => Err(
            RefusedAdoptionView {
                id_readable: issue.id_readable,
                field: u.field,
                value: u.value,
                config_key: u.config_key,
            },
        ),
    }
}

/// Decides whether an issue that no bead names can be taken over. Every value
/// is read again from what was fetched: an absent one is the usual one, and
/// one that no map covers refuses the issue.
pub fn classify_adoption(cfg: &RemoteConfig, issue: &RemoteIssue) -> (r: Result<
    AdoptionCandidate,
    RefusedAdoption,
>)
    ensures
        (match r {
            Ok(c) => Ok(c@),
            Err(e) => Err(e@),
        }) == adoption_read(cfg@, issue@),
{
    let description = match &issue.description {
        Some(d) => text_value(d.as_str()),
        None => Json::Null,
    };
    let raw = object_3(
        entry("summary", text_value(issue.summary.as_str())),
        entry("description", description),
        entry("customFields", issue.raw_custom_fields.copy()),
    );
    assert(raw@->Object_0 =~= kept_body(issue@)->Object_0);
    match reverse_fields_structured(cfg, &raw) {
        Ok(fields) => Ok(AdoptionCandidate { remote: issue.copy(), fields }),
        Err(unmapped) => Err(
            RefusedAdoption {
                id_readable: issue.id_readable.clone(),
                field: unmapped.field,
                value: unmapped.value,
                config_key: unmapped.config_key,
            },
        ),
    }
}

/// An issue that was fetched and read is read into the same fields again when
/// it is taken over: nothing that the fields depend on is lost on the way.
pub proof fn adoption_agrees_with_fetch(
    cfg: RemoteConfigView,
    types: LinkTypesView,
    raw: JsonView,
)
    requires
        fetch::issue_read(cfg, types, raw) is Ok,
    ensures
        adoption_read(cfg, fetch::issue_read(cfg, types, raw)->Ok_0) == Ok::<
            AdoptionCandidateView,
            RefusedAdoptionView,
        >(
            AdoptionCandidateView {
                remote: fetch::issue_read(cfg, types, raw)->Ok_0,
                fields: fetch::issue_read(cfg, types, raw)->Ok_0.fields,
            },
        ),
{
    let issue = fetch::issue_read(cfg, types, raw)->Ok_0;
    let body = kept_body(issue);
    let entries = body->Object_0;
    reveal_strlit("summary");
    reveal_strlit("description");
    reveal_strlit("customFields");
    assert("summary"@.len() != "description"@.len());
    assert("summary"@.len() != "customFields"@.len());
    assert("description"@.len() != "customFields"@.len());
    assert(entries.drop_first()[0] == entries[1]);
    assert(entries.drop_first().drop_first()[0] == entries[2]);
    reveal_with_fuel(crate::json::lookup, 4);
    assert(crate::json::member(body, "summary"@) == Some(entries[0].1));
    assert(crate::json::member(body, "description"@) == Some(entries[1].1));
    assert(crate::json::member(body, "customFields"@) == Some(entries[2].1));
    assert(crate::json::items_of(crate::json::member(body, "customFields"@))
        == crate::json::items_of(crate::json::member(raw, "customFields"@)));
}

// ---------------------------------------------------------------------------
// Parents before children
// ---------------------------------------------------------------------------

/// The readable identifiers at the other end of a link.
pub open spec fn ends_of(link: RemoteLinkView) -> Seq<Seq<char>> {
    link.issues.map_values(|i: LinkedIssueView| i.id_readable)
}

/// The parents that a link names.
pub open spec fn parents_in(link: RemoteLinkView) -> Seq<Seq<char>> {
    if link.kind is Subtask && link.direction == link_diff::tag_of(
        link_diff::direction_mirrored(LinkKind::Subtask),
    ) {
        ends_of(link)
    } else {
        Seq::empty()
    }
}

/// The first parent that the links name.
pub open spec fn parent_named(links: Seq<RemoteLinkView>) -> Option<Seq<char>> {
    let all = text::told(links, |l: RemoteLinkView| parents_in(l));
    if all.len() == 0 {
        None
    } else {
        Some(all[0])
    }
}

/// The readable identifier of an issue's parent.
pub fn remote_parent(links: &Vec<RemoteLink>) -> (r: Option<String>)
    ensures
        text::seen(r) == parent_named(text::views(links@)),
{
    let ghost all = text::views(links@);
    let ghost f = |l: RemoteLinkView| parents_in(l);
    let ghost none: Seq<Seq<char>> = Seq::empty();
    let tag = direction_tag(mirrored_direction(LinkKind::Subtask));
    let mut i: usize = 0;
    proof {
        text::told_ends(all, f, none);
    }
    while i < links.len()
        invariant
            i <= links@.len(),
            all == text::views(links@),
            f == (|l: RemoteLinkView| parents_in(l)),
            none == Seq::<Seq<char>>::empty(),
            tag@ == link_diff::tag_of(link_diff::direction_mirrored(LinkKind::Subtask)),
            none + text::told(all.take(i as int), f) == none,
        decreases links@.len() - i,
    {
        let link = &links[i];
        proof {
            text::told_step(all, f, i as int, none);
            assert(all[i as int] == link@);
        }
        if matches!(link.kind, LinkKind::Subtask) && same_text(link.direction.as_str(), tag)
            && link.issues.len() > 0 {
            proof {
                told_starts_with(all, f, i as int);
                assert(f(link@)[0] == link.issues@[0]@.id_readable);
            }
            return Some(link.issues[0].id_readable.clone());
        }
        assert(f(link@) =~= Seq::<Seq<char>>::empty());
        assert(none + text::told(all.take(i + 1), f) =~= none);
        i += 1;
    }
    proof {
        text::told_ends(all, f, none);
    }
    None
}

proof fn told_starts_with<A, B>(s: Seq<A>, f: spec_fn(A) -> Seq<B>, i: int)
    requires
        0 <= i < s.len(),
        text::told(s.take(i), f).len() == 0,
        f(s[i]).len() > 0,
    ensures
        text::told(s, f).len() > 0,
        text::told(s, f)[0] == f(s[i])[0],
    decreases s.len() - i,
{
    told_grows(s, f, i + 1);
    assert(s.take(i + 1).drop_last() =~= s.take(i));
    assert(text::told(s.take(i + 1), f) =~= f(s[i]));
}

proof fn told_grows<A, B>(s: Seq<A>, f: spec_fn(A) -> Seq<B>, i: int)
    requires
        0 <= i <= s.len(),
    ensures
        text::told(s.take(i), f).is_prefix_of(text::told(s, f)),
    decreases s.len(),
{
    if i < s.len() {
        told_grows(s.drop_last(), f, i);
        assert(s.drop_last().take(i) =~= s.take(i));
    } else {
        assert(s.take(i) =~= s);
    }
}

/// Why a candidate is not taken over in this run.
#[derive(Debug, Clone, Copy, PartialEq, Eq, Structural)]
pub enum DeferralReason {
    /// The parent is neither a bead already nor a candidate.
    ParentNotAdoptable,
    /// The parent is a candidate that is itself put off, as every member of a
    /// cycle is.
    ParentDeferred,
}

/// A candidate that is put off, and why.
#[derive(Debug, Clone, PartialEq, Eq)]
pub struct DeferredAdoption {
    pub id_readable: String,
    /// The readable identifier of the parent that stands in the way.
    pub parent_id: String,
    pub reason: DeferralReason,
}

/// What contracts say of a [`DeferredAdoption`].
pub struct DeferredAdoptionView {
    pub id_readable: Seq<char>,
    pub parent_id: Seq<char>,
    pub reason: DeferralReason,
}

impl View for DeferredAdoption {
    type V = DeferredAdoptionView;

    open spec fn view(&self) -> DeferredAdoptionView {
        DeferredAdoptionView {
            id_readable: self.id_readable@,
            parent_id: self.parent_id@,
            reason: self.reason,
        }
    }
}

/// The deferral in words: issue, parent and remedy.
pub open spec fn deferral_text(d: DeferredAdoptionView) -> Seq<char> {
    match d.reason {
        DeferralReason::ParentNotAdoptable => d.id_readable + ": deferred because its parent "@
            + d.parent_id + " is neither mirrored nor adoptable in this run — make "@ + d.parent_id
            + " adoptable and the next run takes both"@,
        DeferralReason::ParentDeferred => d.id_readable + ": deferred because its parent "@
            + d.parent_id + " was itself deferred"@,
    }
}

impl DeferredAdoption {
    /// One line with the issue, the parent that stands in the way, and the
    /// remedy.
    pub fn render(&self) -> (r: String)
        ensures
            r@ == deferral_text(self@),
    {
        let mut out = self.id_readable.clone();
        out.append(": deferred because its parent ");
        out.append(self.parent_id.as_str());
        match self.reason {
            DeferralReason::ParentNotAdoptable => {
                out.append(" is neither mirrored nor adoptable in this run — make ");
                out.append(self.parent_id.as_str());
                out.append(" adoptable and the next run takes both");
            },
            DeferralReason::ParentDeferred => {
                out.append(" was itself deferred");
            },
        }
        out
    }
}

/// The candidates in the order of their creation, and those that are put off.
#[derive(Debug, Clone, PartialEq, Eq)]
pub struct AdoptionOrder {
    /// Parents before children.
    pub ordered: Vec<AdoptionCandidate>,
    /// Left for a later run.
    pub deferred: Vec<DeferredAdoption>,
}

impl Default for AdoptionOrder {
    fn default() -> (r: AdoptionOrder)
        ensures
            r.ordered@.len() == 0,
            r.deferred@.len() == 0,
    {
        AdoptionOrder { ordered: Vec::new(), deferred: Vec::new() }
    }
}

/// One of the candidates has this readable identifier.
pub open spec fn is_among(list: Seq<AdoptionCandidateView>, id: Seq<char>) -> bool {
    exists|k: int| 0 <= k < list.len() && (#[trigger] list[k]).remote.id_readable == id
}

/// A candidate can be created: it has no parent, or its parent is a bead
/// already, or its parent is created before it.
pub open spec fn is_ready(
    c: AdoptionCandidateView,
    ordered: Seq<AdoptionCandidateView>,
    paired: Seq<(Seq<char>, Seq<char>)>,
) -> bool {
    match parent_named(c.remote.links) {
        None => true,
        Some(parent) => text::last_under(paired, parent) is Some || is_among(ordered, parent),
    }
}

/// One walk over the candidates that are pending: what can be created is
/// appended to `ordered`, and the rest waits.
pub open spec fn wave(
    pending: Seq<AdoptionCandidateView>,
    ordered: Seq<AdoptionCandidateView>,
    paired: Seq<(Seq<char>, Seq<char>)>,
) -> (Seq<AdoptionCandidateView>, Seq<AdoptionCandidateView>)
    decreases pending.len(),
{
    if pending.len() == 0 {
        (ordered, Seq::empty())
    } else {
        let (o, w) = wave(pending.drop_last(), ordered, paired);
        if is_ready(pending.last(), o, paired) {
            (o.push(pending.last()), w)
        } else {
            (o, w.push(pending.last()))
        }
    }
}

/// Walks over the candidates until a walk finds nothing that can be created:
/// what has been created, in order, and what waits.
pub open spec fn waves(
    pending: Seq<AdoptionCandidateView>,
    ordered: Seq<AdoptionCandidateView>,
    paired: Seq<(Seq<char>, Seq<char>)>,
) -> (Seq<AdoptionCandidateView>, Seq<AdoptionCandidateView>)
    decreases pending.len(),
{
    let (o, w) = wave(pending, ordered, paired);
    if w.len() >= pending.len() {
        (o, w)
    } else {
        waves(w, o, paired)
    }
}

/// What is said of a candidate that waits.
pub open spec fn deferral_of(
    c: AdoptionCandidateView,
    all: Seq<AdoptionCandidateView>,
) -> DeferredAdoptionView {
    let parent = match parent_named(c.remote.links) {
        Some(p) => p,
        None => Seq::empty(),
    };
    DeferredAdoptionView {
        id_readable: c.remote.id_readable,
        parent_id: parent,
        reason: if is_among(all, parent) {
            DeferralReason::ParentDeferred
        } else {
            DeferralReason::ParentNotAdoptable
        },
    }
}

/// The candidates in the order of their creation.
pub open spec fn creation_order(
    all: Seq<AdoptionCandidateView>,
    paired: Seq<(Seq<char>, Seq<char>)>,
) -> Seq<AdoptionCandidateView> {
    waves(all, Seq::empty(), paired).0
}

/// The candidates that are never ready.
pub open spec fn put_off(
    all: Seq<AdoptionCandidateView>,
    paired: Seq<(Seq<char>, Seq<char>)>,
) -> Seq<AdoptionCandidateView> {
    waves(all, Seq::empty(), paired).1
}

fn is_among_candidates(list: &Vec<AdoptionCandidate>, id: &str) -> (r: bool)
    ensures
        r == is_among(text::views(list@), id@),
{
    let ghost all = text::views(list@);
    let mut i: usize = 0;
    while i < list.len()
        invariant
            i <= list@.len(),
            all == text::views(list@),
            forall|k: int| 0 <= k < i ==> (#[trigger] all[k]).remote.id_readable != id@,
        decreases list@.len() - i,
    {
        assert(all[i as int] == list@[i as int]@);
        if same_text(list[i].remote.id_readable.as_str(), id) {
            assert(all[i as int].remote.id_readable == id@);
            return true;
        }
        i += 1;
    }
    false
}

fn is_ready_now(
    candidate: &AdoptionCandidate,
    ordered: &Vec<AdoptionCandidate>,
    paired: &Vec<(String, String)>,
) -> (r: bool)
    ensures
        r == is_ready(candidate@, text::views(ordered@), text::pairs(paired@)),
{
    match remote_parent(&candidate.remote.links) {
        None => true,
        Some(parent) => find_last(paired, parent.as_str()).is_some() || is_among_candidates(
            ordered,
            parent.as_str(),
        ),
    }
}

fn run_wave(
    pending: Vec<AdoptionCandidate>,
    ordered: &mut Vec<AdoptionCandidate>,
    paired: &Vec<(String, String)>,
) -> (waiting: Vec<AdoptionCandidate>)
    ensures
        (text::views(final(ordered)@), text::views(waiting@)) == wave(
            text::views(pending@),
            text::views(old(ordered)@),
            text::pairs(paired@),
        ),
        waiting@.len() <= pending@.len(),
{
    let ghost all = text::views(pending@);
    let ghost first = text::views(ordered@);
    let mut waiting: Vec<AdoptionCandidate> = Vec::new();
    assert(text::views(waiting@) =~= Seq::<AdoptionCandidateView>::empty());
    for candidate in it: pending
        invariant
            it.seq() == pending@,
            all == text::views(pending@),
            (text::views(ordered@), text::views(waiting@)) == wave(
                all.take(it.index() as int),
                first,
                text::pairs(paired@),
            ),
            waiting@.len() <= it.index(),
    {
        let ghost i = it.index() as int;
        proof {
            assert(all.take(i + 1).drop_last() =~= all.take(i));
            assert(all.take(i + 1).last() == candidate@);
        }
        if is_ready_now(&candidate, ordered, paired) {
            proof {
                text::views_push(ordered@, candidate);
            }
            ordered.push(candidate);
        } else {
            proof {
                text::views_push(waiting@, candidate);
            }
            waiting.push(candidate);
        }
    }
    assert(all.take(pending@.len() as int) =~= all);
    waiting
}

fn deferrals(waiting: &Vec<AdoptionCandidate>, ids: &Vec<String>, Ghost(all): Ghost<Seq<AdoptionCandidateView>>) -> (r: Vec<DeferredAdoption>)
    requires
        forall|id: Seq<char>| text::views(ids@).contains(id) == #[trigger] is_among(all, id),
    ensures
        text::views(r@) == text::views(waiting@).map_values(
            |c: AdoptionCandidateView| deferral_of(c, all),
        ),
{
    let ghost want = text::views(waiting@).map_values(
        |c: AdoptionCandidateView| deferral_of(c, all),
    );
    let mut out: Vec<DeferredAdoption> = Vec::new();
    let mut i: usize = 0;
    assert(text::views(out@) =~= want.take(0));
    while i < waiting.len()
        invariant
            i <= waiting@.len(),
            want == text::views(waiting@).map_values(
                |c: AdoptionCandidateView| deferral_of(c, all),
            ),
            forall|id: Seq<char>| text::views(ids@).contains(id) == #[trigger] is_among(all, id),
            text::views(out@) == want.take(i as int),
        decreases waiting@.len() - i,
    {
        let parent_id = match remote_parent(&waiting[i].remote.links) {
            Some(parent) => parent,
            None => String::new(),
        };
        let reason = if text::holds_text(ids, parent_id.as_str()) {
            DeferralReason::ParentDeferred
        } else {
            DeferralReason::ParentNotAdoptable
        };
        let one = DeferredAdoption {
            id_readable: waiting[i].remote.id_readable.clone(),
            parent_id,
            reason,
        };
        proof {
            text::views_push(out@, one);
            assert(is_among(all, one@.parent_id) == text::views(ids@).contains(one@.parent_id));
            assert(one@.parent_id =~= deferral_of(waiting@[i as int]@, all).parent_id);
            assert(want.take(i + 1) =~= want.take(i as int).push(one@));
        }
        out.push(one);
        i += 1;
    }
    assert(want.take(i as int) =~= want);
    out
}

fn candidate_ids(list: &Vec<AdoptionCandidate>) -> (r: Vec<String>)
    ensures
        forall|id: Seq<char>|
            text::views(r@).contains(id) == #[trigger] is_among(text::views(list@), id),
{
    let ghost all = text::views(list@);
    let mut out: Vec<String> = Vec::new();
    let mut i: usize = 0;
    while i < list.len()
        invariant
            i <= list@.len(),
            all == text::views(list@),
            out@.len() == i,
            forall|k: int| 0 <= k < i ==> text::views(out@)[k] == (#[trigger] all[k]).remote.id_readable,
        decreases list@.len() - i,
    {
        let one = list[i].remote.id_readable.clone();
        proof {
            text::views_push(out@, one);
        }
        out.push(one);
        i += 1;
    }
    proof {
        let ids = text::views(out@);
        assert forall|id: Seq<char>| ids.contains(id) == #[trigger] is_among(all, id) by {
            if ids.contains(id) {
                let k = choose|k: int| 0 <= k < ids.len() && ids[k] == id;
                assert(all[k].remote.id_readable == id);
            }
            if is_among(all, id) {
                let k = choose|k: int|
                    0 <= k < all.len() && (#[trigger] all[k]).remote.id_readable == id;
                assert(ids[k] == id);
            }
        }
    }
    out
}

/// Orders the candidates so that every parent is created before its children,
/// and names those that cannot be created at all. `paired` leads from
/// readable identifiers to the beads that mirror them already.
///
/// A candidate that is never ready is put off: were it created without its
/// parent, it would have to be renamed later.
pub fn topological_order(
    candidates: Vec<AdoptionCandidate>,
    paired: &Vec<(String, String)>,
) -> (r: AdoptionOrder)
    ensures
        text::views(r.ordered@) == creation_order(
            text::views(candidates@),
            text::pairs(paired@),
        ),
        text::views(r.deferred@) == put_off(
            text::views(candidates@),
            text::pairs(paired@),
        ).map_values(
            |c: AdoptionCandidateView| deferral_of(c, text::views(candidates@)),
        ),
{
    let ghost all = text::views(candidates@);
    let ghost table = text::pairs(paired@);
    let ids = candidate_ids(&candidates);
    let mut pending = candidates;
    let mut ordered: Vec<AdoptionCandidate> = Vec::new();
    let mut progressed = true;
    assert(text::views(ordered@) =~= Seq::<AdoptionCandidateView>::empty());
    while progressed
        invariant
            table == text::pairs(paired@),
            progressed ==> waves(all, Seq::empty(), table) == waves(
                text::views(pending@),
                text::views(ordered@),
                table,
            ),
            !progressed ==> waves(all, Seq::empty(), table) == (
                text::views(ordered@),
                text::views(pending@),
            ),
        decreases pending@.len() + (if progressed { 1int } else { 0int }),
    {
        let before = pending.len();
        let waiting = run_wave(pending, &mut ordered, paired);
        progressed = waiting.len() < before;
        pending = waiting;
    }
    let deferred = deferrals(&pending, &ids, Ghost(all));
    AdoptionOrder { ordered, deferred }
}

proof fn wave_facts(
    pending: Seq<AdoptionCandidateView>,
    ordered: Seq<AdoptionCandidateView>,
    paired: Seq<(Seq<char>, Seq<char>)>,
)
    requires
        parents_first(ordered, paired),
    ensures
        ({
            let (o, w) = wave(pending, ordered, paired);
            &&& o.len() + w.len() == ordered.len() + pending.len()
            &&& w.len() <= pending.len()
            &&& w.len() == pending.len() ==> o == ordered && w == pending
            &&& ordered.is_prefix_of(o)
            &&& parents_first(o, paired)
            &&& o.to_multiset().add(w.to_multiset()) == ordered.to_multiset().add(
                pending.to_multiset(),
            )
            &&& forall|k: int|
                w.len() == pending.len() && 0 <= k < w.len() ==> !is_ready(
                    #[trigger] w[k],
                    o,
                    paired,
                )
        }),
    decreases pending.len(),
{
    broadcast use vstd::seq_lib::group_to_multiset_ensures;

    if pending.len() == 0 {
        assert(pending =~= Seq::empty());
        assert(wave(pending, ordered, paired).1.to_multiset() =~= pending.to_multiset());
    } else {
        let front = pending.drop_last();
        let c = pending.last();
        wave_facts(front, ordered, paired);
        let (o, w) = wave(front, ordered, paired);
        assert(front.push(c) =~= pending);
        assert(pending.to_multiset() =~= front.to_multiset().insert(c));
        let before = o.to_multiset().add(w.to_multiset());
        assert(before == ordered.to_multiset().add(front.to_multiset()));
        assert(before.insert(c) =~= ordered.to_multiset().add(pending.to_multiset()));
        if is_ready(c, o, paired) {
            let o2 = o.push(c);
            assert forall|k: int| 0 <= k < o2.len() implies is_ready(
                #[trigger] o2[k],
                o2.take(k),
                paired,
            ) by {
                if k < o.len() {
                    assert(is_ready(o[k], o.take(k), paired));
                    assert(o2.take(k) =~= o.take(k));
                } else {
                    assert(o2.take(k) =~= o);
                }
            }
            assert(o2.to_multiset() =~= o.to_multiset().insert(c));
            assert(o2.to_multiset().add(w.to_multiset()) =~= before.insert(c));
        } else {
            let w2 = w.push(c);
            assert(w2.to_multiset() =~= w.to_multiset().insert(c));
            assert(o.to_multiset().add(w2.to_multiset()) =~= before.insert(c));
        }
    }
}

/// Every candidate of the list could be created when those before it were.
pub open spec fn parents_first(
    ordered: Seq<AdoptionCandidateView>,
    paired: Seq<(Seq<char>, Seq<char>)>,
) -> bool {
    forall|k: int| 0 <= k < ordered.len() ==> is_ready(#[trigger] ordered[k], ordered.take(k), paired)
}

proof fn waves_facts(
    pending: Seq<AdoptionCandidateView>,
    ordered: Seq<AdoptionCandidateView>,
    paired: Seq<(Seq<char>, Seq<char>)>,
)
    requires
        parents_first(ordered, paired),
    ensures
        ({
            let (o, w) = waves(pending, ordered, paired);
            &&& parents_first(o, paired)
            &&& o.to_multiset().add(w.to_multiset()) == ordered.to_multiset().add(
                pending.to_multiset(),
            )
            &&& forall|k: int| 0 <= k < w.len() ==> !is_ready(#[trigger] w[k], o, paired)
        }),
    decreases pending.len(),
{
    wave_facts(pending, ordered, paired);
    let (o, w) = wave(pending, ordered, paired);
    if w.len() < pending.len() {
        waves_facts(w, o, paired);
    }
}

/// Every candidate that is created has its parent, if it has one, among the
/// beads already or among those created before it.
pub proof fn parents_come_first(
    all: Seq<AdoptionCandidateView>,
    paired: Seq<(Seq<char>, Seq<char>)>,
    k: int,
)
    requires
        0 <= k < creation_order(all, paired).len(),
    ensures
        is_ready(creation_order(all, paired)[k], creation_order(all, paired).take(k), paired),
{
    waves_facts(all, Seq::empty(), paired);
}

/// Every candidate is either created or put off, and as often as it was
/// given.
pub proof fn no_candidate_is_lost(
    all: Seq<AdoptionCandidateView>,
    paired: Seq<(Seq<char>, Seq<char>)>,
)
    ensures
        creation_order(all, paired).to_multiset().add(put_off(all, paired).to_multiset())
            == all.to_multiset(),
{
    waves_facts(all, Seq::empty(), paired);
    assert(Seq::<AdoptionCandidateView>::empty().to_multiset().add(all.to_multiset())
        =~= all.to_multiset()) by {
        broadcast use vstd::seq_lib::group_to_multiset_ensures;

    }
}

/// Nothing is put off that could be created: a candidate that is put off has
/// a parent that is neither a bead nor created in this run.
pub proof fn only_orphans_are_put_off(
    all: Seq<AdoptionCandidateView>,
    paired: Seq<(Seq<char>, Seq<char>)>,
    k: int,
)
    requires
        0 <= k < put_off(all, paired).len(),
    ensures
        ({
            let c = put_off(all, paired)[k];
            &&& parent_named(c.remote.links) is Some
            &&& text::last_under(paired, parent_named(c.remote.links)->0) is None
            &&& !is_among(creation_order(all, paired), parent_named(c.remote.links)->0)
        }),
{
    waves_facts(all, Seq::empty(), paired);
    assert(!is_ready(put_off(all, paired)[k], creation_order(all, paired), paired));
}

// ---------------------------------------------------------------------------
// Creating the bead
// ---------------------------------------------------------------------------

/// The bead that a candidate is created under. `id_map` leads from readable
/// identifiers to beads, those created in this run among them.
pub fn creation_parent(candidate: &AdoptionCandidate, id_map: &Vec<(String, String)>) -> (r: Option<
    String,
>)
    ensures
        text::seen(r) == (match parent_named(candidate@.remote.links) {
            Some(parent) => text::last_under(text::pairs(id_map@), parent),
            None => None,
        }),
{
    match remote_parent(&candidate.remote.links) {
        Some(parent) => match find_last(id_map, parent.as_str()) {
            Some(bead) => Some(bead.clone()),
            None => None,
        },
        None => None,
    }
}

/// Who takes issues over.
#[derive(Debug, Clone, Copy)]
pub struct AdoptContext<'a> {
    /// Recorded as the creator of the bead.
    pub actor: &'a str,
}

/// What one adoption came to.
#[derive(Debug, Clone, PartialEq, Eq)]
pub struct AdoptionOutcome {
    pub bead_id: String,
    /// The issue could not be told which bead it became. Nothing retries that.
    pub stamp_failed: bool,
}

/// The title of the bead that a candidate becomes.
pub open spec fn title_of(c: AdoptionCandidateView) -> Seq<char> {
    let title = if text::trimmed(c.fields.title).len() == 0 {
        text::trimmed(c.remote.summary)
    } else {
        text::trimmed(c.fields.title)
    };
    if title.len() == 0 {
        "(untitled "@ + c.remote.id_readable + ")"@
    } else {
        title
    }
}

/// The title of the bead that a candidate becomes. One without any is named
/// after the issue.
pub fn adopted_title(candidate: &AdoptionCandidate) -> (r: String)
    ensures
        r@ == title_of(candidate@),
{
    let own = trim(candidate.fields.title.as_str());
    let title = if own.is_empty() {
        trim(candidate.remote.summary.as_str())
    } else {
        own
    };
    if title.is_empty() {
        let mut out = "(untitled ".to_owned();
        out.append(candidate.remote.id_readable.as_str());
        out.append(")");
        out
    } else {
        title.to_owned()
    }
}

/// The dependency on the parent that a candidate is created under.
pub open spec fn parent_rows(
    bead_id: Seq<char>,
    parent: Option<Seq<char>>,
    actor: Seq<char>,
    now: Timestamp,
) -> Seq<DependencyView> {
    match parent {
        Some(p) => seq![
            DependencyView {
                issue_id: bead_id,
                depends_on_id: p,
                dep_type: DependencyTypeView::ParentChild,
                created_at: now,
                created_by: Some(actor),
                metadata: None,
                thread_id: None,
            },
        ],
        None => Seq::empty(),
    }
}

/// The bead that a candidate becomes, under the identifier that was found for
/// it, and what the adoption comes to once it is stored. Its reference, its
/// parent, its labels and its prose are all in it, so that storing it is one
/// step: afterwards it is paired, and it is never taken over again.
pub fn adopt_one(
    cfg: &AdoptContext,
    candidate: &AdoptionCandidate,
    parent_bead_id: Option<&str>,
    bead_id: &str,
    now: Timestamp,
) -> (r: (Issue, AdoptionOutcome))
    ensures
        r.0.id@ == bead_id@,
        r.0.title@ == title_of(candidate@),
        text::seen(r.0.description) == candidate@.fields.description,
        text::seen(r.0.design) == candidate@.fields.design,
        text::seen(r.0.acceptance_criteria) == candidate@.fields.acceptance_criteria,
        text::seen(r.0.notes) == candidate@.fields.notes,
        r.0.status@ == candidate@.fields.status,
        r.0.priority == candidate@.fields.priority,
        r.0.issue_type@ == candidate@.fields.issue_type,
        r.0.created_at == now,
        text::seen(r.0.created_by) == Some(cfg.actor@),
        r.0.updated_at == now,
        text::seen(r.0.close_reason) == candidate@.fields.close_reason,
        text::seen(r.0.external_ref) == Some(candidate@.remote.id_readable),
        text::views(r.0.labels@) == candidate@.remote.labels,
        text::views(r.0.dependencies@) == parent_rows(
            bead_id@,
            text::seen(parent_bead_id),
            cfg.actor@,
            now,
        ),
        r.0.content_hash is None,
        r.0.owner is None,
        r.0.closed_at is None,
        r.0.defer_until is None,
        r.0.source_repo is None,
        r.0.deleted_at is None,
        r.0.deleted_by is None,
        r.0.delete_reason is None,
        r.0.original_type is None,
        r.0.former_ids@.len() == 0,
        r.0.comments@.len() == 0,
        r.1.bead_id@ == bead_id@,
        !r.1.stamp_failed,
        candidate@.fields == candidate@.remote.fields && candidate@.fields.title
            == candidate@.remote.summary && candidate@.fields.description
            == candidate@.remote.description && text::trimmed(candidate@.remote.summary).len() > 0
            ==> diff::changes_of(r.0, candidate@.remote).len() == 0,
{
    let mut dependencies: Vec<Dependency> = Vec::new();
    if let Some(parent) = parent_bead_id {
        dependencies.push(
            Dependency {
                issue_id: bead_id.to_owned(),
                depends_on_id: parent.to_owned(),
                dep_type: DependencyType::ParentChild,
                created_at: now,
                created_by: Some(cfg.actor.to_owned()),
                metadata: None,
                thread_id: None,
            },
        );
    }
    assert(text::views(dependencies@) =~= parent_rows(
        bead_id@,
        text::seen(parent_bead_id),
        cfg.actor@,
        now,
    ));
    let issue = Issue {
        id: bead_id.to_owned(),
        content_hash: None,
        title: adopted_title(candidate),
        description: copy_optional(&candidate.fields.description),
        design: copy_optional(&candidate.fields.design),
        acceptance_criteria: copy_optional(&candidate.fields.acceptance_criteria),
        notes: copy_optional(&candidate.fields.notes),
        status: candidate.fields.status.copy(),
        priority: candidate.fields.priority,
        issue_type: candidate.fields.issue_type.copy(),
        owner: None,
        created_at: now,
        created_by: Some(cfg.actor.to_owned()),
        updated_at: now,
        closed_at: None,
        close_reason: copy_optional(&candidate.fields.close_reason),
        defer_until: None,
        external_ref: Some(candidate.remote.id_readable.clone()),
        source_repo: None,
        deleted_at: None,
        deleted_by: None,
        delete_reason: None,
        original_type: None,
        former_ids: Vec::new(),
        labels: copy_texts(&candidate.remote.labels),
        dependencies,
        comments: Vec::new(),
    };
    proof {
        let c = candidate@;
        if c.fields == c.remote.fields && c.fields.title == c.remote.summary && c.fields.description
            == c.remote.description && text::trimmed(c.remote.summary).len() > 0 {
            text::trimming_twice_is_trimming(c.remote.summary);
            diff::agreement_needs_no_change(issue, c.remote);
        }
    }
    (issue, AdoptionOutcome { bead_id: bead_id.to_owned(), stamp_failed: false })
}

/// The identifier of a parent's child by its number.
pub open spec fn child_name(parent: Seq<char>, number: u32) -> Seq<char> {
    parent + "."@ + text::decimal(number as int)
}

/// The search for the identifier of a child: the numbers are tried from the
/// first one on, and a hundred beyond it at most.
#[derive(Debug, Clone, PartialEq, Eq)]
pub struct ChildIdSearch {
    pub parent_bead_id: String,
    /// The number that is tried next.
    pub number: u32,
    /// The last number that is tried.
    pub ceiling: u32,
}

/// What contracts say of a [`ChildIdSearch`].
pub struct ChildIdSearchView {
    pub parent_bead_id: Seq<char>,
    pub number: u32,
    pub ceiling: u32,
}

impl View for ChildIdSearch {
    type V = ChildIdSearchView;

    open spec fn view(&self) -> ChildIdSearchView {
        ChildIdSearchView {
            parent_bead_id: self.parent_bead_id@,
            number: self.number,
            ceiling: self.ceiling,
        }
    }
}

/// How the search goes on.
#[derive(Debug, Clone, PartialEq, Eq)]
pub enum ChildIdStep {
    /// This identifier is free.
    Found(String),
    /// The next one is to be looked up.
    Next(ChildIdSearch),
}

/// What contracts say of a [`ChildIdStep`].
pub enum ChildIdStepView {
    Found(Seq<char>),
    Next(ChildIdSearchView),
}

impl View for ChildIdStep {
    type V = ChildIdStepView;

    open spec fn view(&self) -> ChildIdStepView {
        match self {
            ChildIdStep::Found(id) => ChildIdStepView::Found(id@),
            ChildIdStep::Next(search) => ChildIdStepView::Next(search@),
        }
    }
}

/// The number of the last child that is tried.
pub open spec fn last_tried(first: u32) -> u32 {
    if first + 100 > u32::MAX {
        u32::MAX
    } else {
        (first + 100) as u32
    }
}

/// What follows from a look-up of the identifier that is tried.
pub open spec fn search_step(s: ChildIdSearchView, exists_already: bool) -> Result<
    ChildIdStepView,
    BeadsErrorView,
> {
    if !exists_already {
        Ok(ChildIdStepView::Found(child_name(s.parent_bead_id, s.number)))
    } else if s.number >= s.ceiling {
        Err(BeadsErrorView::IdCollision { id: child_name(s.parent_bead_id, s.number) })
    } else {
        Ok(ChildIdStepView::Next(ChildIdSearchView { number: (s.number + 1) as u32, ..s }))
    }
}

impl ChildIdSearch {
    /// Starts with the first number that the parent has free, if there is
    /// such a parent.
    pub fn start(parent_bead_id: &str, parent_exists: bool, first: u32) -> (r: Result<
        ChildIdSearch,
        BeadsError,
    >)
        ensures
            (match r {
                Ok(s) => Ok(s@),
                Err(e) => Err(e@),
            }) == (if parent_exists {
                Ok(
                    ChildIdSearchView {
                        parent_bead_id: parent_bead_id@,
                        number: first,
                        ceiling: last_tried(first),
                    },
                )
            } else {
                Err(BeadsErrorView::IssueNotFound { id: parent_bead_id@ })
            }),
    {
        if !parent_exists {
            return Err(BeadsError::IssueNotFound { id: parent_bead_id.to_owned() });
        }
        Ok(
            ChildIdSearch {
                parent_bead_id: parent_bead_id.to_owned(),
                number: first,
                ceiling: first.saturating_add(100),
            },
        )
    }

    /// The identifier to look up.
    pub fn candidate(&self) -> (r: String)
        ensures
            r@ == child_name(self@.parent_bead_id, self.number),
    {
        let number = decimal_of(self.number as u64);
        let mut out = self.parent_bead_id.clone();
        out.append(".");
        out.append(number.as_str());
        out
    }

    /// Goes on from the answer whether that identifier is taken.
    pub fn step(self, exists_already: bool) -> (r: Result<ChildIdStep, BeadsError>)
        ensures
            (match r {
                Ok(s) => Ok(s@),
                Err(e) => Err(e@),
            }) == search_step(self@, exists_already),
    {
        if !exists_already {
            return Ok(ChildIdStep::Found(self.candidate()));
        }
        if self.number >= self.ceiling {
            return Err(BeadsError::IdCollision { id: self.candidate() });
        }
        Ok(
            ChildIdStep::Next(
                ChildIdSearch {
                    parent_bead_id: self.parent_bead_id,
                    number: self.number + 1,
                    ceiling: self.ceiling,
                },
            ),
        )
    }
}

/// What is said where an issue could not be told which bead it became.
pub open spec fn stamp_note(remote_id: Seq<char>, bead_id: Seq<char>, e: RemoteErrorView) -> Seq<char> {
    "note: adopted "@ + remote_id + " as "@ + bead_id + " but could not stamp its Beads ID field ("@
        + error::error_text(e) + "); the bead is correct and nothing will retry this"@
}

/// Notes what came of telling the issue which bead it became. That it failed
/// is said once and never retried: the bead is there and paired.
pub fn stamp_adoption(
    outcome: &mut AdoptionOutcome,
    remote_id: &str,
    stamped: Result<(), RemoteError>,
) -> (note: Option<String>)
    ensures
        final(outcome).bead_id == old(outcome).bead_id,
        final(outcome).stamp_failed == (old(outcome).stamp_failed || stamped is Err),
        text::seen(note) == (match stamped {
            Ok(_) => None,
            Err(e) => Some(stamp_note(remote_id@, old(outcome).bead_id@, e@)),
        }),
{
    match stamped {
        Ok(_) => None,
        Err(e) => {
            outcome.stamp_failed = true;
            let why = e.to_string();
            let mut out = "note: adopted ".to_owned();
            out.append(remote_id);
            out.append(" as ");
            out.append(outcome.bead_id.as_str());
            out.append(" but could not stamp its Beads ID field (");
            out.append(why.as_str());
            out.append("); the bead is correct and nothing will retry this");
            Some(out)
        },
    }
}

/// What a search comes to where exactly the identifiers in `taken` exist.
pub open spec fn minted(s: ChildIdSearchView, taken: Set<Seq<char>>) -> Result<
    Seq<char>,
    BeadsErrorView,
>
    decreases s.ceiling - s.number,
{
    match search_step(s, taken.contains(child_name(s.parent_bead_id, s.number))) {
        Ok(ChildIdStepView::Found(id)) => Ok(id),
        Ok(ChildIdStepView::Next(next)) => minted(next, taken),
        Err(e) => Err(e),
    }
}

/// A search finds the first number whose identifier is free, and fails only
/// where every number up to the ceiling is taken.
pub proof fn first_free_child_is_found(s: ChildIdSearchView, taken: Set<Seq<char>>)
    requires
        s.number <= s.ceiling,
    ensures
        minted(s, taken) matches Ok(id) ==> exists|n: u32|
            s.number <= n <= s.ceiling && id == #[trigger] child_name(s.parent_bead_id, n)
                && !taken.contains(id) && forall|m: u32|
                s.number <= m < n ==> taken.contains(#[trigger] child_name(s.parent_bead_id, m)),
        minted(s, taken) matches Err(e) ==> e == (BeadsErrorView::IdCollision {
            id: child_name(s.parent_bead_id, s.ceiling),
        }) && forall|m: u32|
            s.number <= m <= s.ceiling ==> taken.contains(
                #[trigger] child_name(s.parent_bead_id, m),
            ),
    decreases s.ceiling - s.number,
{
    let here = child_name(s.parent_bead_id, s.number);
    if taken.contains(here) && s.number < s.ceiling {
        let next = ChildIdSearchView { number: (s.number + 1) as u32, ..s };
        first_free_child_is_found(next, taken);
        if minted(s, taken) is Ok {
            let id = minted(s, taken)->Ok_0;
            let n = choose|n: u32|
                next.number <= n <= s.ceiling && id == #[trigger] child_name(s.parent_bead_id, n)
                    && !taken.contains(id) && forall|m: u32|
                    next.number <= m < n ==> taken.contains(
                        #[trigger] child_name(s.parent_bead_id, m),
                    );
            assert forall|m: u32| s.number <= m < n implies taken.contains(
                #[trigger] child_name(s.parent_bead_id, m),
            ) by {
                if m == s.number {
                    assert(taken.contains(here));
                } else {
                    assert(next.number <= m);
                }
            }
        } else {
            assert forall|m: u32| s.number <= m <= s.ceiling implies taken.contains(
                #[trigger] child_name(s.parent_bead_id, m),
            ) by {
                if m == s.number {
                    assert(taken.contains(here));
                } else {
                    assert(next.number <= m);
                }
            }
        }
    }
}

// ---------------------------------------------------------------------------
// Links and comments
// ---------------------------------------------------------------------------

/// A dependency to record, and in whose name.
#[derive(Debug, Clone, PartialEq, Eq)]
pub struct ImportedLink {
    pub issue_id: String,
    pub depends_on_id: String,
    pub dep_type: DependencyType,
    pub actor: &'static str,
}

/// What contracts say of an [`ImportedLink`].
pub struct ImportedLinkView {
    pub issue_id: Seq<char>,
    pub depends_on_id: Seq<char>,
    pub dep_type: DependencyTypeView,
    pub actor: Seq<char>,
}

impl View for ImportedLink {
    type V = ImportedLinkView;

    open spec fn view(&self) -> ImportedLinkView {
        ImportedLinkView {
            issue_id: self.issue_id@,
            depends_on_id: self.depends_on_id@,
            dep_type: self.dep_type@,
            actor: self.actor@,
        }
    }
}

/// The dependency that a link between two beads stands for, recorded in the
/// name of the mirror. A link that can be read from both ends gives the same
/// dependency at either.
pub open spec fn row_for(
    kind: LinkKind,
    mirrored: bool,
    bead: Seq<char>,
    other: Seq<char>,
) -> Option<ImportedLinkView> {
    match (kind, mirrored) {
        (LinkKind::Subtask, true) => Some(
            ImportedLinkView {
                issue_id: bead,
                depends_on_id: other,
                dep_type: DependencyTypeView::ParentChild,
                actor: comments::YOUTRACK_AUTHOR@,
            },
        ),
        (LinkKind::Subtask, false) => Some(
            ImportedLinkView {
                issue_id: other,
                depends_on_id: bead,
                dep_type: DependencyTypeView::ParentChild,
                actor: comments::YOUTRACK_AUTHOR@,
            },
        ),
        (LinkKind::Depend, true) => Some(
            ImportedLinkView {
                issue_id: other,
                depends_on_id: bead,
                dep_type: DependencyTypeView::Blocks,
                actor: comments::YOUTRACK_AUTHOR@,
            },
        ),
        (LinkKind::Depend, false) => Some(
            ImportedLinkView {
                issue_id: bead,
                depends_on_id: other,
                dep_type: DependencyTypeView::Blocks,
                actor: comments::YOUTRACK_AUTHOR@,
            },
        ),
        (LinkKind::Relates, true) => Some(
            ImportedLinkView {
                issue_id: bead,
                depends_on_id: other,
                dep_type: DependencyTypeView::Related,
                actor: comments::YOUTRACK_AUTHOR@,
            },
        ),
        (LinkKind::Relates, false) => None,
    }
}

/// Whether a link is reported in the direction that it is mirrored in.
pub open spec fn is_mirrored(link: RemoteLinkView) -> bool {
    link.direction == link_diff::tag_of(link_diff::direction_mirrored(link.kind))
}

/// The dependency that one end of a link gives a bead. An end that is no
/// bead is passed over, and so is the bead itself.
pub open spec fn row_of_end(
    link: RemoteLinkView,
    bead: Seq<char>,
    id_map: Seq<(Seq<char>, Seq<char>)>,
    end: LinkedIssueView,
) -> Option<ImportedLinkView> {
    match text::last_under(id_map, end.id_readable) {
        Some(other) if other != bead => row_for(link.kind, is_mirrored(link), bead, other),
        _ => None,
    }
}

/// The dependencies that a link gives a bead.
pub open spec fn rows_of_link(
    link: RemoteLinkView,
    bead: Seq<char>,
    id_map: Seq<(Seq<char>, Seq<char>)>,
) -> Seq<ImportedLinkView> {
    text::picked(link.issues, |end: LinkedIssueView| row_of_end(link, bead, id_map, end))
}

/// The dependencies that an issue's links stand for. An issue that has not
/// become a bead has none.
pub open spec fn imported_rows(
    remote: RemoteIssueView,
    id_map: Seq<(Seq<char>, Seq<char>)>,
) -> Seq<ImportedLinkView> {
    match text::last_under(id_map, remote.id_readable) {
        Some(bead) => text::told(
            remote.links,
            |link: RemoteLinkView| rows_of_link(link, bead, id_map),
        ),
        None => Seq::empty(),
    }
}

fn import_row(kind: LinkKind, mirrored: bool, bead: &str, other: &str) -> (r: Option<ImportedLink>)
    ensures
        text::seen(r) == row_for(kind, mirrored, bead@, other@),
{
    let (issue_id, depends_on_id, dep_type) = match (kind, mirrored) {
        (LinkKind::Subtask, true) => (bead, other, DependencyType::ParentChild),
        (LinkKind::Subtask, false) => (other, bead, DependencyType::ParentChild),
        (LinkKind::Depend, true) => (other, bead, DependencyType::Blocks),
        (LinkKind::Depend, false) => (bead, other, DependencyType::Blocks),
        (LinkKind::Relates, true) => (bead, other, DependencyType::Related),
        (LinkKind::Relates, false) => {
            return None;
        },
    };
    Some(
        ImportedLink {
            issue_id: issue_id.to_owned(),
            depends_on_id: depends_on_id.to_owned(),
            dep_type,
            actor: YOUTRACK_AUTHOR,
        },
    )
}

fn import_link(
    rows: &mut Vec<ImportedLink>,
    link: &RemoteLink,
    bead: &str,
    id_map: &Vec<(String, String)>,
)
    ensures
        text::views(final(rows)@) == text::views(old(rows)@) + rows_of_link(
            link@,
            bead@,
            text::pairs(id_map@),
        ),
{
    let ghost start = text::views(rows@);
    let ghost all = text::views(link.issues@);
    let ghost f = |end: LinkedIssueView| row_of_end(link@, bead@, text::pairs(id_map@), end);
    let mirrored = same_text(
        link.direction.as_str(),
        direction_tag(mirrored_direction(link.kind)),
    );
    let mut i: usize = 0;
    assert(start =~= start + text::picked(all.take(0), f));
    while i < link.issues.len()
        invariant
            i <= link.issues@.len(),
            all == text::views(link.issues@),
            f == (|end: LinkedIssueView| row_of_end(link@, bead@, text::pairs(id_map@), end)),
            mirrored == is_mirrored(link@),
            text::views(rows@) == start + text::picked(all.take(i as int), f),
        decreases link.issues@.len() - i,
    {
        proof {
            text::picked_step(all, f, i as int);
        }
        let ghost before = text::picked(all.take(i as int), f);
        if let Some(other) = find_last(id_map, link.issues[i].id_readable.as_str()) {
            if !same_text(other.as_str(), bead) {
                if let Some(row) = import_row(link.kind, mirrored, bead, other.as_str()) {
                    proof {
                        text::views_push(rows@, row);
                        assert((start + before).push(row@) =~= start + before.push(row@));
                    }
                    rows.push(row);
                }
            }
        }
        i += 1;
    }
    assert(all.take(i as int) =~= all);
}

/// The dependencies that an adopted issue's links stand for, to be recorded
/// once every adopted issue has its bead. Without them the next push would
/// take the links off the mirror again. A link whose other end is no bead is
/// passed over.
///
/// Links are read from both of their ends, since the other end may be an
/// issue that was mirrored before.
pub fn import_links(candidate: &AdoptionCandidate, id_map: &Vec<(String, String)>) -> (r: Vec<
    ImportedLink,
>)
    ensures
        text::views(r@) == imported_rows(candidate@.remote, text::pairs(id_map@)),
{
    let mut rows: Vec<ImportedLink> = Vec::new();
    assert(text::views(rows@) =~= Seq::<ImportedLinkView>::empty());
    let bead = match find_last(id_map, candidate.remote.id_readable.as_str()) {
        Some(bead) => bead,
        None => {
            return rows;
        },
    };
    let links = &candidate.remote.links;
    let ghost table = text::pairs(id_map@);
    let ghost all = text::views(links@);
    let ghost f = |link: RemoteLinkView| rows_of_link(link, bead@, table);
    let ghost none: Seq<ImportedLinkView> = Seq::empty();
    let mut i: usize = 0;
    proof {
        text::told_ends(all, f, none);
    }
    while i < links.len()
        invariant
            i <= links@.len(),
            all == text::views(links@),
            table == text::pairs(id_map@),
            f == (|link: RemoteLinkView| rows_of_link(link, bead@, table)),
            text::views(rows@) == none + text::told(all.take(i as int), f),
        decreases links@.len() - i,
    {
        proof {
            text::told_step(all, f, i as int, none);
        }
        import_link(&mut rows, &links[i], bead.as_str(), id_map);
        i += 1;
    }
    proof {
        text::told_ends(all, f, none);
        assert(none + text::told(all, f) =~= text::told(all, f));
    }
    rows
}

/// A directed link between two issues gives the same dependency whichever of
/// its ends it is read from.
pub proof fn both_ends_agree(kind: LinkKind, a: Seq<char>, b: Seq<char>)
    requires
        !(kind is Relates),
    ensures
        row_for(kind, true, a, b) == row_for(kind, false, b, a),
{
}

/// Every end of a link of an adopted issue that is another bead is recorded.
pub proof fn every_end_is_recorded(
    remote: RemoteIssueView,
    id_map: Seq<(Seq<char>, Seq<char>)>,
    i: int,
    j: int,
)
    requires
        0 <= i < remote.links.len(),
        0 <= j < remote.links[i].issues.len(),
        text::last_under(id_map, remote.id_readable) is Some,
        row_of_end(
            remote.links[i],
            text::last_under(id_map, remote.id_readable)->0,
            id_map,
            remote.links[i].issues[j],
        ) is Some,
    ensures
        imported_rows(remote, id_map).contains(
            row_of_end(
                remote.links[i],
                text::last_under(id_map, remote.id_readable)->0,
                id_map,
                remote.links[i].issues[j],
            )->0,
        ),
{
    let bead = text::last_under(id_map, remote.id_readable)->0;
    let link = remote.links[i];
    let row = row_of_end(link, bead, id_map, link.issues[j])->0;
    text::picked_holds(link.issues, |end: LinkedIssueView| row_of_end(link, bead, id_map, end), j);
    assert(rows_of_link(link, bead, id_map).contains(row));
    text::told_holds(
        remote.links,
        |link: RemoteLinkView| rows_of_link(link, bead, id_map),
        i,
        row,
    );
}

/// A dependency of the workspace says what an imported link says.
pub open spec fn records(d: DependencyView, row: ImportedLinkView) -> bool {
    d.issue_id == row.issue_id && d.depends_on_id == row.depends_on_id && d.dep_type
        == row.dep_type
}

/// The beads that a bead is related to in one kind.
pub open spec fn held_in(kind: LinkKind, links: link_diff::BeadLinksView) -> Seq<Seq<char>> {
    match kind {
        LinkKind::Subtask => link_diff::parent_list(links.parent),
        LinkKind::Depend => links.blocks,
        LinkKind::Relates => links.related,
    }
}

proof fn parent_is_found(rows: Seq<DependencyView>, i: int, bead: Seq<char>, parent: Seq<char>)
    requires
        0 <= i < rows.len(),
        rows[i].dep_type is ParentChild,
        rows[i].issue_id == bead,
        forall|k: int|
            0 <= k < rows.len() && (#[trigger] rows[k]).dep_type is ParentChild && rows[k].issue_id
                == bead ==> rows[k].depends_on_id == parent,
    ensures
        plan::parent_of(rows, bead) == Some(parent),
    decreases rows.len(),
{
    let last = rows[rows.len() - 1];
    if !(last.dep_type is ParentChild && last.issue_id == bead) {
        let front = rows.drop_last();
        assert(front[i] == rows[i]);
        assert forall|k: int|
            0 <= k < front.len() && (#[trigger] front[k]).dep_type is ParentChild
                && front[k].issue_id == bead implies front[k].depends_on_id == parent by {
            assert(rows[k] == front[k]);
        }
        parent_is_found(front, i, bead, parent);
    }
}

/// Once an imported link is recorded, the bead at the end that owns it holds
/// it. A bead has one parent: where the workspace names two, the last counts,
/// so its rows are taken to agree.
pub proof fn recorded_link_is_held(
    rows: Seq<DependencyView>,
    i: int,
    kind: LinkKind,
    mirrored: bool,
    bead: Seq<char>,
    other: Seq<char>,
)
    requires
        0 <= i < rows.len(),
        row_for(kind, mirrored, bead, other) matches Some(row) && records(rows[i], row),
        kind is Subtask ==> forall|k: int|
            0 <= k < rows.len() && (#[trigger] rows[k]).dep_type is ParentChild && rows[k].issue_id
                == rows[i].issue_id ==> rows[k].depends_on_id == rows[i].depends_on_id,
    ensures
        mirrored ==> held_in(kind, plan::links_of(rows, bead)).contains(other),
        !mirrored ==> held_in(kind, plan::links_of(rows, other)).contains(bead),
{
    let owner = if mirrored {
        bead
    } else {
        other
    };
    let target = if mirrored {
        other
    } else {
        bead
    };
    match kind {
        LinkKind::Subtask => {
            parent_is_found(rows, i, owner, target);
            assert(link_diff::parent_list(Some(target))[0] == target);
        },
        LinkKind::Depend => {
            let f = |d: DependencyView| plan::blocked_by(d, owner);
            assert(f(rows[i])[0] == target);
            text::told_holds(rows, f, i, target);
            let found = text::told(rows, f);
            order::distinct_sorted_facts(found);
            assert(found.to_set().contains(target));
            assert(order::distinct_sorted(found).to_set().contains(target));
        },
        LinkKind::Relates => {
            let f = |d: DependencyView| plan::related_by(d, owner);
            assert(f(rows[i])[0] == target);
            text::told_holds(rows, f, i, target);
            let found = text::told(rows, f);
            order::distinct_sorted_facts(found);
            assert(found.to_set().contains(target));
            assert(order::distinct_sorted(found).to_set().contains(target));
        },
    }
}

/// The next push does not take off the mirror what an adoption has just
/// recorded: among the changes to the links of the issue that owns the link,
/// none removes it.
pub proof fn imported_link_survives_push(
    rows: Seq<DependencyView>,
    i: int,
    kind: LinkKind,
    mirrored: bool,
    bead: Seq<char>,
    other: Seq<char>,
    owner_issue: RemoteIssueView,
    types: LinkTypesView,
    table: Seq<(Seq<char>, Seq<char>)>,
    k: int,
)
    requires
        0 <= i < rows.len(),
        row_for(kind, mirrored, bead, other) matches Some(row) && records(rows[i], row),
        kind is Subtask ==> forall|k: int|
            0 <= k < rows.len() && (#[trigger] rows[k]).dep_type is ParentChild && rows[k].issue_id
                == rows[i].issue_id ==> rows[k].depends_on_id == rows[i].depends_on_id,
        text::last_under(
            table,
            if mirrored {
                other
            } else {
                bead
            },
        ) is Some,
    ensures
        ({
            let owner = if mirrored {
                bead
            } else {
                other
            };
            let target = if mirrored {
                other
            } else {
                bead
            };
            let changes = link_diff::kind_changes(
                kind,
                held_in(kind, plan::links_of(rows, owner)),
                owner_issue,
                types,
                table,
            );
            0 <= k < changes.len() ==> (changes[k] matches link_diff::LinkChangeView::Remove {
                target_readable,
                ..
            } ==> target_readable != text::last_under(table, target)->0)
        }),
{
    let owner = if mirrored {
        bead
    } else {
        other
    };
    let target = if mirrored {
        other
    } else {
        bead
    };
    recorded_link_is_held(rows, i, kind, mirrored, bead, other);
    let held = held_in(kind, plan::links_of(rows, owner));
    if 0 <= k < link_diff::kind_changes(kind, held, owner_issue, types, table).len() {
        link_diff::held_link_is_not_removed(kind, held, owner_issue, types, table, target, k);
    }
}

/// A comment to record, and in whose name.
#[derive(Debug, Clone, PartialEq, Eq)]
pub struct ImportedComment {
    pub bead_id: String,
    pub author: &'static str,
    pub text: String,
}

/// What contracts say of an [`ImportedComment`].
pub struct ImportedCommentView {
    pub bead_id: Seq<char>,
    pub author: Seq<char>,
    pub text: Seq<char>,
}

impl View for ImportedComment {
    type V = ImportedCommentView;

    open spec fn view(&self) -> ImportedCommentView {
        ImportedCommentView { bead_id: self.bead_id@, author: self.author@, text: self.text@ }
    }
}

/// A comment of the mirror at a bead. It is recorded in the name of the
/// mirror, so that it is never sent back.
pub open spec fn comment_row(bead: Seq<char>, body: Seq<char>) -> ImportedCommentView {
    ImportedCommentView { bead_id: bead, author: comments::YOUTRACK_AUTHOR@, text: body }
}

/// Records a comment of the mirror at a bead.
pub(crate) fn mirror_comment(bead_id: &str, body: &str) -> (r: ImportedComment)
    ensures
        r@ == comment_row(bead_id@, body@),
{
    ImportedComment {
        bead_id: bead_id.to_owned(),
        author: YOUTRACK_AUTHOR,
        text: body.to_owned(),
    }
}

/// What a comment of an adopted issue becomes at its bead: nothing where it
/// came from a bead, and nothing where it is blank.
pub open spec fn imported_comment(bead: Seq<char>, c: RemoteCommentView) -> Option<
    ImportedCommentView,
> {
    if comments::marked(c.text) || text::trimmed(c.text).len() == 0 {
        None
    } else {
        Some(comment_row(bead, c.text))
    }
}

/// The comments that a bead gets from its issue.
pub open spec fn imported_comments(bead: Seq<char>, fetched: Seq<RemoteCommentView>) -> Seq<
    ImportedCommentView,
> {
    text::picked(fetched, |c: RemoteCommentView| imported_comment(bead, c))
}

/// The comments of an adopted issue that become comments of its bead.
pub fn import_comments(bead_id: &str, comments: &Vec<RemoteComment>) -> (r: Vec<ImportedComment>)
    ensures
        text::views(r@) == imported_comments(bead_id@, text::views(comments@)),
{
    let ghost all = text::views(comments@);
    let ghost f = |c: RemoteCommentView| imported_comment(bead_id@, c);
    let mut out: Vec<ImportedComment> = Vec::new();
    let mut i: usize = 0;
    assert(text::views(out@) =~= text::picked(all.take(0), f));
    while i < comments.len()
        invariant
            i <= comments@.len(),
            all == text::views(comments@),
            f == (|c: RemoteCommentView| imported_comment(bead_id@, c)),
            text::views(out@) == text::picked(all.take(i as int), f),
        decreases comments@.len() - i,
    {
        proof {
            text::picked_step(all, f, i as int);
        }
        let body = comments[i].text.as_str();
        if !is_br_echo(body) && !trim(body).is_empty() {
            let one = mirror_comment(bead_id, body);
            proof {
                text::views_push(out@, one);
            }
            out.push(one);
        }
        i += 1;
    }
    assert(all.take(i as int) =~= all);
    out
}

/// What is taken over from the mirror, links and comments alike, is recorded
/// in the name of the mirror.
pub proof fn imports_are_signed(
    remote: RemoteIssueView,
    id_map: Seq<(Seq<char>, Seq<char>)>,
    bead: Seq<char>,
    fetched: Seq<RemoteCommentView>,
)
    ensures
        forall|i: int|
            0 <= i < imported_rows(remote, id_map).len() ==> (#[trigger] imported_rows(
                remote,
                id_map,
            )[i]).actor == comments::YOUTRACK_AUTHOR@,
        forall|i: int|
            0 <= i < imported_comments(bead, fetched).len() ==> (#[trigger] imported_comments(
                bead,
                fetched,
            )[i]).author == comments::YOUTRACK_AUTHOR@ && imported_comments(bead, fetched)[i].bead_id
                == bead,
{
    assert forall|i: int| 0 <= i < imported_comments(bead, fetched).len() implies (
    #[trigger] imported_comments(bead, fetched)[i]).author == comments::YOUTRACK_AUTHOR@
        && imported_comments(bead, fetched)[i].bead_id == bead by {
        text::picked_comes_from(
            fetched,
            |c: RemoteCommentView| imported_comment(bead, c),
            i,
        );
    }
    if let Some(own) = text::last_under(id_map, remote.id_readable) {
        let f = |link: RemoteLinkView| rows_of_link(link, own, id_map);
        assert forall|i: int| 0 <= i < imported_rows(remote, id_map).len() implies (
        #[trigger] imported_rows(remote, id_map)[i]).actor == comments::YOUTRACK_AUTHOR@ by {
            text::told_comes_from(remote.links, f, i);
            let k = choose|k: int|
                0 <= k < remote.links.len() && f(#[trigger] remote.links[k]).contains(
                    imported_rows(remote, id_map)[i],
                );
            let rows = f(remote.links[k]);
            let j = choose|j: int| 0 <= j < rows.len() && rows[j] == imported_rows(remote, id_map)[i];
            text::picked_comes_from(
                remote.links[k].issues,
                |end: LinkedIssueView| row_of_end(remote.links[k], own, id_map, end),
                j,
            );
        }
    }
}

/// The link, as issue `one` reports it, makes issue `other` its parent.
pub open spec fn names_parent(link: RemoteLinkView, other: Seq<char>) -> bool {
    link.kind is Subtask && link.direction == "INWARD"@ && leads(link, other)
}

/// The link has this issue at its other end.
pub open spec fn leads(link: RemoteLinkView, other: Seq<char>) -> bool {
    exists|e: int| 0 <= e < link.issues.len() && (#[trigger] link.issues[e]).id_readable == other
}

/// The parent of an issue is one that an inward subtask link of it leads to,
/// and there is none only where no such link leads anywhere.
pub proof fn parent_is_at_the_inward_subtask_link(links: Seq<RemoteLinkView>)
    ensures
        parent_named(links) matches Some(p) ==> exists|l: int|
            0 <= l < links.len() && names_parent(#[trigger] links[l], p) && links[l].issues[0].id_readable
                == p && forall|m: int, other: Seq<char>|
                0 <= m < l ==> !#[trigger] names_parent(links[m], other),
        parent_named(links) is None <==> forall|l: int, other: Seq<char>|
            0 <= l < links.len() ==> !#[trigger] names_parent(links[l], other),
{
    first_parent(links);
}

proof fn first_parent(links: Seq<RemoteLinkView>)
    ensures
        ({
            let all = text::told(links, |l: RemoteLinkView| parents_in(l));
            &&& all.len() > 0 ==> exists|l: int|
                0 <= l < links.len() && names_parent(#[trigger] links[l], all[0])
                    && links[l].issues[0].id_readable == all[0] && forall|m: int, other: Seq<char>|
                    0 <= m < l ==> !#[trigger] names_parent(links[m], other)
            &&& all.len() == 0 <==> forall|l: int, other: Seq<char>|
                0 <= l < links.len() ==> !#[trigger] names_parent(links[l], other)
        }),
    decreases links.len(),
{
    let f = |l: RemoteLinkView| parents_in(l);
    let all = text::told(links, f);
    if links.len() > 0 {
        let n = links.len() - 1;
        let rest = links.drop_last();
        let last = links.last();
        let before = text::told(rest, f);
        assert(links[n] == last);
        assert(all == before + parents_in(last));
        first_parent(rest);
        assert(parents_in(last).len() == 0 <==> forall|other: Seq<char>|
            !#[trigger] names_parent(last, other)) by {
            if parents_in(last).len() > 0 {
                assert(last.issues[0].id_readable == parents_in(last)[0]);
                assert(names_parent(last, parents_in(last)[0]));
            }
        }
        if before.len() > 0 {
            let l = choose|l: int|
                0 <= l < rest.len() && names_parent(#[trigger] rest[l], before[0])
                    && rest[l].issues[0].id_readable == before[0] && forall|
                    m: int,
                    other: Seq<char>,
                |
                    0 <= m < l ==> !#[trigger] names_parent(rest[m], other);
            assert(links[l] == rest[l]);
            assert(names_parent(links[l], all[0]));
            assert forall|m: int, other: Seq<char>| 0 <= m < l implies !#[trigger] names_parent(
                links[m],
                other,
            ) by {
                assert(rest[m] == links[m]);
                assert(!names_parent(rest[m], other));
            }
        } else {
            assert forall|m: int, other: Seq<char>| 0 <= m < n implies !#[trigger] names_parent(
                links[m],
                other,
            ) by {
                assert(rest[m] == links[m]);
                assert(!names_parent(rest[m], other));
            }
            if parents_in(last).len() > 0 {
                assert(all[0] == parents_in(last)[0]);
                assert(last.issues[0].id_readable == all[0]);
                assert(names_parent(links[n], all[0]));
            } else {
                assert forall|l: int, other: Seq<char>| 0 <= l < links.len() implies !#[trigger]
                    names_parent(links[l], other) by {
                    if l == n {
                        assert(!names_parent(last, other));
                    }
                }
            }
        }
    }
}

/// What a link says of two beads, read at the bead that is `here`: an inward
/// subtask has its parent there, an outward one its child; an outward
/// dependency is blocked by what is here, any other blocks it; and a relation
/// counts where it is reported for both sides.
pub open spec fn link_says(
    link: RemoteLinkView,
    here: Seq<char>,
    there: Seq<char>,
    row: ImportedLinkView,
) -> bool {
    row.actor == "youtrack"@ && match link.kind {
        LinkKind::Subtask => row.dep_type is ParentChild && if link.direction == "INWARD"@ {
            row.issue_id == here && row.depends_on_id == there
        } else {
            row.issue_id == there && row.depends_on_id == here
        },
        LinkKind::Depend => row.dep_type is Blocks && if link.direction == "OUTWARD"@ {
            row.issue_id == there && row.depends_on_id == here
        } else {
            row.issue_id == here && row.depends_on_id == there
        },
        LinkKind::Relates => row.dep_type is Related && link.direction == "BOTH"@ && row.issue_id
            == here && row.depends_on_id == there,
    }
}

/// The issue became this bead: the last entry of its identifier says so.
pub open spec fn became(id_map: Seq<(Seq<char>, Seq<char>)>, id: Seq<char>, bead: Seq<char>) -> bool {
    exists|m: int|
        0 <= m < id_map.len() && #[trigger] id_map[m] == (id, bead) && forall|j: int|
            m < j < id_map.len() ==> (#[trigger] id_map[j]).0 != id
}

/// The bead that an issue became is what the table gives for it.
pub proof fn became_is_last_under(
    id_map: Seq<(Seq<char>, Seq<char>)>,
    id: Seq<char>,
    bead: Seq<char>,
)
    ensures
        became(id_map, id, bead) <==> text::last_under(id_map, id) == Some(bead),
{
    text::last_entry_counts(id_map, id);
    if became(id_map, id, bead) {
        let m = choose|m: int|
            0 <= m < id_map.len() && #[trigger] id_map[m] == (id, bead) && forall|j: int|
                m < j < id_map.len() ==> (#[trigger] id_map[j]).0 != id;
        assert(id_map[m].0 == id);
        let v = text::last_under(id_map, id)->0;
        let i = choose|i: int|
            0 <= i < id_map.len() && #[trigger] id_map[i] == (id, v) && forall|j: int|
                i < j < id_map.len() ==> (#[trigger] id_map[j]).0 != id;
        assert(i == m) by {
            if i < m {
                assert(id_map[m].0 != id);
            } else if m < i {
                assert(id_map[i].0 != id);
            }
        }
    }
}

/// A dependency is recorded for an adopted issue exactly where one of its
/// links says so of two different beads.
pub proof fn recorded_rows_are_what_the_links_say(
    remote: RemoteIssueView,
    id_map: Seq<(Seq<char>, Seq<char>)>,
    here: Seq<char>,
    row: ImportedLinkView,
)
    requires
        became(id_map, remote.id_readable, here),
    ensures
        imported_rows(remote, id_map).contains(row) <==> exists|
            l: int,
            e: int,
            there: Seq<char>,
        |
            0 <= l < remote.links.len() && 0 <= e < remote.links[l].issues.len()
                && #[trigger] became(id_map, remote.links[l].issues[e].id_readable, there) && there
                != here && #[trigger] link_says(remote.links[l], here, there, row),
{
    let f = |link: RemoteLinkView| rows_of_link(link, here, id_map);
    let all = imported_rows(remote, id_map);
    became_is_last_under(id_map, remote.id_readable, here);
    if all.contains(row) {
        let k = choose|k: int| 0 <= k < all.len() && all[k] == row;
        text::told_comes_from(remote.links, f, k);
        let l = choose|l: int|
            0 <= l < remote.links.len() && f(#[trigger] remote.links[l]).contains(row);
        let link = remote.links[l];
        let g = |end: LinkedIssueView| row_of_end(link, here, id_map, end);
        let rows = rows_of_link(link, here, id_map);
        let m = choose|m: int| 0 <= m < rows.len() && rows[m] == row;
        text::picked_comes_from(link.issues, g, m);
        let e = choose|e: int|
            0 <= e < link.issues.len() && g(#[trigger] link.issues[e]) == Some(row);
        let there = text::last_under(id_map, link.issues[e].id_readable)->0;
        became_is_last_under(id_map, link.issues[e].id_readable, there);
        assert(became(id_map, remote.links[l].issues[e].id_readable, there));
        assert(link_says(remote.links[l], here, there, row));
    }
    if exists|l: int, e: int, there: Seq<char>|
        0 <= l < remote.links.len() && 0 <= e < remote.links[l].issues.len() && #[trigger] became(
            id_map,
            remote.links[l].issues[e].id_readable,
            there,
        ) && there != here && #[trigger] link_says(remote.links[l], here, there, row) {
        let (l, e, there) = choose|l: int, e: int, there: Seq<char>|
            0 <= l < remote.links.len() && 0 <= e < remote.links[l].issues.len()
                && #[trigger] became(id_map, remote.links[l].issues[e].id_readable, there) && there
                != here && #[trigger] link_says(remote.links[l], here, there, row);
        let link = remote.links[l];
        became_is_last_under(id_map, link.issues[e].id_readable, there);
        assert(row_of_end(link, here, id_map, link.issues[e]) == Some(row));
        every_end_is_recorded(remote, id_map, l, e);
    }
}

/// An adopted issue brings the comments that others made on it and that say
/// anything, word for word, and no others.
pub proof fn spoken_comments_are_imported(
    bead: Seq<char>,
    fetched: Seq<RemoteCommentView>,
    i: int,
    k: int,
)
    ensures
        0 <= i < fetched.len() && text::trimmed(fetched[i].text).len() > 0 && (forall|
            rest: Seq<char>,
        |
            !#[trigger] comments::is_ours(fetched[i].text, rest)) ==> imported_comments(
            bead,
            fetched,
        ).contains(
            ImportedCommentView { bead_id: bead, author: "youtrack"@, text: fetched[i].text },
        ),
        0 <= k < imported_comments(bead, fetched).len() ==> exists|j: int|
            0 <= j < fetched.len() && (#[trigger] fetched[j]).text == imported_comments(
                bead,
                fetched,
            )[k].text && text::trimmed(fetched[j].text).len() > 0 && forall|rest: Seq<char>|
                !#[trigger] comments::is_ours(fetched[j].text, rest),
{
    let f = |c: RemoteCommentView| imported_comment(bead, c);
    if 0 <= i < fetched.len() && text::trimmed(fetched[i].text).len() > 0 && (forall|
        rest: Seq<char>,
    |
        !#[trigger] comments::is_ours(fetched[i].text, rest)) {
        comments::our_comments_start_with_the_marker(fetched[i].text);
        text::picked_holds(fetched, f, i);
    }
    if 0 <= k < imported_comments(bead, fetched).len() {
        text::picked_comes_from(fetched, f, k);
        let j = choose|j: int|
            0 <= j < fetched.len() && f(#[trigger] fetched[j]) == Some(
                imported_comments(bead, fetched)[k],
            );
        comments::our_comments_start_with_the_marker(fetched[j].text);
        assert(fetched[j].text == imported_comments(bead, fetched)[k].text);
    }
}

/// A bead always has a title: that of its issue without the blanks around it,
/// or one that names the issue where it has none.
pub proof fn adopted_beads_have_a_title(c: AdoptionCandidateView)
    ensures
        title_of(c).len() > 0,
        c.fields.title == c.remote.summary && text::trimmed(c.remote.summary).len() > 0
            ==> title_of(c) == text::trimmed(c.remote.summary),
        text::trimmed(c.fields.title).len() == 0 && text::trimmed(c.remote.summary).len() == 0
            ==> text::holds(title_of(c), c.remote.id_readable),
{
    reveal_strlit("(untitled ");
    if text::trimmed(c.fields.title).len() == 0 && text::trimmed(c.remote.summary).len() == 0 {
        text::holds_itself(c.remote.id_readable);
        text::holds_within("(untitled "@, c.remote.id_readable, ")"@, c.remote.id_readable);
    }
}

/// A child is named after its parent, with a dot and its number behind it, so
/// two children of one parent never share a name.
pub proof fn children_are_numbered(parent: Seq<char>, m: u32, n: u32)
    ensures
        (parent + "."@).is_prefix_of(child_name(parent, m)),
        child_name(parent, m) == child_name(parent, n) ==> m == n,
        text::digits_value(child_name(parent, m).skip((parent.len() + 1) as int)) == Some(m as int),
{
    reveal_strlit(".");
    text::decimal_reads_back(m as int);
    text::decimal_reads_back(n as int);
    let start = parent + "."@;
    assert(child_name(parent, m).skip((parent.len() + 1) as int) =~= text::decimal(m as int));
    assert(child_name(parent, n).skip((parent.len() + 1) as int) =~= text::decimal(n as int));
    assert(child_name(parent, m).subrange(0, start.len() as int) =~= start);
}

/// A search tries the hundred numbers behind the first one too, as far as the
/// numbers go, and no more.
pub proof fn search_ends_a_hundred_on(first: u32)
    ensures
        first <= last_tried(first) <= first + 100,
        last_tried(first) < first + 100 ==> last_tried(first) == u32::MAX,
{
}

/// A candidate that is put off is told with the parent that it waits for, and
/// whether that parent was put off too.
pub proof fn deferrals_tell_their_parent(
    all: Seq<AdoptionCandidateView>,
    paired: Seq<(Seq<char>, Seq<char>)>,
    k: int,
)
    requires
        0 <= k < put_off(all, paired).len(),
    ensures
        ({
            let c = put_off(all, paired)[k];
            let d = deferral_of(c, all);
            &&& d.id_readable == c.remote.id_readable
            &&& Some(d.parent_id) == parent_named(c.remote.links)
            &&& d.reason is ParentDeferred <==> is_among(put_off(all, paired), d.parent_id)
        }),
{
    let c = put_off(all, paired)[k];
    only_orphans_are_put_off(all, paired, k);
    no_candidate_is_lost(all, paired);
    let made = creation_order(all, paired);
    let off = put_off(all, paired);
    let p = parent_named(c.remote.links)->0;
    all.to_multiset_ensures();
    made.to_multiset_ensures();
    off.to_multiset_ensures();
    if is_among(all, p) {
        let i = choose|i: int| 0 <= i < all.len() && (#[trigger] all[i]).remote.id_readable == p;
        assert(all.to_multiset().count(all[i]) > 0);
        assert(made.to_multiset().count(all[i]) + off.to_multiset().count(all[i]) > 0);
        if made.to_multiset().count(all[i]) > 0 {
            assert(made.contains(all[i]));
            let j = choose|j: int| 0 <= j < made.len() && made[j] == all[i];
            assert(made[j].remote.id_readable == p);
            assert(is_among(made, p));
        }
        assert(off.contains(all[i]));
        let j = choose|j: int| 0 <= j < off.len() && off[j] == all[i];
        assert(off[j].remote.id_readable == p);
    }
    if is_among(off, p) {
        let i = choose|i: int| 0 <= i < off.len() && (#[trigger] off[i]).remote.id_readable == p;
        assert(off.to_multiset().count(off[i]) > 0);
        assert(all.to_multiset().count(off[i]) > 0);
        assert(all.contains(off[i]));
        let j = choose|j: int| 0 <= j < all.len() && all[j] == off[i];
        assert(all[j].remote.id_readable == p);
    }
}

} // verus!
