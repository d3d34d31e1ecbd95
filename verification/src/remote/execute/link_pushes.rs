//! Pushing links.

use crate::remote::execute::field_pushes;
use crate::remote::execute::field_pushes::{
    PushReport, PushReportView, add_failure, failure_line, push_fields,
};
use crate::remote::http::{Request, RequestView};
use crate::remote::link_diff;
use crate::remote::link_diff::{kind_name, mirrored_direction, LinkChange, LinkChangeView};
use crate::remote::plan;
use crate::remote::plan::{IssueLinkPlanView, ReconcilePlan};
use crate::remote::talk;
use crate::remote::talk::{Stop, StopView, Talk, TalkView};
use crate::remote::youtrack::links;
use crate::remote::youtrack::links::{
    fetch_issue_links, link_add, link_remove, LinkTypes, LinkTypesView, RemoteLinkView,
};
use crate::text;
use crate::text::same_text;
use vstd::prelude::*;
use vstd::string::*;

verus! {

broadcast use vstd::string::group_string_axioms;

/// What is said of a link whose answer was lost although it was written.
pub const LOST_ANSWER: &'static str = "(the answer was lost; the mirror already has it)";

/// A change of a link in a report.
pub open spec fn link_text(remote_id: Seq<char>, change: LinkChangeView) -> Seq<char> {
    match change {
        LinkChangeView::Add { kind, target_readable } => remote_id + " + "@
            + link_diff::kind_text(kind) + " "@ + target_readable,
        LinkChangeView::Remove { kind, target_internal_id: _, target_readable } => remote_id
            + " - "@ + link_diff::kind_text(kind) + " "@ + target_readable,
    }
}

/// The request that makes a change of a link. A link is written under the
/// identifier that it was looked for under.
pub open spec fn link_request(
    types: LinkTypesView,
    remote_id: Seq<char>,
    change: LinkChangeView,
) -> RequestView {
    match change {
        LinkChangeView::Add { kind, target_readable } => links::link_add_of(
            remote_id,
            link_diff::mirrored_link_id(types, kind),
            target_readable,
        ),
        LinkChangeView::Remove { kind, target_internal_id, target_readable: _ } =>
            links::link_remove_of(
            remote_id,
            link_diff::mirrored_link_id(types, kind),
            target_internal_id,
        ),
    }
}

/// The links are as the change wants them.
pub open spec fn change_holds(
    types: LinkTypesView,
    change: LinkChangeView,
    now: Seq<RemoteLinkView>,
) -> bool {
    match change {
        LinkChangeView::Add { kind, target_readable } => link_diff::readable_ids(
            link_diff::present_under(now, link_diff::mirrored_link_id(types, kind)),
        ).contains(target_readable),
        LinkChangeView::Remove { kind, target_internal_id: _, target_readable } =>
            !link_diff::readable_ids(
            link_diff::present_under(now, link_diff::mirrored_link_id(types, kind)),
        ).contains(target_readable),
    }
}

/// Looking whether a change has been made.
pub open spec fn change_landed(
    types: LinkTypesView,
    remote_id: Seq<char>,
    change: LinkChangeView,
    t: TalkView,
) -> (Result<bool, StopView>, TalkView) {
    match links::issue_links(remote_id, types, t) {
        (Err(stop), after) => (Err(stop), after),
        (Ok(now), after) => (Ok(change_holds(types, change, now)), after),
    }
}

/// The report with a change that was made.
pub open spec fn with_link(
    report: PushReportView,
    change: LinkChangeView,
    line: Seq<char>,
) -> PushReportView {
    match change {
        LinkChangeView::Add { .. } => PushReportView {
            links_added: report.links_added.push(line),
            ..report
        },
        LinkChangeView::Remove { .. } => PushReportView {
            links_removed: report.links_removed.push(line),
            ..report
        },
    }
}

/// How far a part of a push has come.
pub struct PartPush {
    pub report: PushReportView,
    pub stop: Option<StopView>,
    pub talk: TalkView,
}

/// One change of a link. One that fails is looked for before it is called a
/// failure; where that cannot be told either, it is one.
pub open spec fn link_pushed(
    types: LinkTypesView,
    remote_id: Seq<char>,
    change: LinkChangeView,
    report: PushReportView,
    t: TalkView,
) -> PartPush {
    let line = link_text(remote_id, change);
    match talk::heard(link_request(types, remote_id, change), 0, t) {
        (Err(stop), after) => PartPush { report, stop: Some(stop), talk: after },
        (Ok(Ok(_)), after) => PartPush {
            report: with_link(report, change, line),
            stop: None,
            talk: after,
        },
        (Ok(Err(e)), after) => match change_landed(types, remote_id, change, after) {
            (Ok(true), end) => PartPush {
                report: with_link(report, change, line + " "@ + LOST_ANSWER@),
                stop: None,
                talk: end,
            },
            (Err(StopView::Ask { request, pause }), end) => PartPush {
                report,
                stop: Some(StopView::Ask { request, pause }),
                talk: end,
            },
            (_, end) => PartPush {
                report: field_pushes::with_failure(report, field_pushes::failure_text(line, e)),
                stop: None,
                talk: end,
            },
        },
    }
}

/// The changes of links from the `j`-th of the `i`-th pair on.
pub open spec fn links_pushed_from(
    types: LinkTypesView,
    plans: Seq<IssueLinkPlanView>,
    i: int,
    j: int,
    report: PushReportView,
    t: TalkView,
) -> PartPush
    decreases plans.len() - i, (if 0 <= i < plans.len() { plans[i].changes.len() - j } else { 0 }),
{
    if i < 0 || i >= plans.len() {
        PartPush { report, stop: None, talk: t }
    } else if j < 0 || j >= plans[i].changes.len() {
        links_pushed_from(types, plans, i + 1, 0, report, t)
    } else {
        let one = link_pushed(types, plans[i].remote_id, plans[i].changes[j], report, t);
        if one.stop is Some {
            one
        } else {
            links_pushed_from(types, plans, i, j + 1, one.report, one.talk)
        }
    }
}

fn link_line(remote_id: &str, change: &LinkChange) -> (r: String)
    ensures
        r@ == link_text(remote_id@, change@),
{
    let mut out = remote_id.to_owned();
    match change {
        LinkChange::Add { kind, target_readable } => {
            out.append(" + ");
            out.append(kind_name(*kind));
            out.append(" ");
            out.append(target_readable.as_str());
        },
        LinkChange::Remove { kind, target_readable, .. } => {
            out.append(" - ");
            out.append(kind_name(*kind));
            out.append(" ");
            out.append(target_readable.as_str());
        },
    }
    out
}

fn link_write(types: &LinkTypes, remote_id: &str, change: &LinkChange) -> (r: Request)
    ensures
        r@ == link_request(types@, remote_id@, change@),
{
    match change {
        LinkChange::Add { kind, target_readable } => {
            let link_id = types.link_id(*kind, mirrored_direction(*kind));
            link_add(remote_id, link_id.as_str(), target_readable.as_str())
        },
        LinkChange::Remove { kind, target_internal_id, .. } => {
            let link_id = types.link_id(*kind, mirrored_direction(*kind));
            link_remove(remote_id, link_id.as_str(), target_internal_id.as_str())
        },
    }
}

fn is_linked(list: &Vec<links::RemoteLink>, link_id: &str, target: &str) -> (r: bool)
    ensures
        r == link_diff::readable_ids(
            link_diff::present_under(text::views(list@), link_id@),
        ).contains(target@),
{
    let ghost all = text::views(list@);
    let mut i: usize = 0;
    let mut found = false;
    assert(link_diff::readable_ids(link_diff::present_under(all.take(0), link_id@)) =~= Seq::<
        Seq<char>,
    >::empty());
    while i < list.len()
        invariant
            i <= list@.len(),
            all == text::views(list@),
            found == link_diff::readable_ids(
                link_diff::present_under(all.take(i as int), link_id@),
            ).contains(target@),
        decreases list@.len() - i,
    {
        let link = &list[i];
        let ghost before = link_diff::present_under(all.take(i as int), link_id@);
        proof {
            assert(all.take(i + 1).drop_last() =~= all.take(i as int));
            assert(all.take(i + 1).last() == link@);
        }
        if same_text(link.link_id.as_str(), link_id) {
            let here = names_issue(&link.issues, target);
            proof {
                let own = link@.issues;
                let ids = link_diff::readable_ids(before + own);
                let first = link_diff::readable_ids(before);
                let second = link_diff::readable_ids(own);
                assert(ids =~= first + second);
                if first.contains(target@) {
                    let k = choose|k: int| 0 <= k < first.len() && first[k] == target@;
                    assert(ids[k] == target@);
                }
                if second.contains(target@) {
                    let k = choose|k: int| 0 <= k < second.len() && second[k] == target@;
                    assert(ids[first.len() + k] == target@);
                }
                if ids.contains(target@) {
                    let k = choose|k: int| 0 <= k < ids.len() && ids[k] == target@;
                    if k < first.len() {
                        assert(first[k] == target@);
                    } else {
                        assert(second[k - first.len()] == target@);
                    }
                }
            }
            found = found || here;
        }
        i += 1;
    }
    assert(all.take(i as int) =~= all);
    found
}

fn names_issue(issues: &Vec<links::LinkedIssue>, target: &str) -> (r: bool)
    ensures
        r == link_diff::readable_ids(text::views(issues@)).contains(target@),
{
    let ghost ids = link_diff::readable_ids(text::views(issues@));
    let mut i: usize = 0;
    while i < issues.len()
        invariant
            i <= issues@.len(),
            ids == link_diff::readable_ids(text::views(issues@)),
            forall|k: int| 0 <= k < i ==> #[trigger] ids[k] != target@,
        decreases issues@.len() - i,
    {
        if same_text(issues[i].id_readable.as_str(), target) {
            assert(ids[i as int] == target@);
            return true;
        }
        i += 1;
    }
    false
}

/// Looks whether the mirror is as a change wants it.
pub fn link_change_landed(
    talk: &mut Talk,
    types: &LinkTypes,
    remote_id: &str,
    change: &LinkChange,
) -> (r: Result<bool, Stop>)
    ensures
        (match r {
            Ok(b) => Ok(b),
            Err(stop) => Err(stop@),
        }, final(talk)@) == change_landed(types@, remote_id@, change@, old(talk)@),
        final(talk)@.rest.len() <= old(talk)@.rest.len(),
{
    let now = match fetch_issue_links(talk, remote_id, types) {
        Ok(now) => now,
        Err(stop) => {
            return Err(stop);
        },
    };
    match change {
        LinkChange::Add { kind, target_readable } => {
            let link_id = types.link_id(*kind, mirrored_direction(*kind));
            Ok(is_linked(&now, link_id.as_str(), target_readable.as_str()))
        },
        LinkChange::Remove { kind, target_readable, .. } => {
            let link_id = types.link_id(*kind, mirrored_direction(*kind));
            Ok(!is_linked(&now, link_id.as_str(), target_readable.as_str()))
        },
    }
}

fn add_link(report: &mut PushReport, change: &LinkChange, line: String)
    ensures
        final(report)@ == with_link(old(report)@, change@, line@),
{
    match change {
        LinkChange::Add { .. } => {
            proof {
                text::views_push(report.links_added@, line);
            }
            report.links_added.push(line);
        },
        LinkChange::Remove { .. } => {
            proof {
                text::views_push(report.links_removed@, line);
            }
            report.links_removed.push(line);
        },
    }
}

fn push_link(
    talk: &mut Talk,
    types: &LinkTypes,
    remote_id: &str,
    change: &LinkChange,
    report: &mut PushReport,
) -> (r: Option<Stop>)
    ensures
        ({
            let end = link_pushed(types@, remote_id@, change@, old(report)@, old(talk)@);
            final(report)@ == end.report && text::seen(r) == end.stop && final(talk)@ == end.talk
        }),
        final(talk)@.rest.len() <= old(talk)@.rest.len(),
{
    let line = link_line(remote_id, change);
    let e = match talk.hear(link_write(types, remote_id, change), 0) {
        Err(stop) => {
            return Some(stop);
        },
        Ok(reply) => match reply {
            Ok(_) => {
                add_link(report, change, line);
                return None;
            },
            Err(e) => e,
        },
    };
    match link_change_landed(talk, types, remote_id, change) {
        Ok(true) => {
            let mut recovered = line;
            recovered.append(" ");
            recovered.append(LOST_ANSWER);
            add_link(report, change, recovered);
            None
        },
        Err(Stop::Ask { request, pause }) => Some(Stop::Ask { request, pause }),
        _ => {
            add_failure(report, failure_line(line.as_str(), e));
            None
        },
    }
}

/// Makes every change of a link that the plan lists.
#[verifier::loop_isolation(false)]
pub fn push_links(
    talk: &mut Talk,
    types: &LinkTypes,
    plan: &ReconcilePlan,
    report: &mut PushReport,
) -> (r: Option<Stop>)
    ensures
        ({
            let end = links_pushed_from(
                types@,
                plan@.link_changes,
                0,
                0,
                old(report)@,
                old(talk)@,
            );
            final(report)@ == end.report && text::seen(r) == end.stop && final(talk)@ == end.talk
        }),
        final(talk)@.rest.len() <= old(talk)@.rest.len(),
{
    let ghost start = talk@;
    let ghost all = text::views(plan.link_changes@);
    let ghost whole = links_pushed_from(types@, all, 0, 0, report@, talk@);
    let mut i: usize = 0;
    while i < plan.link_changes.len()
        invariant
            i <= plan.link_changes@.len(),
            talk@.rest.len() <= start.rest.len(),
            whole == links_pushed_from(types@, all, i as int, 0, report@, talk@),
        decreases plan.link_changes@.len() - i,
    {
        let issue = &plan.link_changes[i];
        assert(all[i as int] == issue@);
        let mut j: usize = 0;
        while j < issue.changes.len()
            invariant
                j <= issue.changes@.len(),
                talk@.rest.len() <= start.rest.len(),
                whole == links_pushed_from(types@, all, i as int, j as int, report@, talk@),
            decreases issue.changes@.len() - j,
        {
            assert(all[i as int].changes[j as int] == issue.changes@[j as int]@);
            if let Some(stop) = push_link(
                talk,
                types,
                issue.remote_id.as_str(),
                &issue.changes[j],
                report,
            ) {
                return Some(stop);
            }
            j += 1;
        }
        i += 1;
    }
    None
}

} // verus!
