//! Who uses a bundle, as a fact and not as a guess.
//!
//! A bundle whose only user is the field that is about to change is private;
//! every other one is shared, be it by two projects or by two fields of one.
//! A scan that could not be made says nothing, and that is not the same as
//! private.

use crate::json;
use crate::json::{Json, JsonView};
use crate::order;
use crate::order::add_text;
use crate::remote::error;
use crate::remote::error::RemoteError;
use crate::remote::talk::{Stop, StopView, Talk, TalkView, MOST_REPLIES};
use crate::remote::youtrack::admin;
use crate::remote::youtrack::admin::{read_listing, AdminClient, PAGE_SIZE};
use crate::text;
use crate::text::same_text;
use vstd::prelude::*;
use vstd::string::*;

verus! {

broadcast use vstd::string::group_string_axioms;

/// Where the users of every bundle are listed.
pub const SCAN_PATH: &'static str =
    "/api/admin/customFieldSettings/customFields?fields=id,name,instances(id,project(shortName),bundle(id,name))";

/// A field of a project that uses a bundle.
#[derive(Debug, Clone, PartialEq, Eq)]
pub struct BundleUser {
    pub field_name: String,
    pub project_short_name: String,
    pub instance_id: String,
}

/// What contracts say of a [`BundleUser`].
pub struct BundleUserView {
    pub field_name: Seq<char>,
    pub project_short_name: Seq<char>,
    pub instance_id: Seq<char>,
}

impl View for BundleUser {
    type V = BundleUserView;

    open spec fn view(&self) -> BundleUserView {
        BundleUserView {
            field_name: self.field_name@,
            project_short_name: self.project_short_name@,
            instance_id: self.instance_id@,
        }
    }
}

/// How a user is named.
pub open spec fn label_of(u: BundleUserView) -> Seq<char> {
    u.field_name + "@"@ + u.project_short_name
}

impl BundleUser {
    /// How this user is named.
    pub fn label(&self) -> (r: String)
        ensures
            r@ == label_of(self@),
    {
        let mut out = self.field_name.clone();
        out.append("@");
        out.append(self.project_short_name.as_str());
        out
    }
}

/// Who uses a bundle.
#[derive(Debug, Clone, PartialEq, Eq)]
pub enum Sharedness {
    /// Nobody but the field that is about to change.
    Private,
    /// Others do, too.
    Shared { others: Vec<String> },
    /// Nothing is known.
    Unavailable { reason: String },
}

/// What contracts say of a [`Sharedness`].
pub enum SharednessView {
    Private,
    Shared { others: Seq<Seq<char>> },
    Unavailable { reason: Seq<char> },
}

impl View for Sharedness {
    type V = SharednessView;

    open spec fn view(&self) -> SharednessView {
        match self {
            Sharedness::Private => SharednessView::Private,
            Sharedness::Shared { others } => SharednessView::Shared {
                others: text::views(others@),
            },
            Sharedness::Unavailable { reason } => SharednessView::Unavailable { reason: reason@ },
        }
    }
}

/// A bundle with one of its users.
#[derive(Debug, Clone, PartialEq, Eq)]
pub struct BundleUse {
    pub bundle_id: String,
    pub user: BundleUser,
}

/// What contracts say of a [`BundleUse`].
pub struct BundleUseView {
    pub bundle_id: Seq<char>,
    pub user: BundleUserView,
}

impl View for BundleUse {
    type V = BundleUseView;

    open spec fn view(&self) -> BundleUseView {
        BundleUseView {
            bundle_id: self.bundle_id@,
            user: self.user@,
        }
    }
}

/// A bundle with its users.
#[derive(Debug, Clone, PartialEq, Eq)]
pub struct BundleUsers {
    pub bundle_id: String,
    pub users: Vec<BundleUser>,
}

/// What contracts say of a [`BundleUsers`].
pub struct BundleUsersView {
    pub bundle_id: Seq<char>,
    pub users: Seq<BundleUserView>,
}

impl View for BundleUsers {
    type V = BundleUsersView;

    open spec fn view(&self) -> BundleUsersView {
        BundleUsersView {
            bundle_id: self.bundle_id@,
            users: text::views(self.users@),
        }
    }
}

/// The users of all bundles.
#[derive(Debug, Clone, PartialEq, Eq)]
pub struct BundleUsage {
    /// The bundles that the scan saw, in the order of their ids and each
    /// once, with their users in the order of the scan. Of a bundle that
    /// stands here twice, only the first entry counts.
    pub users: Vec<BundleUsers>,
    /// The projects that the scan saw, in order and each once.
    pub projects_seen: Vec<String>,
    unavailable: Option<String>,
}

/// What contracts say of a [`BundleUsage`].
pub struct BundleUsageView {
    pub users: Seq<BundleUsersView>,
    pub projects_seen: Seq<Seq<char>>,
    /// Why the scan could not be made.
    pub unavailable: Option<Seq<char>>,
}

impl View for BundleUsage {
    type V = BundleUsageView;

    closed spec fn view(&self) -> BundleUsageView {
        BundleUsageView {
            users: text::views(self.users@),
            projects_seen: text::views(self.projects_seen@),
            unavailable: text::seen(self.unavailable),
        }
    }
}

/// The users of a bundle, where the list has an entry for it.
pub open spec fn listed_users(entries: Seq<BundleUsersView>, bundle_id: Seq<char>) -> Option<
    Seq<BundleUserView>,
>
    decreases entries.len(),
{
    if entries.len() == 0 {
        None
    } else if entries[0].bundle_id == bundle_id {
        Some(entries[0].users)
    } else {
        listed_users(entries.drop_first(), bundle_id)
    }
}

/// The users of one bundle, where it is listed at all. A bundle may be listed
/// with nobody who uses it.
pub open spec fn users_of(usage: BundleUsageView, bundle_id: Seq<char>) -> Option<
    Seq<BundleUserView>,
> {
    listed_users(usage.users, bundle_id)
}

/// The name of a user other than the field of the project.
pub open spec fn other_user(u: BundleUserView, field_name: Seq<char>, project: Seq<char>) -> Option<
    Seq<char>,
> {
    if u.field_name == field_name && u.project_short_name == project {
        None
    } else {
        Some(label_of(u))
    }
}

/// Who uses a bundle, seen from a field of a project.
pub open spec fn sharedness_of(
    usage: BundleUsageView,
    bundle_id: Seq<char>,
    field_name: Seq<char>,
    project: Seq<char>,
) -> SharednessView {
    match usage.unavailable {
        Some(reason) => SharednessView::Unavailable { reason },
        None => match users_of(usage, bundle_id) {
            None => SharednessView::Unavailable {
                reason: "bundle "@ + bundle_id + " did not appear in the scan"@,
            },
            Some(users) => {
                let others = text::picked(
                    users,
                    |u: BundleUserView| other_user(u, field_name, project),
                );
                if others.len() == 0 {
                    SharednessView::Private
                } else {
                    SharednessView::Shared { others }
                }
            },
        },
    }
}

impl Default for BundleUsage {
    /// A scan that saw nothing.
    fn default() -> (r: BundleUsage)
        ensures
            r@ == (BundleUsageView {
                users: Seq::empty(),
                projects_seen: Seq::empty(),
                unavailable: None,
            }),
    {
        let r = BundleUsage { users: Vec::new(), projects_seen: Vec::new(), unavailable: None };
        assert(r@.users =~= Seq::empty());
        assert(r@.projects_seen =~= Seq::empty());
        r
    }
}

impl BundleUsage {
    /// What is known where the scan could not be made: nothing.
    pub fn unavailable_from(err: RemoteError) -> (r: BundleUsage)
        ensures
            r@ == (BundleUsageView {
                users: Seq::empty(),
                projects_seen: Seq::empty(),
                unavailable: Some(error::error_text(err@)),
            }),
    {
        let r = BundleUsage {
            users: Vec::new(),
            projects_seen: Vec::new(),
            unavailable: Some(err.to_string()),
        };
        assert(r@.users =~= Seq::empty());
        assert(r@.projects_seen =~= Seq::empty());
        r
    }

    /// Whether the scan itself failed. A bundle that a scan did not mention
    /// is another matter.
    pub fn scan_failed(&self) -> (r: bool)
        ensures
            r == (self@.unavailable is Some),
    {
        self.unavailable.is_some()
    }

    /// The projects that the scan saw.
    pub fn projects(&self) -> (r: &Vec<String>)
        ensures
            text::views(r@) == self@.projects_seen,
    {
        &self.projects_seen
    }

    fn listed(&self, bundle_id: &str) -> (r: Option<&Vec<BundleUser>>)
        ensures
            (match r {
                Some(users) => Some(text::views(users@)),
                None => None,
            }) == users_of(self@, bundle_id@),
    {
        let ghost all = text::views(self.users@);
        let mut i: usize = 0;
        assert(all.skip(0) =~= all);
        while i < self.users.len()
            invariant
                i <= self.users@.len(),
                all == text::views(self.users@),
                listed_users(all, bundle_id@) == listed_users(all.skip(i as int), bundle_id@),
            decreases self.users@.len() - i,
        {
            assert(all.skip(i as int)[0] == self.users@[i as int]@);
            assert(all.skip(i as int).drop_first() =~= all.skip(i + 1));
            if same_text(self.users[i].bundle_id.as_str(), bundle_id) {
                return Some(&self.users[i].users);
            }
            i += 1;
        }
        None
    }

    /// Whether the scan has an entry for the bundle.
    pub fn lists(&self, bundle_id: &str) -> (r: bool)
        ensures
            r == (users_of(self@, bundle_id@) is Some),
    {
        self.listed(bundle_id).is_some()
    }

    /// Whether values can be added to the bundle of a field without anybody
    /// else seeing them.
    pub fn verdict(&self, bundle_id: &str, field_name: &str, project: &str) -> (r: Sharedness)
        ensures
            r@ == sharedness_of(self@, bundle_id@, field_name@, project@),
    {
        if let Some(reason) = &self.unavailable {
            return Sharedness::Unavailable { reason: reason.clone() };
        }
        let users = match self.listed(bundle_id) {
            Some(users) => users,
            None => {
                let mut reason = "bundle ".to_owned();
                reason.append(bundle_id);
                reason.append(" did not appear in the scan");
                return Sharedness::Unavailable { reason };
            },
        };
        let ghost all = text::views(users@);
        let ghost g = |u: BundleUserView| other_user(u, field_name@, project@);
        let mut others: Vec<String> = Vec::new();
        let mut i: usize = 0;
        assert(text::views(others@) =~= text::picked(all.take(0), g));
        while i < users.len()
            invariant
                i <= users@.len(),
                all == text::views(users@),
                g == (|u: BundleUserView| other_user(u, field_name@, project@)),
                text::views(others@) == text::picked(all.take(i as int), g),
            decreases users@.len() - i,
        {
            let one = &users[i];
            proof {
                text::picked_step(all, g, i as int);
                assert(all[i as int] == one@);
            }
            if !(same_text(one.field_name.as_str(), field_name) && same_text(
                one.project_short_name.as_str(),
                project,
            )) {
                let label = one.label();
                proof {
                    text::views_push(others@, label);
                }
                others.push(label);
            }
            i += 1;
        }
        assert(all.take(i as int) =~= all);
        assert(text::views(others@).len() == others@.len());
        if others.len() == 0 {
            Sharedness::Private
        } else {
            Sharedness::Shared { others }
        }
    }
}

/// A failed scan never makes a bundle private.
pub proof fn failed_scan_is_never_private(
    usage: BundleUsageView,
    bundle_id: Seq<char>,
    field_name: Seq<char>,
    project: Seq<char>,
)
    requires
        usage.unavailable is Some,
    ensures
        sharedness_of(usage, bundle_id, field_name, project) is Unavailable,
{
}

/// A bundle is private exactly where a scan was made, it lists the bundle, and
/// every user that it lists is the field itself.
pub proof fn private_means_no_other_user(
    usage: BundleUsageView,
    bundle_id: Seq<char>,
    field_name: Seq<char>,
    project: Seq<char>,
)
    ensures
        sharedness_of(usage, bundle_id, field_name, project) is Private <==> (
        usage.unavailable is None && (users_of(usage, bundle_id) matches Some(users) && forall|
            i: int,
        |
            0 <= i < users.len() ==> (#[trigger] users[i]).field_name == field_name
                && users[i].project_short_name == project)),
{
    if let Some(users) = users_of(usage, bundle_id) {
        let g = |u: BundleUserView| other_user(u, field_name, project);
        if forall|i: int|
            0 <= i < users.len() ==> (#[trigger] users[i]).field_name == field_name
                && users[i].project_short_name == project {
            text::picked_nothing(users, g);
        } else {
            let i = choose|i: int|
                0 <= i < users.len() && !((#[trigger] users[i]).field_name == field_name
                    && users[i].project_short_name == project);
            text::picked_holds(users, g, i);
        }
    }
}

/// The use of a bundle by one field of one project.
pub open spec fn use_read(field_name: Seq<char>, instance: JsonView) -> Option<BundleUseView> {
    match json::member(instance, "bundle"@) {
        Some(bundle) if json::text_or_empty(bundle, "id"@).len() > 0 => Some(
            BundleUseView {
                bundle_id: json::text_or_empty(bundle, "id"@),
                user: BundleUserView {
                    field_name,
                    project_short_name: match json::member(instance, "project"@) {
                        Some(p) => json::text_or_empty(p, "shortName"@),
                        None => Seq::empty(),
                    },
                    instance_id: json::text_or_empty(instance, "id"@),
                },
            },
        ),
        _ => None,
    }
}

/// The uses of bundles by one field.
pub open spec fn uses_of_field(field: JsonView) -> Seq<BundleUseView> {
    text::picked(
        json::items_of(json::member(field, "instances"@)),
        |i: JsonView| use_read(json::text_or_empty(field, "name"@), i),
    )
}

/// The uses of bundles by all fields.
pub open spec fn uses_of(fields: Seq<JsonView>) -> Seq<BundleUseView> {
    text::told(fields, |f: JsonView| uses_of_field(f))
}

/// The users of one bundle among all uses.
pub open spec fn users_among(uses: Seq<BundleUseView>, bundle_id: Seq<char>) -> Seq<BundleUserView> {
    text::picked(
        uses,
        |u: BundleUseView|
            if u.bundle_id == bundle_id {
                Some(u.user)
            } else {
                None
            },
    )
}

/// The bundles that are used, in order and each once.
pub open spec fn used_bundles(uses: Seq<BundleUseView>) -> Seq<Seq<char>> {
    order::distinct_sorted(uses.map_values(|u: BundleUseView| u.bundle_id))
}

/// The entry of one bundle.
pub open spec fn entry_for(uses: Seq<BundleUseView>, bundle_id: Seq<char>) -> BundleUsersView {
    BundleUsersView { bundle_id, users: users_among(uses, bundle_id) }
}

/// What a scan of all fields says.
pub open spec fn usage_read(fields: Seq<JsonView>) -> BundleUsageView {
    BundleUsageView {
        users: used_bundles(uses_of(fields)).map_values(
            |id: Seq<char>| entry_for(uses_of(fields), id),
        ),
        projects_seen: order::distinct_sorted(
            uses_of(fields).map_values(|u: BundleUseView| u.user.project_short_name),
        ),
        unavailable: None,
    }
}

/// The whole scan.
pub open spec fn scanned(t: TalkView) -> (Result<BundleUsageView, StopView>, TalkView) {
    match admin::listed(SCAN_PATH@, "bundle usage scan"@, PAGE_SIZE, t) {
        (Ok(items), after) => (Ok(usage_read(items)), after),
        (Err(stop), after) => (Err(stop), after),
    }
}

proof fn listed_among_entries(
    uses: Seq<BundleUseView>,
    ids: Seq<Seq<char>>,
    bundle_id: Seq<char>,
)
    ensures
        listed_users(ids.map_values(|id: Seq<char>| entry_for(uses, id)), bundle_id) == (
        if ids.contains(bundle_id) {
            Some(users_among(uses, bundle_id))
        } else {
            None
        }),
    decreases ids.len(),
{
    let entries = ids.map_values(|id: Seq<char>| entry_for(uses, id));
    if ids.len() > 0 {
        let rest = ids.drop_first();
        listed_among_entries(uses, rest, bundle_id);
        assert(entries.drop_first() =~= rest.map_values(|id: Seq<char>| entry_for(uses, id)));
        if ids[0] != bundle_id {
            assert(rest.contains(bundle_id) == ids.contains(bundle_id)) by {
                if ids.contains(bundle_id) {
                    let k = choose|k: int| 0 <= k < ids.len() && ids[k] == bundle_id;
                    assert(rest[k - 1] == bundle_id);
                }
                if rest.contains(bundle_id) {
                    let k = choose|k: int| 0 <= k < rest.len() && rest[k] == bundle_id;
                    assert(ids[k + 1] == bundle_id);
                }
            }
        }
    }
}

/// A scan lists the bundles that some field uses and no others, in order and
/// each once, with all their users.
pub proof fn scan_lists_used_bundles(fields: Seq<JsonView>, bundle_id: Seq<char>)
    ensures
        users_of(usage_read(fields), bundle_id) == (if exists|i: int|
            0 <= i < uses_of(fields).len() && (#[trigger] uses_of(fields)[i]).bundle_id
                == bundle_id {
            Some(users_among(uses_of(fields), bundle_id))
        } else {
            None
        }),
        users_of(usage_read(fields), bundle_id) matches Some(users) ==> users.len() > 0,
        order::strictly_rising(
            usage_read(fields).users.map_values(|u: BundleUsersView| u.bundle_id),
        ),
{
    let uses = uses_of(fields);
    let used = uses.map_values(|u: BundleUseView| u.bundle_id);
    let ids = used_bundles(uses);
    order::distinct_sorted_facts(used);
    listed_among_entries(uses, ids, bundle_id);
    assert(usage_read(fields).users.map_values(|u: BundleUsersView| u.bundle_id) =~= ids);
    assert(ids.to_set().contains(bundle_id) == used.to_set().contains(bundle_id));
    if used.contains(bundle_id) {
        let i = choose|i: int| 0 <= i < used.len() && used[i] == bundle_id;
        assert(uses[i].bundle_id == bundle_id);
        text::picked_holds(
            uses,
            |u: BundleUseView|
                if u.bundle_id == bundle_id {
                    Some(u.user)
                } else {
                    None
                },
            i,
        );
    } else if exists|i: int| 0 <= i < uses.len() && (#[trigger] uses[i]).bundle_id == bundle_id {
        let i = choose|i: int| 0 <= i < uses.len() && (#[trigger] uses[i]).bundle_id == bundle_id;
        assert(used[i] == bundle_id);
    }
}

fn read_use(field_name: &str, instance: &Json) -> (r: Option<BundleUse>)
    ensures
        text::seen(r) == use_read(field_name@, instance@),
{
    let bundle_id = match instance.get("bundle") {
        Some(bundle) => bundle.text_or_empty("id"),
        None => {
            return None;
        },
    };
    if bundle_id.is_empty() {
        return None;
    }
    let project_short_name = match instance.get("project") {
        Some(p) => p.text_or_empty("shortName").to_owned(),
        None => String::new(),
    };
    let user = BundleUser {
        field_name: field_name.to_owned(),
        project_short_name,
        instance_id: instance.text_or_empty("id").to_owned(),
    };
    let found = BundleUse { bundle_id: bundle_id.to_owned(), user };
    assert(found@.user.project_short_name =~= use_read(
        field_name@,
        instance@,
    )->0.user.project_short_name);
    Some(found)
}

fn read_field_uses(field: &Json, uses: &mut Vec<BundleUse>)
    ensures
        text::views(final(uses)@) == text::views(old(uses)@) + uses_of_field(field@),
{
    let ghost start = text::views(uses@);
    let field_name = field.text_or_empty("name");
    let instances = field.items_at("instances");
    let ghost all = text::views(instances@);
    let ghost f = |i: JsonView| use_read(field_name@, i);
    let mut i: usize = 0;
    assert(start + text::picked(all.take(0), f) =~= start);
    while i < instances.len()
        invariant
            i <= instances@.len(),
            all == text::views(instances@),
            f == (|i: JsonView| use_read(field_name@, i)),
            text::views(uses@) == start + text::picked(all.take(i as int), f),
        decreases instances@.len() - i,
    {
        let ghost had = text::picked(all.take(i as int), f);
        proof {
            text::picked_step(all, f, i as int);
        }
        if let Some(one) = read_use(field_name, &instances[i]) {
            proof {
                text::views_push(uses@, one);
                assert((start + had).push(one@) =~= start + had.push(one@));
            }
            uses.push(one);
        }
        i += 1;
    }
    assert(all.take(i as int) =~= all);
}

fn projects_of(uses: &Vec<BundleUse>) -> (r: Vec<String>)
    ensures
        text::views(r@) == order::distinct_sorted(
            text::views(uses@).map_values(|u: BundleUseView| u.user.project_short_name),
        ),
{
    let ghost all = text::views(uses@).map_values(|u: BundleUseView| u.user.project_short_name);
    let mut out: Vec<String> = Vec::new();
    let mut i: usize = 0;
    assert(text::views(out@) =~= order::distinct_sorted(all.take(0)));
    while i < uses.len()
        invariant
            i <= uses@.len(),
            all == text::views(uses@).map_values(
                |u: BundleUseView| u.user.project_short_name,
            ),
            text::views(out@) == order::distinct_sorted(all.take(i as int)),
        decreases uses@.len() - i,
    {
        assert(all.take(i + 1).drop_last() =~= all.take(i as int));
        assert(all.take(i + 1).last() == uses@[i as int]@.user.project_short_name);
        add_text(&mut out, uses[i].user.project_short_name.as_str());
        i += 1;
    }
    assert(all.take(i as int) =~= all);
    out
}

fn bundles_of(uses: &Vec<BundleUse>) -> (r: Vec<String>)
    ensures
        text::views(r@) == used_bundles(text::views(uses@)),
{
    let ghost all = text::views(uses@).map_values(|u: BundleUseView| u.bundle_id);
    let mut out: Vec<String> = Vec::new();
    let mut i: usize = 0;
    assert(text::views(out@) =~= order::distinct_sorted(all.take(0)));
    while i < uses.len()
        invariant
            i <= uses@.len(),
            all == text::views(uses@).map_values(|u: BundleUseView| u.bundle_id),
            text::views(out@) == order::distinct_sorted(all.take(i as int)),
        decreases uses@.len() - i,
    {
        assert(all.take(i + 1).drop_last() =~= all.take(i as int));
        assert(all.take(i + 1).last() == uses@[i as int]@.bundle_id);
        add_text(&mut out, uses[i].bundle_id.as_str());
        i += 1;
    }
    assert(all.take(i as int) =~= all);
    out
}

fn users_in(uses: &Vec<BundleUse>, bundle_id: &str) -> (r: Vec<BundleUser>)
    ensures
        text::views(r@) == users_among(text::views(uses@), bundle_id@),
{
    let ghost all = text::views(uses@);
    let ghost f = |u: BundleUseView|
        if u.bundle_id == bundle_id@ {
            Some(u.user)
        } else {
            None
        };
    let mut out: Vec<BundleUser> = Vec::new();
    let mut i: usize = 0;
    assert(text::views(out@) =~= text::picked(all.take(0), f));
    while i < uses.len()
        invariant
            i <= uses@.len(),
            all == text::views(uses@),
            f == (|u: BundleUseView|
                if u.bundle_id == bundle_id@ {
                    Some(u.user)
                } else {
                    None
                }),
            text::views(out@) == text::picked(all.take(i as int), f),
        decreases uses@.len() - i,
    {
        let one = &uses[i];
        proof {
            text::picked_step(all, f, i as int);
            assert(all[i as int] == one@);
        }
        if same_text(one.bundle_id.as_str(), bundle_id) {
            let user = BundleUser {
                field_name: one.user.field_name.clone(),
                project_short_name: one.user.project_short_name.clone(),
                instance_id: one.user.instance_id.clone(),
            };
            proof {
                text::views_push(out@, user);
                assert(user@ == one.user@);
            }
            out.push(user);
        }
        i += 1;
    }
    assert(all.take(i as int) =~= all);
    out
}

fn group_uses(uses: &Vec<BundleUse>) -> (r: Vec<BundleUsers>)
    ensures
        text::views(r@) == used_bundles(text::views(uses@)).map_values(
            |id: Seq<char>| entry_for(text::views(uses@), id),
        ),
{
    let ids = bundles_of(uses);
    let ghost seen = text::views(uses@);
    let ghost want = text::views(ids@).map_values(|id: Seq<char>| entry_for(seen, id));
    let mut out: Vec<BundleUsers> = Vec::new();
    let mut i: usize = 0;
    assert(text::views(out@) =~= want.take(0));
    while i < ids.len()
        invariant
            i <= ids@.len(),
            seen == text::views(uses@),
            want == text::views(ids@).map_values(|id: Seq<char>| entry_for(seen, id)),
            text::views(out@) == want.take(i as int),
        decreases ids@.len() - i,
    {
        let one = BundleUsers {
            bundle_id: ids[i].clone(),
            users: users_in(uses, ids[i].as_str()),
        };
        proof {
            text::views_push(out@, one);
            assert(one@ == want[i as int]);
            assert(want.take(i + 1) =~= want.take(i as int).push(one@));
        }
        out.push(one);
        i += 1;
    }
    assert(want.take(i as int) =~= want);
    out
}

impl AdminClient {
    /// Reads who uses which bundle. Whoever cannot be told that must take
    /// [`BundleUsage::unavailable_from`] in its place.
    pub fn scan_bundle_usage(&self, talk: &mut Talk) -> (r: Result<BundleUsage, Stop>)
        requires
            old(talk)@.rest.len() <= MOST_REPLIES,
        ensures
            ({
                let seen = match r {
                    Ok(usage) => Ok(usage@),
                    Err(stop) => Err(stop@),
                };
                (seen, final(talk)@) == scanned(old(talk)@)
            }),
            final(talk)@.rest.len() <= old(talk)@.rest.len(),
    {
        let items = match read_listing(talk, SCAN_PATH, "bundle usage scan", PAGE_SIZE) {
            Ok(items) => items,
            Err(stop) => {
                return Err(stop);
            },
        };
        let ghost all = text::views(items@);
        let ghost f = |f: JsonView| uses_of_field(f);
        let ghost none: Seq<BundleUseView> = Seq::empty();
        let mut uses: Vec<BundleUse> = Vec::new();
        let mut i: usize = 0;
        proof {
            text::told_ends(all, f, none);
            assert(text::views(uses@) =~= none);
        }
        while i < items.len()
            invariant
                i <= items@.len(),
                all == text::views(items@),
                f == (|f: JsonView| uses_of_field(f)),
                text::views(uses@) == none + text::told(all.take(i as int), f),
            decreases items@.len() - i,
        {
            proof {
                text::told_step(all, f, i as int, none);
            }
            read_field_uses(items[i], &mut uses);
            i += 1;
        }
        proof {
            text::told_ends(all, f, none);
            assert(none + text::told(all, f) =~= text::told(all, f));
        }
        let projects_seen = projects_of(&uses);
        Ok(BundleUsage { users: group_uses(&uses), projects_seen, unavailable: None })
    }
}

} // verus!
