//! The values that a project's fields can take, and those that the configured
//! maps need.
//!
//! Names are compared exactly, as the mirror does. A name that differs from
//! an existing one in case only is refused: adding it would leave two values
//! that nobody can tell apart.

use crate::json;
use crate::json::{entry, text_value, Json, JsonView};
use crate::remote::config::{map_items, RemoteConfig, RemoteConfigView};
use crate::remote::error::{RemoteError, RemoteErrorView};
use crate::remote::http;
use crate::remote::http::{Request, RequestView};
use crate::remote::talk;
use crate::remote::talk::{Stop, StopView, Talk, TalkView, MOST_REPLIES};
use crate::remote::youtrack::admin;
use crate::remote::youtrack::admin::{read_listing, AdminClient, ProjectRef, ProjectRefView};
use crate::text;
use crate::text::{same_ignoring_ascii_case, same_text};
use vstd::prelude::*;
use vstd::string::*;

verus! {

broadcast use {
    vstd::string::group_string_axioms,
    crate::json::array_view,
    crate::json::object_view,
};

/// What kind of values a bundle holds.
#[derive(Debug, Clone, Copy, PartialEq, Eq, Structural)]
pub enum BundleKind {
    Enum,
    State,
}

/// How a path names a kind of bundle.
pub open spec fn segment_of(kind: BundleKind) -> Seq<char> {
    match kind {
        BundleKind::Enum => "enum"@,
        BundleKind::State => "state"@,
    }
}

/// The class of a bundle's values.
pub open spec fn element_class(kind: BundleKind) -> Seq<char> {
    match kind {
        BundleKind::Enum => "EnumBundleElement"@,
        BundleKind::State => "StateBundleElement"@,
    }
}

/// The class of a bundle.
pub open spec fn bundle_class(kind: BundleKind) -> Seq<char> {
    match kind {
        BundleKind::Enum => "EnumBundle"@,
        BundleKind::State => "StateBundle"@,
    }
}

impl BundleKind {
    /// How a path names this kind.
    pub fn segment(self) -> (r: &'static str)
        ensures
            r@ == segment_of(self),
    {
        match self {
            BundleKind::Enum => "enum",
            BundleKind::State => "state",
        }
    }

    /// The class of the values of such a bundle.
    pub fn element_type(self) -> (r: &'static str)
        ensures
            r@ == element_class(self),
    {
        match self {
            BundleKind::Enum => "EnumBundleElement",
            BundleKind::State => "StateBundleElement",
        }
    }

    /// The class of such a bundle. A reference to a bundle inside a body must
    /// name it.
    pub fn bundle_type(self) -> (r: &'static str)
        ensures
            r@ == bundle_class(self),
    {
        match self {
            BundleKind::Enum => "EnumBundle",
            BundleKind::State => "StateBundle",
        }
    }
}

/// A value of a bundle.
#[derive(Debug, Clone, PartialEq, Eq)]
pub struct BundleValue {
    pub id: String,
    pub name: String,
    pub ordinal: i64,
    pub color: Json,
    pub is_resolved: Option<bool>,
}

/// What contracts say of a [`BundleValue`].
pub struct BundleValueView {
    pub id: Seq<char>,
    pub name: Seq<char>,
    pub ordinal: i64,
    pub color: JsonView,
    pub is_resolved: Option<bool>,
}

impl View for BundleValue {
    type V = BundleValueView;

    open spec fn view(&self) -> BundleValueView {
        BundleValueView {
            id: self.id@,
            name: self.name@,
            ordinal: self.ordinal,
            color: self.color@,
            is_resolved: self.is_resolved,
        }
    }
}

/// A bundle with its values.
#[derive(Debug, Clone, PartialEq, Eq)]
pub struct BundleRef {
    pub id: String,
    pub name: String,
    pub kind: BundleKind,
    pub values: Vec<BundleValue>,
}

/// What contracts say of a [`BundleRef`].
pub struct BundleRefView {
    pub id: Seq<char>,
    pub name: Seq<char>,
    pub kind: BundleKind,
    pub values: Seq<BundleValueView>,
}

impl View for BundleRef {
    type V = BundleRefView;

    open spec fn view(&self) -> BundleRefView {
        BundleRefView {
            id: self.id@,
            name: self.name@,
            kind: self.kind,
            values: text::views(self.values@),
        }
    }
}

/// A value that a bundle is to get.
#[derive(Debug, Clone, PartialEq, Eq)]
pub struct PendingValue {
    pub name: String,
    /// Whether issues in this state are done; of a state only.
    pub is_resolved: Option<bool>,
}

/// What contracts say of a [`PendingValue`].
pub struct PendingValueView {
    pub name: Seq<char>,
    pub is_resolved: Option<bool>,
}

impl View for PendingValue {
    type V = PendingValueView;

    open spec fn view(&self) -> PendingValueView {
        PendingValueView {
            name: self.name@,
            is_resolved: self.is_resolved,
        }
    }
}

/// A field of a project with its bundle.
#[derive(Debug, Clone, PartialEq, Eq)]
pub struct ProjectFieldBundle {
    pub instance_id: String,
    pub field_id: String,
    pub field_name: String,
    pub bundle: BundleRef,
}

/// What contracts say of a [`ProjectFieldBundle`].
pub struct ProjectFieldBundleView {
    pub instance_id: Seq<char>,
    pub field_id: Seq<char>,
    pub field_name: Seq<char>,
    pub bundle: BundleRefView,
}

impl View for ProjectFieldBundle {
    type V = ProjectFieldBundleView;

    open spec fn view(&self) -> ProjectFieldBundleView {
        ProjectFieldBundleView {
            instance_id: self.instance_id@,
            field_id: self.field_id@,
            field_name: self.field_name@,
            bundle: self.bundle@,
        }
    }
}

impl BundleValue {
    /// An equal value.
    pub fn copy(&self) -> (r: BundleValue)
        ensures
            r@ == self@,
    {
        BundleValue {
            id: self.id.clone(),
            name: self.name.clone(),
            ordinal: self.ordinal,
            color: self.color.copy(),
            is_resolved: self.is_resolved,
        }
    }
}

impl BundleRef {
    /// An equal bundle.
    pub fn copy(&self) -> (r: BundleRef)
        ensures
            r@ == self@,
    {
        let ghost all = text::views(self.values@);
        let mut values: Vec<BundleValue> = Vec::new();
        let mut i: usize = 0;
        assert(text::views(values@) =~= all.take(0));
        while i < self.values.len()
            invariant
                i <= self.values@.len(),
                all == text::views(self.values@),
                text::views(values@) == all.take(i as int),
            decreases self.values@.len() - i,
        {
            let one = self.values[i].copy();
            proof {
                text::views_push(values@, one);
                assert(all.take(i + 1) =~= all.take(i as int).push(one@));
            }
            values.push(one);
            i += 1;
        }
        assert(all.take(i as int) =~= all);
        BundleRef { id: self.id.clone(), name: self.name.clone(), kind: self.kind, values }
    }
}

impl PendingValue {
    /// An equal value.
    pub fn copy(&self) -> (r: PendingValue)
        ensures
            r@ == self@,
    {
        PendingValue { name: self.name.clone(), is_resolved: self.is_resolved }
    }
}

// ---------------------------------------------------------------------------
// What is missing
// ---------------------------------------------------------------------------

/// Stands for the deleted state, which has no status of its own.
pub const DELETED_KEY: &'static str = "__deleted__";

/// The values that a field needs, each under its key.
pub open spec fn wanted_values(cfg: RemoteConfigView, field_name: Seq<char>) -> Option<
    Seq<(Seq<char>, Seq<char>)>,
> {
    if field_name == "Type"@ {
        Some(cfg.type_map)
    } else if field_name == "Priority"@ {
        Some(cfg.priority_map)
    } else if field_name == "State"@ {
        Some(cfg.status_map.push((DELETED_KEY@, cfg.deleted_state)))
    } else {
        None
    }
}

/// The bundle has a value of exactly this name.
pub open spec fn has_value(values: Seq<BundleValueView>, name: Seq<char>) -> bool {
    exists|i: int| 0 <= i < values.len() && (#[trigger] values[i]).name == name
}

/// The first value whose name differs from this one in case at most.
pub open spec fn twin_of(values: Seq<BundleValueView>, name: Seq<char>) -> Option<BundleValueView>
    decreases values.len(),
{
    if values.len() == 0 {
        None
    } else if text::ascii_lowered(values[0].name) == text::ascii_lowered(name) {
        Some(values[0])
    } else {
        twin_of(values.drop_first(), name)
    }
}

/// A value of this name is pending.
pub open spec fn is_pending(pending: Seq<PendingValueView>, name: Seq<char>) -> bool {
    exists|i: int| 0 <= i < pending.len() && (#[trigger] pending[i]).name == name
}

/// The refusal of a name that differs from an existing one in case only.
pub open spec fn twin_refusal(
    field_name: Seq<char>,
    name: Seq<char>,
    bundle_name: Seq<char>,
    existing: Seq<char>,
) -> RemoteErrorView {
    RemoteErrorView::Config(
        "the map for '"@ + field_name + "' names '"@ + name + "' but the bundle '"@ + bundle_name
            + "' holds '"@ + existing + "' — the same value in a different case. Adding '"@ + name
            + "' would create a near-identical twin, so this is refused: change the map to '"@
            + existing + "' or rename the bundle value."@,
    )
}

/// What one wanted value adds to those that are missing.
pub open spec fn with_wanted(
    field_name: Seq<char>,
    bundle: BundleRefView,
    missing: Seq<PendingValueView>,
    wanted: (Seq<char>, Seq<char>),
) -> Result<Seq<PendingValueView>, RemoteErrorView> {
    if has_value(bundle.values, wanted.1) {
        Ok(missing)
    } else {
        match twin_of(bundle.values, wanted.1) {
            Some(existing) => Err(
                twin_refusal(field_name, wanted.1, bundle.name, existing.name),
            ),
            None => if is_pending(missing, wanted.1) {
                Ok(missing)
            } else {
                Ok(
                    missing.push(
                        PendingValueView {
                            name: wanted.1,
                            is_resolved: if bundle.kind is State {
                                Some(wanted.0 == "closed"@ || wanted.0 == DELETED_KEY@)
                            } else {
                                None
                            },
                        },
                    ),
                )
            },
        }
    }
}

/// The wanted values that are missing, in the order of the map and each once;
/// or the first refusal.
pub open spec fn missing_of(
    field_name: Seq<char>,
    bundle: BundleRefView,
    wanted: Seq<(Seq<char>, Seq<char>)>,
) -> Result<Seq<PendingValueView>, RemoteErrorView>
    decreases wanted.len(),
{
    if wanted.len() == 0 {
        Ok(Seq::empty())
    } else {
        match missing_of(field_name, bundle, wanted.drop_last()) {
            Err(e) => Err(e),
            Ok(missing) => with_wanted(field_name, bundle, missing, wanted.last()),
        }
    }
}

/// What a bundle lacks for its field, or why that cannot be said.
pub open spec fn missing_values(
    cfg: RemoteConfigView,
    field_name: Seq<char>,
    bundle: BundleRefView,
) -> Result<Seq<PendingValueView>, RemoteErrorView> {
    match wanted_values(cfg, field_name) {
        None => Err(
            RemoteErrorView::Config("no map is configured for field '"@ + field_name + "'"@),
        ),
        Some(wanted) => missing_of(field_name, bundle, wanted),
    }
}

fn holds_value(values: &Vec<BundleValue>, name: &str) -> (r: bool)
    ensures
        r == has_value(text::views(values@), name@),
{
    let ghost all = text::views(values@);
    let mut i: usize = 0;
    while i < values.len()
        invariant
            i <= values@.len(),
            all == text::views(values@),
            forall|k: int| 0 <= k < i ==> (#[trigger] all[k]).name != name@,
        decreases values@.len() - i,
    {
        assert(all[i as int] == values@[i as int]@);
        if same_text(values[i].name.as_str(), name) {
            assert(all[i as int].name == name@);
            return true;
        }
        i += 1;
    }
    false
}

fn find_twin<'a>(values: &'a Vec<BundleValue>, name: &str) -> (r: Option<&'a BundleValue>)
    ensures
        text::seen(r) == twin_of(text::views(values@), name@),
{
    let ghost all = text::views(values@);
    let mut i: usize = 0;
    assert(all.skip(0) =~= all);
    while i < values.len()
        invariant
            i <= values@.len(),
            all == text::views(values@),
            twin_of(all, name@) == twin_of(all.skip(i as int), name@),
        decreases values@.len() - i,
    {
        assert(all.skip(i as int)[0] == values@[i as int]@);
        assert(all.skip(i as int).drop_first() =~= all.skip(i + 1));
        if same_ignoring_ascii_case(values[i].name.as_str(), name) {
            return Some(&values[i]);
        }
        i += 1;
    }
    None
}

/// Whether a value of this name is pending.
pub fn holds_pending(pending: &Vec<PendingValue>, name: &str) -> (r: bool)
    ensures
        r == is_pending(text::views(pending@), name@),
{
    let ghost all = text::views(pending@);
    let mut i: usize = 0;
    while i < pending.len()
        invariant
            i <= pending@.len(),
            all == text::views(pending@),
            forall|k: int| 0 <= k < i ==> (#[trigger] all[k]).name != name@,
        decreases pending@.len() - i,
    {
        assert(all[i as int] == pending@[i as int]@);
        if same_text(pending[i].name.as_str(), name) {
            assert(all[i as int].name == name@);
            return true;
        }
        i += 1;
    }
    false
}

impl BundleRef {
    /// Whether the bundle has a value of exactly this name.
    pub fn holds(&self, name: &str) -> (r: bool)
        ensures
            r == has_value(self@.values, name@),
    {
        holds_value(&self.values, name)
    }
}

fn twin_error(field_name: &str, name: &str, bundle_name: &str, existing: &str) -> (r: RemoteError)
    ensures
        r@ == twin_refusal(field_name@, name@, bundle_name@, existing@),
{
    let mut out = "the map for '".to_owned();
    out.append(field_name);
    out.append("' names '");
    out.append(name);
    out.append("' but the bundle '");
    out.append(bundle_name);
    out.append("' holds '");
    out.append(existing);
    out.append("' — the same value in a different case. Adding '");
    out.append(name);
    out.append("' would create a near-identical twin, so this is refused: change the map to '");
    out.append(existing);
    out.append("' or rename the bundle value.");
    RemoteError::Config(out)
}

/// What one wanted value adds to those that are missing.
fn add_wanted(
    field_name: &str,
    bundle: &BundleRef,
    missing: &mut Vec<PendingValue>,
    key: &str,
    value: &str,
) -> (r: Result<(), RemoteError>)
    ensures
        (match r {
            Ok(_) => Ok(text::views(final(missing)@)),
            Err(e) => Err(e@),
        }) == with_wanted(
            field_name@,
            bundle@,
            text::views(old(missing)@),
            (key@, value@),
        ),
{
    if holds_value(&bundle.values, value) {
        return Ok(());
    }
    if let Some(existing) = find_twin(&bundle.values, value) {
        return Err(
            twin_error(field_name, value, bundle.name.as_str(), existing.name.as_str()),
        );
    }
    if holds_pending(missing, value) {
        return Ok(());
    }
    let is_resolved = match bundle.kind {
        BundleKind::State => Some(same_text(key, "closed") || same_text(key, DELETED_KEY)),
        BundleKind::Enum => None,
    };
    let one = PendingValue { name: value.to_owned(), is_resolved };
    proof {
        text::views_push(missing@, one);
    }
    missing.push(one);
    Ok(())
}

/// The values that the map of a field needs and its bundle lacks.
#[verifier::loop_isolation(false)]
pub fn plan_missing(cfg: &RemoteConfig, field_name: &str, bundle: &BundleRef) -> (r: Result<
    Vec<PendingValue>,
    RemoteError,
>)
    ensures
        (match r {
            Ok(missing) => Ok(text::views(missing@)),
            Err(e) => Err(e@),
        }) == missing_values(cfg@, field_name@, bundle@),
{
    let is_state = same_text(field_name, "State");
    let items = if same_text(field_name, "Type") {
        map_items(&cfg.type_map)
    } else if same_text(field_name, "Priority") {
        map_items(&cfg.priority_map)
    } else if is_state {
        map_items(&cfg.status_map)
    } else {
        let mut out = "no map is configured for field '".to_owned();
        out.append(field_name);
        out.append("'");
        return Err(RemoteError::Config(out));
    };
    let ghost map = items@.map_values(|e: (&String, &String)| (e.0@, e.1@));
    let ghost wanted = wanted_values(cfg@, field_name@)->0;
    let mut missing: Vec<PendingValue> = Vec::new();
    let mut i: usize = 0;
    proof {
        reveal_strlit("Type");
        reveal_strlit("Priority");
        reveal_strlit("State");
        assert("Type"@.len() != "State"@.len());
        assert("Priority"@.len() != "State"@.len());
        assert(map.is_prefix_of(wanted));
        assert(text::views(missing@) =~= Seq::<PendingValueView>::empty());
        assert(wanted.take(0).len() == 0);
    }
    while i < items.len()
        invariant
            i <= items@.len(),
            missing_of(field_name@, bundle@, wanted.take(i as int)) == Ok::<
                Seq<PendingValueView>,
                RemoteErrorView,
            >(text::views(missing@)),
        decreases items@.len() - i,
    {
        let (key, value) = items[i];
        proof {
            assert(map[i as int] == (key@, value@));
            assert(wanted.take(i + 1).drop_last() =~= wanted.take(i as int));
            assert(wanted.take(i + 1).last() == (key@, value@));
        }
        if let Err(e) = add_wanted(field_name, bundle, &mut missing, key.as_str(), value.as_str()) {
            proof {
                refusal_stays(field_name@, bundle@, wanted, i + 1);
            }
            return Err(e);
        }
        i += 1;
    }
    if is_state {
        proof {
            assert(wanted.take(i as int) =~= wanted.drop_last());
        }
        if let Err(e) = add_wanted(
            field_name,
            bundle,
            &mut missing,
            DELETED_KEY,
            cfg.deleted_state.as_str(),
        ) {
            return Err(e);
        }
    } else {
        assert(wanted.take(i as int) =~= wanted);
    }
    Ok(missing)
}

proof fn refusal_stays(
    field_name: Seq<char>,
    bundle: BundleRefView,
    wanted: Seq<(Seq<char>, Seq<char>)>,
    n: int,
)
    requires
        0 <= n <= wanted.len(),
        missing_of(field_name, bundle, wanted.take(n)) is Err,
    ensures
        missing_of(field_name, bundle, wanted) == missing_of(field_name, bundle, wanted.take(n)),
    decreases wanted.len(),
{
    if n < wanted.len() {
        assert(wanted.drop_last().take(n) =~= wanted.take(n));
        refusal_stays(field_name, bundle, wanted.drop_last(), n);
    } else {
        assert(wanted.take(n) =~= wanted);
    }
}

/// Once the missing values are added, the bundle has every value that the map
/// names. Nothing is added that is there already, nothing twice, nothing that
/// the map does not name, and nothing that differs from a value of the bundle
/// in case only.
pub proof fn missing_values_complete_the_bundle(
    field_name: Seq<char>,
    bundle: BundleRefView,
    wanted: Seq<(Seq<char>, Seq<char>)>,
)
    requires
        missing_of(field_name, bundle, wanted) is Ok,
    ensures
        ({
            let missing = missing_of(field_name, bundle, wanted)->Ok_0;
            &&& forall|i: int|
                0 <= i < wanted.len() ==> has_value(bundle.values, (#[trigger] wanted[i]).1)
                    || is_pending(missing, wanted[i].1)
            &&& forall|k: int|
                0 <= k < missing.len() ==> !has_value(bundle.values, (#[trigger] missing[k]).name)
                    && twin_of(bundle.values, missing[k].name) is None && exists|i: int|
                    0 <= i < wanted.len() && (#[trigger] wanted[i]).1 == missing[k].name
            &&& forall|k: int, m: int|
                0 <= k < m < missing.len() ==> (#[trigger] missing[k]).name != (
                #[trigger] missing[m]).name
        }),
    decreases wanted.len(),
{
    let missing = missing_of(field_name, bundle, wanted)->Ok_0;
    if wanted.len() > 0 {
        let front = wanted.drop_last();
        let before = missing_of(field_name, bundle, front)->Ok_0;
        missing_values_complete_the_bundle(field_name, bundle, front);
        assert forall|i: int| 0 <= i < wanted.len() implies has_value(
            bundle.values,
            (#[trigger] wanted[i]).1,
        ) || is_pending(missing, wanted[i].1) by {
            if i < front.len() {
                assert(front[i] == wanted[i]);
                if is_pending(before, wanted[i].1) {
                    let k = choose|k: int|
                        0 <= k < before.len() && (#[trigger] before[k]).name == wanted[i].1;
                    assert(missing[k].name == wanted[i].1);
                }
            } else {
                if missing.len() > before.len() {
                    assert(missing[before.len() as int].name == wanted[i].1);
                }
            }
        }
        assert forall|k: int| 0 <= k < missing.len() implies !has_value(
            bundle.values,
            (#[trigger] missing[k]).name,
        ) && twin_of(bundle.values, missing[k].name) is None && exists|i: int|
            0 <= i < wanted.len() && (#[trigger] wanted[i]).1 == missing[k].name by {
            if k < before.len() {
                assert(missing[k] == before[k]);
                let i = choose|i: int|
                    0 <= i < front.len() && (#[trigger] front[i]).1 == before[k].name;
                assert(wanted[i].1 == missing[k].name);
            } else {
                assert(wanted[wanted.len() - 1].1 == missing[k].name);
            }
        }
        assert forall|k: int, m: int| 0 <= k < m < missing.len() implies (
        #[trigger] missing[k]).name != (#[trigger] missing[m]).name by {
            assert(missing[k] == before[k]);
            if m < before.len() {
                assert(missing[m] == before[m]);
            } else {
                assert(!is_pending(before, wanted.last().1));
            }
        }
    }
}

/// The name is that of a value of the bundle, or of one that it is to get.
pub open spec fn is_provided(
    bundle: BundleRefView,
    missing: Seq<PendingValueView>,
    name: Seq<char>,
) -> bool {
    ||| exists|i: int| 0 <= i < bundle.values.len() && (#[trigger] bundle.values[i]).name == name
    ||| exists|i: int| 0 <= i < missing.len() && (#[trigger] missing[i]).name == name
}

/// Where the values that a bundle lacks can be said, every value that the
/// configuration maps something to is a value of the bundle or one of those:
/// the types under `Type`, the priorities under `Priority`, and the statuses
/// with the deleted state under `State`.
pub proof fn every_mapped_value_is_provided(
    cfg: RemoteConfigView,
    field_name: Seq<char>,
    bundle: BundleRefView,
)
    requires
        missing_values(cfg, field_name, bundle) is Ok,
    ensures
        ({
            let missing = missing_values(cfg, field_name, bundle)->Ok_0;
            &&& field_name == "Type"@ || field_name == "Priority"@ || field_name == "State"@
            &&& field_name == "Type"@ ==> forall|i: int|
                0 <= i < cfg.type_map.len() ==> is_provided(
                    bundle,
                    missing,
                    (#[trigger] cfg.type_map[i]).1,
                )
            &&& field_name == "Priority"@ ==> forall|i: int|
                0 <= i < cfg.priority_map.len() ==> is_provided(
                    bundle,
                    missing,
                    (#[trigger] cfg.priority_map[i]).1,
                )
            &&& field_name == "State"@ ==> is_provided(bundle, missing, cfg.deleted_state)
                && forall|i: int|
                0 <= i < cfg.status_map.len() ==> is_provided(
                    bundle,
                    missing,
                    (#[trigger] cfg.status_map[i]).1,
                )
        }),
{
    field_words_differ();
    let wanted = wanted_values(cfg, field_name)->0;
    let missing = missing_values(cfg, field_name, bundle)->Ok_0;
    missing_values_complete_the_bundle(field_name, bundle, wanted);
    assert forall|i: int| 0 <= i < wanted.len() implies is_provided(
        bundle,
        missing,
        (#[trigger] wanted[i]).1,
    ) by {
        assert(has_value(bundle.values, wanted[i].1) || is_pending(missing, wanted[i].1));
    }
    if field_name == "State"@ {
        assert(wanted[cfg.status_map.len() as int].1 == cfg.deleted_state);
        assert forall|i: int| 0 <= i < cfg.status_map.len() implies is_provided(
            bundle,
            missing,
            (#[trigger] cfg.status_map[i]).1,
        ) by {
            assert(wanted[i] == cfg.status_map[i]);
        }
    }
}

proof fn field_words_differ()
    ensures
        "Type"@ != "State"@,
        "Type"@ != "Priority"@,
        "State"@ != "Priority"@,
{
    reveal_strlit("Type");
    reveal_strlit("State");
    reveal_strlit("Priority");
    assert("Type"@.len() == 4 && "State"@.len() == 5 && "Priority"@.len() == 8);
}

/// A bundle is to get only what the configuration maps something to and the
/// bundle lacks in any case of letters, and nothing twice. A value of a state
/// bundle ends an issue exactly where it is the first one under a key that
/// does: closed, or deleted. Values of other bundles say nothing of that.
pub proof fn only_lacking_values_are_added(
    cfg: RemoteConfigView,
    field_name: Seq<char>,
    bundle: BundleRefView,
    wanted: Seq<(Seq<char>, Seq<char>)>,
    k: int,
)
    requires
        missing_values(cfg, field_name, bundle) matches Ok(missing) && 0 <= k < missing.len(),
        field_name == "Type"@ ==> wanted == cfg.type_map,
        field_name == "Priority"@ ==> wanted == cfg.priority_map,
        field_name == "State"@ ==> wanted == cfg.status_map.push(
            ("__deleted__"@, cfg.deleted_state),
        ),
    ensures
        ({
            let missing = missing_values(cfg, field_name, bundle)->Ok_0;
            &&& forall|i: int|
                0 <= i < bundle.values.len() ==> text::ascii_lowered(
                    (#[trigger] bundle.values[i]).name,
                ) != text::ascii_lowered(missing[k].name)
            &&& forall|m: int|
                0 <= m < missing.len() && m != k ==> (#[trigger] missing[m]).name
                    != missing[k].name
            &&& !(bundle.kind is State) ==> missing[k].is_resolved is None
            &&& exists|i: int|
                #![trigger wanted[i]]
                0 <= i < wanted.len() && wanted[i].1 == missing[k].name && (bundle.kind is State
                    ==> missing[k].is_resolved == Some(
                    wanted[i].0 == "closed"@ || wanted[i].0 == "__deleted__"@,
                )) && forall|j: int|
                    0 <= j < i ==> (#[trigger] wanted[j]).1 != missing[k].name
        }),
{
    field_words_differ();
    let missing = missing_values(cfg, field_name, bundle)->Ok_0;
    missing_values_complete_the_bundle(field_name, bundle, wanted);
    no_twin_at_all(bundle.values, missing[k].name);
    lacking_value_comes_from(field_name, bundle, wanted, k);
    assert forall|m: int| 0 <= m < missing.len() && m != k implies (#[trigger] missing[m]).name
        != missing[k].name by {
        if m < k {
            assert(missing[m].name != missing[k].name);
        } else {
            assert(missing[k].name != missing[m].name);
        }
    }
}

proof fn no_twin_at_all(values: Seq<BundleValueView>, name: Seq<char>)
    requires
        twin_of(values, name) is None,
    ensures
        forall|i: int|
            0 <= i < values.len() ==> text::ascii_lowered((#[trigger] values[i]).name)
                != text::ascii_lowered(name),
    decreases values.len(),
{
    if values.len() > 0 {
        no_twin_at_all(values.drop_first(), name);
        assert forall|i: int| 0 <= i < values.len() implies text::ascii_lowered(
            (#[trigger] values[i]).name,
        ) != text::ascii_lowered(name) by {
            if i > 0 {
                assert(values[i] == values.drop_first()[i - 1]);
            }
        }
    }
}

proof fn lacking_value_comes_from(
    field_name: Seq<char>,
    bundle: BundleRefView,
    wanted: Seq<(Seq<char>, Seq<char>)>,
    k: int,
)
    requires
        missing_of(field_name, bundle, wanted) matches Ok(missing) && 0 <= k < missing.len(),
    ensures
        ({
            let missing = missing_of(field_name, bundle, wanted)->Ok_0;
            &&& !(bundle.kind is State) ==> missing[k].is_resolved is None
            &&& exists|i: int|
                #![trigger wanted[i]]
                0 <= i < wanted.len() && wanted[i].1 == missing[k].name && (bundle.kind is State
                    ==> missing[k].is_resolved == Some(
                    wanted[i].0 == "closed"@ || wanted[i].0 == DELETED_KEY@,
                )) && forall|j: int|
                    0 <= j < i ==> (#[trigger] wanted[j]).1 != missing[k].name
        }),
    decreases wanted.len(),
{
    let missing = missing_of(field_name, bundle, wanted)->Ok_0;
    if wanted.len() > 0 {
        let front = wanted.drop_last();
        let before = missing_of(field_name, bundle, front)->Ok_0;
        if k < before.len() {
            lacking_value_comes_from(field_name, bundle, front, k);
            assert(missing[k] == before[k]);
            let i = choose|i: int|
                #![trigger front[i]]
                0 <= i < front.len() && front[i].1 == before[k].name && (bundle.kind is State
                    ==> before[k].is_resolved == Some(
                    front[i].0 == "closed"@ || front[i].0 == DELETED_KEY@,
                )) && forall|j: int| 0 <= j < i ==> (#[trigger] front[j]).1 != before[k].name;
            assert(wanted[i] == front[i]);
            assert forall|j: int| 0 <= j < i implies (#[trigger] wanted[j]).1
                != missing[k].name by {
                assert(front[j] == wanted[j]);
            }
        } else {
            let i = wanted.len() - 1;
            missing_values_complete_the_bundle(field_name, bundle, front);
            assert(wanted[i].1 == missing[k].name);
            assert forall|j: int| 0 <= j < i implies (#[trigger] wanted[j]).1
                != missing[k].name by {
                assert(front[j] == wanted[j]);
                assert(has_value(bundle.values, front[j].1) || is_pending(before, front[j].1));
            }
        }
    }
}

/// The name is that of a value of the bundle, or differs from all of them in
/// more than the case of letters.
pub open spec fn has_no_twin(bundle: BundleRefView, name: Seq<char>) -> bool {
    ||| exists|v: int| 0 <= v < bundle.values.len() && (#[trigger] bundle.values[v]).name == name
    ||| forall|v: int|
        0 <= v < bundle.values.len() ==> text::ascii_lowered((#[trigger] bundle.values[v]).name)
            != text::ascii_lowered(name)
}

/// What a bundle lacks cannot be said exactly where no map is configured for
/// its field, or where a mapped value is none of its own and differs from one
/// of them in the case of letters only.
pub proof fn lacking_values_can_be_said(
    cfg: RemoteConfigView,
    field_name: Seq<char>,
    bundle: BundleRefView,
    wanted: Seq<(Seq<char>, Seq<char>)>,
)
    requires
        field_name == "Type"@ ==> wanted == cfg.type_map,
        field_name == "Priority"@ ==> wanted == cfg.priority_map,
        field_name == "State"@ ==> wanted == cfg.status_map.push(
            ("__deleted__"@, cfg.deleted_state),
        ),
    ensures
        missing_values(cfg, field_name, bundle) is Ok <==> (field_name == "Type"@ || field_name
            == "Priority"@ || field_name == "State"@) && forall|i: int|
            0 <= i < wanted.len() ==> has_no_twin(bundle, (#[trigger] wanted[i]).1),
{
    field_words_differ();
    if field_name == "Type"@ || field_name == "Priority"@ || field_name == "State"@ {
        sayable(field_name, bundle, wanted_values(cfg, field_name)->0);
    }
}

proof fn twin_found(values: Seq<BundleValueView>, name: Seq<char>)
    ensures
        twin_of(values, name) is Some ==> exists|v: int|
            0 <= v < values.len() && text::ascii_lowered((#[trigger] values[v]).name)
                == text::ascii_lowered(name),
    decreases values.len(),
{
    if values.len() > 0 {
        twin_found(values.drop_first(), name);
        if text::ascii_lowered(values[0].name) != text::ascii_lowered(name) && twin_of(values, name)
            is Some {
            let rest = values.drop_first();
            let v = choose|v: int|
                0 <= v < rest.len() && text::ascii_lowered((#[trigger] rest[v]).name)
                    == text::ascii_lowered(name);
            assert(values[v + 1] == rest[v]);
        }
    }
}

proof fn sayable(
    field_name: Seq<char>,
    bundle: BundleRefView,
    wanted: Seq<(Seq<char>, Seq<char>)>,
)
    ensures
        missing_of(field_name, bundle, wanted) is Ok <==> forall|i: int|
            0 <= i < wanted.len() ==> has_no_twin(bundle, (#[trigger] wanted[i]).1),
    decreases wanted.len(),
{
    if wanted.len() > 0 {
        let front = wanted.drop_last();
        let last = wanted.last().1;
        sayable(field_name, bundle, front);
        twin_found(bundle.values, last);
        if twin_of(bundle.values, last) is None {
            no_twin_at_all(bundle.values, last);
        }
        if missing_of(field_name, bundle, wanted) is Ok {
            assert forall|i: int| 0 <= i < wanted.len() implies has_no_twin(
                bundle,
                (#[trigger] wanted[i]).1,
            ) by {
                if i < front.len() {
                    assert(front[i] == wanted[i]);
                }
            }
        } else if forall|i: int|
            0 <= i < wanted.len() ==> has_no_twin(bundle, (#[trigger] wanted[i]).1) {
            assert forall|i: int| 0 <= i < front.len() implies has_no_twin(
                bundle,
                (#[trigger] front[i]).1,
            ) by {
                assert(front[i] == wanted[i]);
            }
            assert(has_no_twin(bundle, wanted[wanted.len() - 1].1));
        }
    }
}

// ---------------------------------------------------------------------------
// Reading and writing
// ---------------------------------------------------------------------------

/// One value of a bundle, where it has an identifier and a name.
pub open spec fn value_read(raw: JsonView) -> Option<BundleValueView> {
    match (json::text_at(raw, "id"@), json::text_at(raw, "name"@)) {
        (Some(id), Some(name)) => Some(
            BundleValueView {
                id,
                name,
                ordinal: match json::number_at(raw, "ordinal"@) {
                    Some(n) => n as i64,
                    None => 0,
                },
                color: match json::member(raw, "color"@) {
                    Some(c) => c,
                    None => JsonView::Null,
                },
                is_resolved: match json::member(raw, "isResolved"@) {
                    Some(JsonView::Bool(b)) => Some(b),
                    _ => None,
                },
            },
        ),
        _ => None,
    }
}

/// The values of a list.
pub open spec fn values_read(raw: Option<JsonView>) -> Seq<BundleValueView> {
    text::picked(json::items_of(raw), |v: JsonView| value_read(v))
}

/// The kind of bundle that a class names. Bundles of other classes are none
/// of ours.
pub open spec fn kind_of_class(class: Seq<char>) -> Option<BundleKind> {
    if class == "EnumBundle"@ {
        Some(BundleKind::Enum)
    } else if class == "StateBundle"@ {
        Some(BundleKind::State)
    } else {
        None
    }
}

/// A bundle inside a project's field.
pub open spec fn bundle_read(raw: JsonView) -> Option<BundleRefView> {
    match json::text_at(raw, "$type"@) {
        Some(class) => match (
            kind_of_class(class),
            json::text_at(raw, "id"@),
            json::text_at(raw, "name"@),
        ) {
            (Some(kind), Some(id), Some(name)) => Some(
                BundleRefView { id, name, kind, values: values_read(json::member(raw, "values"@)) },
            ),
            _ => None,
        },
        None => None,
    }
}

/// A field of a project, where it has a bundle of ours.
pub open spec fn project_field_read(raw: JsonView) -> Option<ProjectFieldBundleView> {
    match json::member(raw, "bundle"@) {
        Some(bundle_raw) => match (
            bundle_read(bundle_raw),
            json::text_at(raw, "id"@),
            json::nested_text(raw, "field"@, "id"@),
            json::nested_text(raw, "field"@, "name"@),
        ) {
            (Some(bundle), Some(instance_id), Some(field_id), Some(field_name)) => Some(
                ProjectFieldBundleView { instance_id, field_id, field_name, bundle },
            ),
            _ => None,
        },
        None => None,
    }
}

fn read_value(raw: &Json) -> (r: Option<BundleValue>)
    ensures
        text::seen(r) == value_read(raw@),
{
    let id = match raw.text_at("id") {
        Some(id) => id,
        None => {
            return None;
        },
    };
    let name = match raw.text_at("name") {
        Some(name) => name,
        None => {
            return None;
        },
    };
    let ordinal: i64 = match raw.get("ordinal") {
        Some(v) => match v.as_i64() {
            Some(n) => n,
            None => 0,
        },
        None => 0,
    };
    let color = match raw.get("color") {
        Some(c) => c.copy(),
        None => Json::Null,
    };
    let is_resolved = match raw.get("isResolved") {
        Some(v) => v.as_bool(),
        None => None,
    };
    Some(BundleValue { id: id.to_owned(), name: name.to_owned(), ordinal, color, is_resolved })
}

/// Reads the values of a bundle.
pub fn parse_bundle_values(raw: Option<&Json>) -> (r: Vec<BundleValue>)
    ensures
        text::views(r@) == values_read(text::seen(raw)),
{
    let mut out: Vec<BundleValue> = Vec::new();
    let ghost f = |v: JsonView| value_read(v);
    let items = match raw {
        Some(v) => v.items(),
        None => {
            assert(text::views(out@) =~= text::picked(Seq::<JsonView>::empty(), f));
            return out;
        },
    };
    let ghost all = text::views(items@);
    let mut i: usize = 0;
    assert(text::views(out@) =~= text::picked(all.take(0), f));
    while i < items.len()
        invariant
            i <= items@.len(),
            all == text::views(items@),
            f == (|v: JsonView| value_read(v)),
            text::views(out@) == text::picked(all.take(i as int), f),
        decreases items@.len() - i,
    {
        proof {
            text::picked_step(all, f, i as int);
        }
        if let Some(one) = read_value(&items[i]) {
            proof {
                text::views_push(out@, one);
            }
            out.push(one);
        }
        i += 1;
    }
    assert(all.take(i as int) =~= all);
    out
}

fn read_bundle_ref(raw: &Json) -> (r: Option<BundleRef>)
    ensures
        text::seen(r) == bundle_read(raw@),
{
    let class = match raw.text_at("$type") {
        Some(class) => class,
        None => {
            return None;
        },
    };
    let kind = if same_text(class, "EnumBundle") {
        BundleKind::Enum
    } else if same_text(class, "StateBundle") {
        BundleKind::State
    } else {
        return None;
    };
    match raw.text_at("id") {
        Some(id) => match raw.text_at("name") {
            Some(name) => Some(
                BundleRef {
                    id: id.to_owned(),
                    name: name.to_owned(),
                    kind,
                    values: parse_bundle_values(raw.get("values")),
                },
            ),
            None => None,
        },
        None => None,
    }
}

/// Reads a field of a project, where it has a bundle of ours.
pub fn parse_project_field_bundle(raw: &Json) -> (r: Option<ProjectFieldBundle>)
    ensures
        text::seen(r) == project_field_read(raw@),
{
    let bundle_raw = match raw.get("bundle") {
        Some(bundle_raw) => bundle_raw,
        None => {
            return None;
        },
    };
    let bundle = match read_bundle_ref(bundle_raw) {
        Some(bundle) => bundle,
        None => {
            return None;
        },
    };
    match raw.text_at("id") {
        Some(instance_id) => match raw.nested_text("field", "id") {
            Some(field_id) => match raw.nested_text("field", "name") {
                Some(field_name) => Some(
                    ProjectFieldBundle {
                        instance_id: instance_id.to_owned(),
                        field_id: field_id.to_owned(),
                        field_name: field_name.to_owned(),
                        bundle,
                    },
                ),
                None => None,
            },
            None => None,
        },
        None => None,
    }
}

/// What is asked of each field of a project.
pub const PROJECT_FIELDS: &'static str =
    "id,$type,canBeEmpty,field(id,name),bundle(id,name,$type,values(id,name,ordinal,color(id,background,foreground),isResolved))";

/// How many fields a page of a project's fields holds.
pub const PROJECT_FIELDS_PAGE_SIZE: u32 = 100;

/// Where the fields of a project are listed.
pub open spec fn project_fields_path(project: ProjectRefView) -> Seq<char> {
    "/api/admin/projects/"@ + project.id + "/customFields?fields="@ + PROJECT_FIELDS@
}

/// The fields of a project that have a bundle of ours.
pub open spec fn project_fields(project: ProjectRefView, t: TalkView) -> (
    Result<Seq<ProjectFieldBundleView>, StopView>,
    TalkView,
) {
    match admin::listed(
        project_fields_path(project),
        "project custom fields"@,
        PROJECT_FIELDS_PAGE_SIZE,
        t,
    ) {
        (Ok(items), after) => (
            Ok(text::picked(items, |raw: JsonView| project_field_read(raw))),
            after,
        ),
        (Err(stop), after) => (Err(stop), after),
    }
}

/// The request that adds a value to a bundle.
pub open spec fn add_value(bundle: BundleRefView, value: PendingValueView) -> RequestView {
    http::post_of(
        "/api/admin/customFieldSettings/bundles/"@ + segment_of(bundle.kind) + "/"@ + bundle.id
            + "/values?fields=id,name"@,
        JsonView::Object(
            seq![
                ("name"@, JsonView::Text(value.name)),
                ("$type"@, JsonView::Text(element_class(bundle.kind))),
            ] + (match value.is_resolved {
                Some(b) => seq![("isResolved"@, JsonView::Bool(b))],
                None => Seq::empty(),
            }),
        ),
        "bundle value '"@ + value.name + "'"@,
    )
}

/// The addition of the values from the `k`-th on.
pub open spec fn values_added_from(
    bundle: BundleRefView,
    values: Seq<PendingValueView>,
    k: int,
    t: TalkView,
) -> (Result<(), StopView>, TalkView)
    decreases values.len() - k,
{
    if k < 0 || k >= values.len() {
        (Ok(()), t)
    } else {
        match talk::asked(add_value(bundle, values[k]), 0, t) {
            (Err(stop), after) => (Err(stop), after),
            (Ok(_), after) => values_added_from(bundle, values, k + 1, after),
        }
    }
}

impl AdminClient {
    /// The fields of a project that have a bundle of ours.
    pub fn read_project_bundle_fields(&self, talk: &mut Talk, project: &ProjectRef) -> (r: Result<
        Vec<ProjectFieldBundle>,
        Stop,
    >)
        requires
            old(talk)@.rest.len() <= MOST_REPLIES,
        ensures
            (match r {
                Ok(fields) => Ok(text::views(fields@)),
                Err(stop) => Err(stop@),
            }, final(talk)@) == project_fields(project@, old(talk)@),
            final(talk)@.rest.len() <= old(talk)@.rest.len(),
    {
        let mut path = "/api/admin/projects/".to_owned();
        path.append(project.id.as_str());
        path.append("/customFields?fields=");
        path.append(PROJECT_FIELDS);
        let items = match read_listing(
            talk,
            path.as_str(),
            "project custom fields",
            PROJECT_FIELDS_PAGE_SIZE,
        ) {
            Ok(items) => items,
            Err(stop) => {
                return Err(stop);
            },
        };
        let ghost all = text::views(items@);
        let ghost f = |raw: JsonView| project_field_read(raw);
        let mut out: Vec<ProjectFieldBundle> = Vec::new();
        let mut i: usize = 0;
        assert(text::views(out@) =~= text::picked(all.take(0), f));
        while i < items.len()
            invariant
                i <= items@.len(),
                all == text::views(items@),
                f == (|raw: JsonView| project_field_read(raw)),
                text::views(out@) == text::picked(all.take(i as int), f),
            decreases items@.len() - i,
        {
            proof {
                text::picked_step(all, f, i as int);
            }
            if let Some(one) = parse_project_field_bundle(items[i]) {
                proof {
                    text::views_push(out@, one);
                }
                out.push(one);
            }
            i += 1;
        }
        assert(all.take(i as int) =~= all);
        Ok(out)
    }

    /// Adds the values to the bundle, one request each.
    pub fn add_bundle_values(
        &self,
        talk: &mut Talk,
        bundle: &BundleRef,
        values: &Vec<PendingValue>,
    ) -> (r: Result<(), Stop>)
        ensures
            (talk::seen_done(r), final(talk)@) == values_added_from(
                bundle@,
                text::views(values@),
                0,
                old(talk)@,
            ),
            final(talk)@.rest.len() <= old(talk)@.rest.len(),
    {
        let ghost start = talk@;
        let ghost all = text::views(values@);
        let mut k: usize = 0;
        while k < values.len()
            invariant
                k <= values@.len(),
                all == text::views(values@),
                start == old(talk)@,
                talk@.rest.len() <= start.rest.len(),
                values_added_from(bundle@, all, 0, start) == values_added_from(
                    bundle@,
                    all,
                    k as int,
                    talk@,
                ),
            decreases values@.len() - k,
        {
            assert(all[k as int] == values@[k as int]@);
            if let Err(stop) = talk.ask(add_value_request(bundle, &values[k]), 0) {
                return Err(stop);
            }
            k += 1;
        }
        Ok(())
    }
}

fn add_value_request(bundle: &BundleRef, value: &PendingValue) -> (r: Request)
    ensures
        r@ == add_value(bundle@, value@),
{
    let mut path = "/api/admin/customFieldSettings/bundles/".to_owned();
    path.append(bundle.kind.segment());
    path.append("/");
    path.append(bundle.id.as_str());
    path.append("/values?fields=id,name");
    let mut entries: Vec<(String, Json)> = Vec::new();
    entries.push(entry("name", text_value(value.name.as_str())));
    entries.push(entry("$type", text_value(bundle.kind.element_type())));
    if let Some(b) = value.is_resolved {
        entries.push(entry("isResolved", Json::Bool(b)));
    }
    let mut entity = "bundle value '".to_owned();
    entity.append(value.name.as_str());
    entity.append("'");
    let request = Request::post(path, Json::Object(entries), entity.as_str());
    assert(request@.body->0->Object_0 =~= add_value(bundle@, value@).body->0->Object_0);
    request
}

} // verus!
