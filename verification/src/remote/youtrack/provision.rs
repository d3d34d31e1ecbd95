//! What setting up a project comes to, told from what it was found to be.

use crate::json;
use crate::json::JsonView;
use crate::remote::config;
use crate::remote::config::RemoteConfigView;
use crate::remote::error::RemoteErrorView;
use crate::remote::http;
use crate::remote::planned;
use crate::remote::talk::{StopView, TalkView};
use crate::remote::youtrack::admin;
use crate::remote::youtrack::admin::{FieldRefView, ProjectRefView, ALL_FIELDS};
use crate::remote::youtrack::bundles;
use crate::remote::youtrack::bundles::{
    BundleKind, BundleRefView, BundleValueView, PendingValueView, ProjectFieldBundleView,
};
use crate::remote::youtrack::clone;
use crate::remote::youtrack::clone::Emptiness;
use crate::remote::youtrack::init;
use crate::remote::youtrack::init::{
    InitReportView, InitScene, ProjectFieldSummaryView, SettledBundleView,
};
use crate::remote::youtrack::sharedness;
use crate::remote::youtrack::sharedness::{BundleUseView, BundleUsageView, BundleUserView};
use crate::text;
use vstd::prelude::*;

verus! {

/// Of several fields of a name the first one counts.
pub proof fn summaries_are_found_by_name(all: Seq<ProjectFieldSummaryView>, name: Seq<char>)
    ensures
        init::summary_called(all, name) is None <==> forall|i: int|
            0 <= i < all.len() ==> (#[trigger] all[i]).field_name != name,
        init::summary_called(all, name) matches Some(v) ==> exists|i: int|
            0 <= i < all.len() && v == (#[trigger] all[i]) && all[i].field_name == name && forall|
                j: int,
            |
                0 <= j < i ==> (#[trigger] all[j]).field_name != name,
    decreases all.len(),
{
    if all.len() > 0 && all[0].field_name != name {
        let rest = all.drop_first();
        summaries_are_found_by_name(rest, name);
        if let Some(v) = init::summary_called(all, name) {
            let i = choose|i: int|
                0 <= i < rest.len() && v == (#[trigger] rest[i]) && rest[i].field_name == name
                    && forall|j: int| 0 <= j < i ==> (#[trigger] rest[j]).field_name != name;
            assert(all[i + 1] == rest[i]);
            assert forall|j: int| 0 <= j < i + 1 implies (#[trigger] all[j]).field_name != name by {
                if j > 0 {
                    assert(rest[j - 1] == all[j]);
                }
            }
        } else {
            assert forall|i: int| 0 <= i < all.len() implies (#[trigger] all[i]).field_name != name by {
                if i > 0 {
                    assert(rest[i - 1] == all[i]);
                }
            }
        }
    } else if all.len() > 0 {
        assert(all[0].field_name == name);
    }
}

/// Of several fields of a name the first one with a bundle counts.
pub proof fn bundle_fields_are_found_by_name(all: Seq<ProjectFieldBundleView>, name: Seq<char>)
    ensures
        init::bundle_field(all, name) is None <==> forall|i: int|
            0 <= i < all.len() ==> (#[trigger] all[i]).field_name != name,
        init::bundle_field(all, name) matches Some(v) ==> exists|i: int|
            0 <= i < all.len() && v == (#[trigger] all[i]) && all[i].field_name == name && forall|
                j: int,
            |
                0 <= j < i ==> (#[trigger] all[j]).field_name != name,
    decreases all.len(),
{
    if all.len() > 0 && all[0].field_name != name {
        let rest = all.drop_first();
        bundle_fields_are_found_by_name(rest, name);
        if let Some(v) = init::bundle_field(all, name) {
            let i = choose|i: int|
                0 <= i < rest.len() && v == (#[trigger] rest[i]) && rest[i].field_name == name
                    && forall|j: int| 0 <= j < i ==> (#[trigger] rest[j]).field_name != name;
            assert(all[i + 1] == rest[i]);
            assert forall|j: int| 0 <= j < i + 1 implies (#[trigger] all[j]).field_name != name by {
                if j > 0 {
                    assert(rest[j - 1] == all[j]);
                }
            }
        } else {
            assert forall|i: int| 0 <= i < all.len() implies (#[trigger] all[i]).field_name != name by {
                if i > 0 {
                    assert(rest[i - 1] == all[i]);
                }
            }
        }
    } else if all.len() > 0 {
        assert(all[0].field_name == name);
    }
}

/// A field has the bundle that it was first settled with.
pub proof fn settled_bundles_are_found_by_name(all: Seq<SettledBundleView>, name: Seq<char>)
    ensures
        init::settled_called(all, name) is None <==> forall|i: int|
            0 <= i < all.len() ==> (#[trigger] all[i]).field_name != name,
        init::settled_called(all, name) matches Some(v) ==> exists|i: int|
            0 <= i < all.len() && v == (#[trigger] all[i]).bundle && all[i].field_name == name && forall|
                j: int,
            |
                0 <= j < i ==> (#[trigger] all[j]).field_name != name,
    decreases all.len(),
{
    if all.len() > 0 && all[0].field_name != name {
        let rest = all.drop_first();
        settled_bundles_are_found_by_name(rest, name);
        if let Some(v) = init::settled_called(all, name) {
            let i = choose|i: int|
                0 <= i < rest.len() && v == (#[trigger] rest[i]).bundle && rest[i].field_name == name
                    && forall|j: int| 0 <= j < i ==> (#[trigger] rest[j]).field_name != name;
            assert(all[i + 1] == rest[i]);
            assert forall|j: int| 0 <= j < i + 1 implies (#[trigger] all[j]).field_name != name by {
                if j > 0 {
                    assert(rest[j - 1] == all[j]);
                }
            }
        } else {
            assert forall|i: int| 0 <= i < all.len() implies (#[trigger] all[i]).field_name != name by {
                if i > 0 {
                    assert(rest[i - 1] == all[i]);
                }
            }
        }
    } else if all.len() > 0 {
        assert(all[0].field_name == name);
    }
}

/// Of several values of a name the first one counts.
pub proof fn values_are_found_by_name(all: Seq<BundleValueView>, name: Seq<char>)
    ensures
        clone::value_called(all, name) is None <==> forall|i: int|
            0 <= i < all.len() ==> (#[trigger] all[i]).name != name,
        clone::value_called(all, name) matches Some(v) ==> exists|i: int|
            0 <= i < all.len() && v == (#[trigger] all[i]) && all[i].name == name && forall|
                j: int,
            |
                0 <= j < i ==> (#[trigger] all[j]).name != name,
    decreases all.len(),
{
    if all.len() > 0 && all[0].name != name {
        let rest = all.drop_first();
        values_are_found_by_name(rest, name);
        if let Some(v) = clone::value_called(all, name) {
            let i = choose|i: int|
                0 <= i < rest.len() && v == (#[trigger] rest[i]) && rest[i].name == name
                    && forall|j: int| 0 <= j < i ==> (#[trigger] rest[j]).name != name;
            assert(all[i + 1] == rest[i]);
            assert forall|j: int| 0 <= j < i + 1 implies (#[trigger] all[j]).name != name by {
                if j > 0 {
                    assert(rest[j - 1] == all[j]);
                }
            }
        } else {
            assert forall|i: int| 0 <= i < all.len() implies (#[trigger] all[i]).name != name by {
                if i > 0 {
                    assert(rest[i - 1] == all[i]);
                }
            }
        }
    } else if all.len() > 0 {
        assert(all[0].name == name);
    }
}

/// Of several prototypes of a name the first one counts.
pub proof fn prototypes_are_found_by_name(all: Seq<FieldRefView>, name: Seq<char>)
    ensures
        admin::field_called(all, name) is None <==> forall|i: int|
            0 <= i < all.len() ==> (#[trigger] all[i]).name != name,
        admin::field_called(all, name) matches Some(v) ==> exists|i: int|
            0 <= i < all.len() && v == (#[trigger] all[i]) && all[i].name == name && forall|
                j: int,
            |
                0 <= j < i ==> (#[trigger] all[j]).name != name,
    decreases all.len(),
{
    if all.len() > 0 && all[0].name != name {
        let rest = all.drop_first();
        prototypes_are_found_by_name(rest, name);
        if let Some(v) = admin::field_called(all, name) {
            let i = choose|i: int|
                0 <= i < rest.len() && v == (#[trigger] rest[i]) && rest[i].name == name
                    && forall|j: int| 0 <= j < i ==> (#[trigger] rest[j]).name != name;
            assert(all[i + 1] == rest[i]);
            assert forall|j: int| 0 <= j < i + 1 implies (#[trigger] all[j]).name != name by {
                if j > 0 {
                    assert(rest[j - 1] == all[j]);
                }
            }
        } else {
            assert forall|i: int| 0 <= i < all.len() implies (#[trigger] all[i]).name != name by {
                if i > 0 {
                    assert(rest[i - 1] == all[i]);
                }
            }
        }
    } else if all.len() > 0 {
        assert(all[0].name == name);
    }
}

/// A workspace is refused exactly where it has a type that the type map lacks,
/// or a status, other than that of deleted beads, that the status map lacks.
pub proof fn lacking_vocabulary_is_a_problem(
    cfg: RemoteConfigView,
    types: Seq<Seq<char>>,
    statuses: Seq<Seq<char>>,
)
    ensures
        init::vocabulary_problems(cfg, types, statuses).len() == 0 <==> (forall|i: int|
            0 <= i < types.len() ==> planned::has_key(cfg.type_map, #[trigger] types[i])) && (
        forall|i: int|
            0 <= i < statuses.len() ==> statuses[i] == "tombstone"@ || planned::has_key(
                cfg.status_map,
                #[trigger] statuses[i],
            )),
{
    let f = |v: Seq<char>| init::type_problem(cfg, v);
    let g = |v: Seq<char>| init::status_problem(cfg, v);
    assert forall|v: Seq<char>| (#[trigger] f(v)) is None <==> planned::has_key(cfg.type_map, v) by {
        config::lookup_finds_the_first_entry(cfg.type_map, v);
    }
    assert forall|v: Seq<char>| (#[trigger] g(v)) is None <==> v == "tombstone"@
        || planned::has_key(cfg.status_map, v) by {
        config::lookup_finds_the_first_entry(cfg.status_map, v);
    }
    if forall|i: int| 0 <= i < types.len() ==> planned::has_key(cfg.type_map, #[trigger] types[i]) {
        assert forall|i: int| 0 <= i < types.len() implies f(#[trigger] types[i]) is None by {}
        text::picked_nothing(types, f);
    } else {
        let i = choose|i: int|
            0 <= i < types.len() && !planned::has_key(cfg.type_map, #[trigger] types[i]);
        assert(f(types[i]) is Some);
        text::picked_holds(types, f, i);
    }
    if forall|i: int|
        0 <= i < statuses.len() ==> statuses[i] == "tombstone"@ || planned::has_key(
            cfg.status_map,
            #[trigger] statuses[i],
        ) {
        assert forall|i: int| 0 <= i < statuses.len() implies g(#[trigger] statuses[i]) is None by {}
        text::picked_nothing(statuses, g);
    } else {
        let i = choose|i: int|
            0 <= i < statuses.len() && !(statuses[i] == "tombstone"@ || planned::has_key(
                cfg.status_map,
                #[trigger] statuses[i],
            ));
        assert(g(statuses[i]) is Some);
        text::picked_holds(statuses, g, i);
    }
}

/// The map that the values of a field come from.
pub open spec fn map_of(cfg: RemoteConfigView, field: Seq<char>) -> Option<
    Seq<(Seq<char>, Seq<char>)>,
> {
    if field == "Type"@ {
        Some(cfg.type_map)
    } else if field == "State"@ {
        Some(cfg.status_map)
    } else if field == "Priority"@ {
        Some(cfg.priority_map)
    } else {
        None
    }
}

/// A default is due exactly where the map of the field names it, the project
/// has the field with a bundle, and it is not the one default already; and it
/// is due under the name that the map gives it.
pub proof fn defaults_are_due_where_they_differ(
    cfg: RemoteConfigView,
    scene: InitScene,
    settled: Seq<SettledBundleView>,
    field: Seq<char>,
    key: Seq<char>,
)
    ensures
        ({
            let due = init::default_due(cfg, scene, settled, field, key);
            let at = init::summary_called(scene.summaries, field);
            let bundle = init::settled_called(settled, field);
            &&& due matches Some((wanted, summary, b)) ==> {
                &&& map_of(cfg, field) matches Some(map) && config::value_under(map, key) == Some(
                    wanted,
                )
                &&& summary.field_name == field && summary.default_values != seq![wanted]
                &&& at == Some(summary) && bundle == Some(b)
            }
            &&& (map_of(cfg, field) matches Some(map) && (config::value_under(
                map,
                key,
            ) matches Some(wanted) && (at matches Some(summary) && summary.default_values
                != seq![wanted] && bundle is Some))) ==> due is Some
        }),
{
    summaries_are_found_by_name(scene.summaries, field);
    if let (Some(map), Some(summary)) = (
        map_of(cfg, field),
        init::summary_called(scene.summaries, field),
    ) {
        if let Some(wanted) = config::value_under(map, key) {
            if summary.default_values.len() == 1 && summary.default_values[0] == wanted {
                assert(summary.default_values =~= seq![wanted]);
            }
        }
    }
}

/// The change of a default is told with what it was and what it is to be, also
/// where it fails; a dry run does no more than that.
pub proof fn changed_defaults_are_told(
    scene: InitScene,
    summary: ProjectFieldSummaryView,
    bundle: BundleRefView,
    wanted: Seq<char>,
    report: InitReportView,
    t: TalkView,
)
    ensures
        ({
            let (outcome, now, after) = init::default_changed(
                scene,
                summary,
                bundle,
                wanted,
                report,
                t,
            );
            let told = now.defaults_changed.last();
            &&& now == (InitReportView { defaults_changed: now.defaults_changed, ..report })
            &&& now.defaults_changed == report.defaults_changed.push(told)
            &&& told.field_name == summary.field_name && told.old == summary.default_values
                && told.new == wanted
            &&& scene.opts.dry_run ==> outcome is Ok && after.rest == t.rest
            &&& outcome matches Err(StopView::Ask { request, .. }) ==> (bundles::has_value(
                bundle.values,
                wanted,
            ) ==> request.path == "/api/admin/projects/"@ + scene.project.id + "/customFields/"@
                + summary.instance_id + "?fields=field(name),defaultValues(id,name)"@)
        }),
{
    let (outcome, now, after) = init::default_changed(scene, summary, bundle, wanted, report, t);
    assert(now.defaults_changed =~= report.defaults_changed.push(now.defaults_changed.last()));
}

/// Defaults are named by the identifiers of the values that have their names,
/// in order; and they are refused exactly where the bundle lacks one of them.
pub proof fn defaults_go_by_identifier(bundle: BundleRefView, names: Seq<Seq<char>>, k: int)
    ensures
        ({
            let ids = clone::defaults_by_id(bundle, names);
            &&& ids is Ok <==> forall|i: int|
                0 <= i < names.len() ==> bundles::has_value(bundle.values, #[trigger] names[i])
            &&& ids matches Ok(all) ==> all.len() == names.len() && (0 <= k < names.len()
                ==> exists|v: int|
                0 <= v < bundle.values.len() && (#[trigger] bundle.values[v]).name == names[k]
                    && json::member(all[k], "id"@) == Some(JsonView::Text(bundle.values[v].id)))
        }),
    decreases names.len(),
{
    if names.len() > 0 {
        let rest = names.drop_last();
        let n = names.len() - 1;
        defaults_go_by_identifier(bundle, rest, k);
        values_are_found_by_name(bundle.values, names.last());
        assert(names[n] == names.last());
        if clone::defaults_by_id(bundle, names) is Ok {
            assert forall|i: int| 0 <= i < names.len() implies bundles::has_value(
                bundle.values,
                #[trigger] names[i],
            ) by {
                if i < n {
                    assert(rest[i] == names[i]);
                }
            }
            let all = clone::defaults_by_id(bundle, names)->Ok_0;
            if 0 <= k < n {
                assert(rest[k] == names[k]);
            } else if k == n {
                let found = clone::value_called(bundle.values, names.last())->0;
                let entries = seq![
                    ("id"@, JsonView::Text(found.id)),
                    ("$type"@, JsonView::Text(bundles::element_class(bundle.kind))),
                ];
                assert(all[k] == JsonView::Object(entries));
                assert(entries[0].0 == "id"@);
                assert(json::lookup(entries, "id"@) == Some(JsonView::Text(found.id)));
            }
        } else if forall|i: int|
            0 <= i < names.len() ==> bundles::has_value(bundle.values, #[trigger] names[i]) {
            assert forall|i: int| 0 <= i < rest.len() implies bundles::has_value(
                bundle.values,
                #[trigger] rest[i],
            ) by {
                assert(rest[i] == names[i]);
            }
        }
    }
}

/// A copy of a bundle is asked for with all values of its source, in order and
/// each with its name, its place, its colour and whether it is resolved.
pub proof fn copies_hold_every_value(source: BundleRefView, name: Seq<char>, k: int)
    requires
        0 <= k < source.values.len(),
    ensures
        ({
            let body = clone::clone_request(source, name).body->0;
            let v = source.values[k];
            let made = json::items_of(json::member(body, "values"@))[k];
            &&& json::member(body, "name"@) == Some(JsonView::Text(name))
            &&& json::items_of(json::member(body, "values"@)).len() == source.values.len()
            &&& json::member(made, "name"@) == Some(JsonView::Text(v.name))
            &&& json::member(made, "ordinal"@) == Some(JsonView::Int(v.ordinal as int))
            &&& json::member(made, "color"@) == (if v.color is Null {
                None
            } else {
                Some(v.color)
            })
            &&& json::member(made, "isResolved"@) == (match v.is_resolved {
                Some(b) => Some(JsonView::Bool(b)),
                None => None,
            })
        }),
{
    reveal_strlit("name");
    reveal_strlit("values");
    reveal_strlit("ordinal");
    reveal_strlit("$type");
    reveal_strlit("color");
    reveal_strlit("isResolved");
    reveal_with_fuel(json::lookup, 6);
    let v = source.values[k];
    let body = clone::clone_request(source, name).body->0;
    let entries = body->Object_0;
    assert(entries[1].0 == "values"@);
    assert(entries.drop_first()[0] == entries[1]);
    assert("name"@.len() != "values"@.len());
    assert(json::lookup(entries, "values"@) == Some(entries[1].1));
    let made = clone::value_copied(v, source.kind)->Object_0;
    assert("name"@.len() == 4 && "ordinal"@.len() == 7 && "$type"@.len() == 5 && "color"@.len() == 5
        && "isResolved"@.len() == 10);
    assert("$type"@[0] != "color"@[0]);
    let r1 = made.drop_first();
    let r2 = r1.drop_first();
    let r3 = r2.drop_first();
    assert(r1[0] == made[1]);
    assert(r2[0] == made[2]);
    if r3.len() > 0 {
        assert(r3[0] == made[3]);
        let r4 = r3.drop_first();
        if r4.len() > 0 {
            assert(r4[0] == made[4]);
            let r5 = r4.drop_first();
            assert(r5.len() == 0);
        }
    }
}

/// Of the values that are missing, a copy gets exactly those that it has not.
pub proof fn copies_get_what_they_lack(
    missing: Seq<PendingValueView>,
    bundle: BundleRefView,
    v: PendingValueView,
)
    ensures
        init::still_missing(missing, bundle).contains(v) <==> missing.contains(v)
            && !bundles::has_value(bundle.values, v.name),
{
    let f = |v: PendingValueView|
        if bundles::has_value(bundle.values, v.name) {
            None
        } else {
            Some(v)
        };
    let all = init::still_missing(missing, bundle);
    if all.contains(v) {
        let k = choose|k: int| 0 <= k < all.len() && all[k] == v;
        text::picked_comes_from(missing, f, k);
        let j = choose|j: int| 0 <= j < missing.len() && f(#[trigger] missing[j]) == Some(v);
        assert(missing[j] == v);
    }
    if missing.contains(v) && !bundles::has_value(bundle.values, v.name) {
        let j = choose|j: int| 0 <= j < missing.len() && missing[j] == v;
        text::picked_holds(missing, f, j);
    }
}

/// A copy has another name than its source, and one that tells the project or
/// the tool that made it.
pub proof fn copies_have_a_name_of_their_own(project: ProjectRefView, bundle: BundleRefView)
    ensures
        init::clone_called(project, bundle) != bundle.name,
        (project.name + ": "@).is_prefix_of(init::clone_called(project, bundle)),
        text::holds(init::clone_called(project, bundle), bundle.name),
{
    reveal_strlit(": ");
    reveal_strlit(" (br)");
    let prefix = project.name + ": "@;
    let name = init::clone_called(project, bundle);
    text::holds_itself(bundle.name);
    if prefix.is_prefix_of(bundle.name) {
        assert(name.len() == bundle.name.len() + 5);
        text::holds_within(Seq::empty(), bundle.name, " (br)"@, bundle.name);
        assert(Seq::<char>::empty() + bundle.name + " (br)"@ =~= name);
        assert(name.subrange(0, prefix.len() as int) =~= bundle.name.subrange(
            0,
            prefix.len() as int,
        ));
    } else {
        assert(name.len() == prefix.len() + bundle.name.len());
        text::holds_within(prefix, bundle.name, Seq::empty(), bundle.name);
        assert(prefix + bundle.name + Seq::<char>::empty() =~= name);
        assert(name.subrange(0, prefix.len() as int) =~= prefix);
    }
}

/// A listing waits for the page it is at; a page that is not full ends it, and
/// behind a full one comes the page that starts where that one ends.
pub proof fn pages_follow_each_other(
    base: Seq<char>,
    entity: Seq<char>,
    size: u32,
    skip: int,
    t: TalkView,
)
    ensures
        ({
            let (all, after) = admin::listed_from(base, entity, size, skip, t);
            let rest = TalkView { rest: t.rest.drop_first(), ..t };
            let page = json::items_of(Some(t.rest[0]->Ok_0));
            &&& t.rest.len() == 0 ==> (all matches Err(StopView::Ask { request, .. })
                && request.method is Get && request.path == base + "&$skip="@ + text::decimal(skip)
                + "&$top="@ + text::decimal(size as int))
            &&& t.rest.len() > 0 && t.rest[0] is Err ==> all == Err::<Seq<JsonView>, StopView>(
                StopView::Fail(t.rest[0]->Err_0),
            )
            &&& t.rest.len() > 0 && t.rest[0] is Ok && page.len() < size ==> all == Ok::<
                Seq<JsonView>,
                StopView,
            >(page) && after == rest
            &&& t.rest.len() > 0 && t.rest[0] is Ok && page.len() >= size ==> match (
                admin::listed_from(base, entity, size, skip + size, rest).0,
                all,
            ) {
                (Ok(more), Ok(items)) => items == page + more,
                (Err(a), Err(b)) => a == b,
                _ => false,
            }
        }),
{
}

/// The item of a listing has this short name.
pub open spec fn is_project(item: JsonView, short_name: Seq<char>) -> bool {
    json::member(item, "shortName"@) == Some(JsonView::Text(short_name))
}

/// The project of a short name is the first item of the page that says that
/// name, with the identifier and the name that it says.
pub proof fn projects_are_found_by_short_name(page: Seq<JsonView>, short_name: Seq<char>)
    requires
        short_name.len() > 0,
    ensures
        admin::project_in(page, short_name) is None <==> forall|i: int|
            0 <= i < page.len() ==> !is_project(#[trigger] page[i], short_name),
        admin::project_in(page, short_name) matches Some(p) ==> p.short_name == short_name
            && exists|i: int|
            0 <= i < page.len() && is_project(#[trigger] page[i], short_name) && (json::member(
                page[i],
                "id"@,
            ) matches Some(JsonView::Text(id)) ==> p.id == id) && (json::member(
                page[i],
                "name"@,
            ) matches Some(JsonView::Text(name)) ==> p.name == name) && forall|j: int|
                0 <= j < i ==> !is_project(#[trigger] page[j], short_name),
    decreases page.len(),
{
    if page.len() > 0 {
        let rest = page.drop_first();
        assert(json::text_or_empty(page[0], "shortName"@) == short_name <==> is_project(
            page[0],
            short_name,
        ));
        if !is_project(page[0], short_name) {
            projects_are_found_by_short_name(rest, short_name);
            if let Some(p) = admin::project_in(page, short_name) {
                let i = choose|i: int|
                    0 <= i < rest.len() && is_project(#[trigger] rest[i], short_name) && (
                    json::member(rest[i], "id"@) matches Some(JsonView::Text(id)) ==> p.id == id)
                        && (json::member(rest[i], "name"@) matches Some(JsonView::Text(name))
                        ==> p.name == name) && forall|j: int|
                        0 <= j < i ==> !is_project(#[trigger] rest[j], short_name);
                assert(page[i + 1] == rest[i]);
                assert forall|j: int| 0 <= j < i + 1 implies !is_project(
                    #[trigger] page[j],
                    short_name,
                ) by {
                    if j > 0 {
                        assert(rest[j - 1] == page[j]);
                    }
                }
            } else {
                assert forall|i: int| 0 <= i < page.len() implies !is_project(
                    #[trigger] page[i],
                    short_name,
                ) by {
                    if i > 0 {
                        assert(rest[i - 1] == page[i]);
                    }
                }
            }
        }
    }
}

/// Where every provided field is there, no prototype is created; else the
/// first one that is not there is asked for, with its name and its type.
pub proof fn lacking_prototypes_are_created(
    k: int,
    existing: Seq<FieldRefView>,
    t: TalkView,
    first: int,
)
    requires
        0 <= k <= ALL_FIELDS@.len(),
    ensures
        (forall|i: int|
            k <= i < ALL_FIELDS@.len() ==> admin::field_called(
                existing,
                (#[trigger] ALL_FIELDS@[i]).0@,
            ) is Some) ==> admin::ensured_from(k, existing, t) == (
            Ok::<Seq<FieldRefView>, StopView>(existing),
            t,
        ),
        k <= first < ALL_FIELDS@.len() && admin::field_called(
            existing,
            ALL_FIELDS@[first].0@,
        ) is None && (forall|i: int|
            k <= i < first ==> admin::field_called(
                existing,
                (#[trigger] ALL_FIELDS@[i]).0@,
            ) is Some) && t.rest.len() == 0 ==> (admin::ensured_from(
            k,
            existing,
            t,
        ).0 matches Err(StopView::Ask { request, .. }) && request == admin::create_field(
            ALL_FIELDS@[first].0@,
            ALL_FIELDS@[first].1@,
        )),
    decreases ALL_FIELDS@.len() - k,
{
    if k < ALL_FIELDS@.len() {
        if admin::field_called(existing, ALL_FIELDS@[k].0@) is Some {
            lacking_prototypes_are_created(k + 1, existing, t, first);
        }
    }
}

/// Of the provided fields those are named that are wanted, and no others.
pub proof fn provided_fields_are_named(wanted: spec_fn(Seq<char>) -> bool, name: Seq<char>)
    ensures
        init::provided_names(wanted).contains(name) <==> wanted(name) && exists|i: int|
            0 <= i < ALL_FIELDS@.len() && (#[trigger] ALL_FIELDS@[i]).0@ == name,
{
    let f = |f: (&'static str, &'static str)|
        if wanted(f.0@) {
            Some(f.0@)
        } else {
            None
        };
    let all = init::provided_names(wanted);
    if all.contains(name) {
        let k = choose|k: int| 0 <= k < all.len() && all[k] == name;
        text::picked_comes_from(ALL_FIELDS@, f, k);
        let i = choose|i: int|
            0 <= i < ALL_FIELDS@.len() && f(#[trigger] ALL_FIELDS@[i]) == Some(name);
        assert(ALL_FIELDS@[i].0@ == name);
    }
    if wanted(name) && exists|i: int|
        0 <= i < ALL_FIELDS@.len() && (#[trigger] ALL_FIELDS@[i]).0@ == name {
        let i = choose|i: int| 0 <= i < ALL_FIELDS@.len() && (#[trigger] ALL_FIELDS@[i]).0@ == name;
        text::picked_holds(ALL_FIELDS@, f, i);
    }
}

/// A field is attached exactly where it is provided and the project lacks it.
pub proof fn lacking_fields_are_attached(
    fields: Seq<FieldRefView>,
    attached: Seq<ProjectFieldSummaryView>,
    field: FieldRefView,
)
    ensures
        init::fields_unattached(fields, attached).contains(field) <==> fields.contains(field) && (
        forall|i: int|
            0 <= i < attached.len() ==> (#[trigger] attached[i]).field_name != field.name),
{
    let f = |f: FieldRefView|
        if init::summary_called(attached, f.name) is None {
            Some(f)
        } else {
            None
        };
    let all = init::fields_unattached(fields, attached);
    summaries_are_found_by_name(attached, field.name);
    if all.contains(field) {
        let k = choose|k: int| 0 <= k < all.len() && all[k] == field;
        text::picked_comes_from(fields, f, k);
        let i = choose|i: int| 0 <= i < fields.len() && f(#[trigger] fields[i]) == Some(field);
        assert(fields[i] == field);
    }
    if fields.contains(field) && init::summary_called(attached, field.name) is None {
        let i = choose|i: int| 0 <= i < fields.len() && fields[i] == field;
        text::picked_holds(fields, f, i);
    }
}

/// An attachment names the field by its identifier, under its project, and one
/// that somebody else was first with does no harm.
pub proof fn attachments_go_on(
    project: ProjectRefView,
    fields: Seq<FieldRefView>,
    k: int,
    t: TalkView,
)
    requires
        0 <= k < fields.len(),
    ensures
        ({
            let (outcome, after) = admin::attached_from(project, fields, k, t);
            let rest = TalkView { rest: t.rest.drop_first(), ..t };
            &&& t.rest.len() == 0 ==> (outcome matches Err(StopView::Ask { request, .. })
                && request.method is Post && request.path == "/api/admin/projects/"@ + project.id
                + "/customFields?fields=id,field(id,name)"@ && json::nested_text(
                request.body->0,
                "field"@,
                "id"@,
            ) == Some(fields[k].id))
            &&& t.rest.len() > 0 && (t.rest[0] is Ok || (t.rest[0] matches Err(
                RemoteErrorView::AlreadyExists { .. },
            ))) ==> (outcome, after) == admin::attached_from(project, fields, k + 1, rest)
            &&& t.rest.len() > 0 && (t.rest[0] matches Err(e) && !(e is AlreadyExists))
                ==> outcome == Err::<(), StopView>(StopView::Fail(t.rest[0]->Err_0))
        }),
{
    let entries = admin::attach_field(project, fields[k]).body->0->Object_0;
    assert(entries[0].0 == "field"@);
    let inner = entries[0].1->Object_0;
    assert(inner[0].0 == "id"@);
}

/// A project is empty exactly where the count is nought, has issues where it
/// is more, and is neither where it has not settled.
pub proof fn count_tells_emptiness(raw: JsonView, n: int)
    requires
        json::member(raw, "count"@) == Some(JsonView::Int(n)),
        i64::MIN <= n <= i64::MAX,
    ensures
        n == 0 <==> clone::settled_count(raw) == Some(Emptiness::Empty),
        n > 0 ==> clone::settled_count(raw) == Some(Emptiness::HasIssues(n as u64)),
        n < 0 <==> clone::settled_count(raw) is None,
{
}

/// The first look at a count does not wait; every later one waits twice as
/// long as the one before it, starting with the given time.
pub proof fn looks_wait_twice_as_long(base: u64, attempt: int)
    requires
        1 <= attempt < 31,
    ensures
        clone::count_pause(base, 0) == 0,
        clone::count_pause(base, 1) == base,
        clone::count_pause(base, attempt + 1) == 2 * clone::count_pause(base, attempt),
{
    let n = (attempt - 1) as nat;
    assert(http::backoff(0) == 1);
    assert(http::backoff(attempt as u32) == 2 * http::backoff((attempt - 1) as u32));
    doubling_is_bounded(n);
    let d = http::backoff((attempt - 1) as u32);
    assert(base * (2 * d) == 2 * (base * d)) by (nonlinear_arith);
    assert(base * d <= 0xffff_ffff_ffff_ffff * 0x4000_0000) by (nonlinear_arith)
        requires
            0 <= base <= 0xffff_ffff_ffff_ffff,
            0 <= d <= 0x4000_0000,
    ;
    assert(0 <= base * d) by (nonlinear_arith)
        requires
            0 <= base,
            0 <= d,
    ;
    assert(base * 1 == base) by (nonlinear_arith);
}

proof fn doubling_is_bounded(n: nat)
    requires
        n <= 30,
    ensures
        http::doubled(n) <= 0x4000_0000,
{
    reveal_with_fuel(http::doubled, 31);
    doubling_grows(n, 30);
    assert(http::doubled(30) == 0x4000_0000);
}

proof fn doubling_grows(m: nat, n: nat)
    requires
        m <= n,
    ensures
        1 <= http::doubled(m) <= http::doubled(n),
    decreases n,
{
    if n > 0 {
        if m == n {
            doubling_grows((m - 1) as nat, (n - 1) as nat);
        } else {
            doubling_grows(m, (n - 1) as nat);
        }
    }
}

/// A bundle is shared exactly where the scan lists a user of it other than the
/// field of the project; and all others are told, each by field and project.
pub proof fn other_users_are_told(
    usage: BundleUsageView,
    bundle_id: Seq<char>,
    field: Seq<char>,
    project: Seq<char>,
    users: Seq<BundleUserView>,
    i: int,
)
    requires
        usage.unavailable is None,
        sharedness::users_of(usage, bundle_id) == Some(users),
        0 <= i < users.len(),
        users[i].field_name != field || users[i].project_short_name != project,
    ensures
        sharedness::sharedness_of(usage, bundle_id, field, project) matches
            sharedness::SharednessView::Shared { others } && others.contains(
            users[i].field_name + "@"@ + users[i].project_short_name,
        ),
{
    let f = |u: BundleUserView| sharedness::other_user(u, field, project);
    text::picked_holds(users, f, i);
}

/// A field of a project uses the bundle that its instance there says.
pub proof fn uses_are_what_the_instances_say(
    field: JsonView,
    k: int,
    bundle_id: Seq<char>,
    instance_id: Seq<char>,
    name: Seq<char>,
    short_name: Seq<char>,
)
    requires
        ({
            let instances = json::items_of(json::member(field, "instances"@));
            &&& 0 <= k < instances.len()
            &&& json::nested_text(instances[k], "bundle"@, "id"@) == Some(bundle_id)
            &&& bundle_id.len() > 0
            &&& json::nested_text(instances[k], "project"@, "shortName"@) == Some(short_name)
            &&& json::text_at(instances[k], "id"@) == Some(instance_id)
            &&& json::text_at(field, "name"@) == Some(name)
        }),
    ensures
        sharedness::uses_of_field(field).contains(
            BundleUseView {
                bundle_id,
                user: BundleUserView {
                    field_name: name,
                    project_short_name: short_name,
                    instance_id,
                },
            },
        ),
{
    let instances = json::items_of(json::member(field, "instances"@));
    let f = |i: JsonView| sharedness::use_read(json::text_or_empty(field, "name"@), i);
    text::picked_holds(instances, f, k);
}

/// The item says this value: its identifier and its name, and its place, its
/// colour and whether it is resolved where it says those.
pub open spec fn says_value(item: JsonView, v: BundleValueView) -> bool {
    &&& json::says(item, "id"@, v.id)
    &&& json::says(item, "name"@, v.name)
    &&& json::member(item, "ordinal"@) matches Some(JsonView::Int(n)) ==> (i64::MIN <= n <= i64::MAX
        ==> v.ordinal == n)
    &&& json::member(item, "color"@) matches Some(c) ==> v.color == c
    &&& json::member(item, "isResolved"@) matches Some(JsonView::Bool(b)) ==> v.is_resolved == Some(
        b,
    )
    &&& json::member(item, "isResolved"@) is None ==> v.is_resolved is None
}

/// The values of a bundle are what its items say, and every item that says an
/// identifier and a name is one of them.
pub proof fn values_are_what_items_say(raw: Option<JsonView>, k: int, i: int)
    ensures
        0 <= k < bundles::values_read(raw).len() ==> exists|j: int|
            0 <= j < json::items_of(raw).len() && says_value(
                #[trigger] json::items_of(raw)[j],
                bundles::values_read(raw)[k],
            ),
        0 <= i < json::items_of(raw).len() && json::text_at(json::items_of(raw)[i], "id"@) is Some
            && json::text_at(json::items_of(raw)[i], "name"@) is Some ==> exists|m: int|
            0 <= m < bundles::values_read(raw).len() && says_value(
                json::items_of(raw)[i],
                #[trigger] bundles::values_read(raw)[m],
            ),
{
    let items = json::items_of(raw);
    let f = |v: JsonView| bundles::value_read(v);
    let all = bundles::values_read(raw);
    if 0 <= k < all.len() {
        text::picked_comes_from(items, f, k);
        let j = choose|j: int| 0 <= j < items.len() && f(#[trigger] items[j]) == Some(all[k]);
        assert(says_value(items[j], all[k]));
    }
    if 0 <= i < items.len() && json::text_at(items[i], "id"@) is Some && json::text_at(
        items[i],
        "name"@,
    ) is Some {
        text::picked_holds(items, f, i);
        let m = choose|m: int| 0 <= m < all.len() && all[m] == f(items[i])->0;
        assert(says_value(items[i], all[m]));
    }
}

/// A field of a project is read with the names and identifiers that it says,
/// and with its bundle; and it is read only where the bundle is of one of the
/// two classes.
pub proof fn project_fields_are_what_items_say(raw: JsonView)
    ensures
        bundles::project_field_read(raw) matches Some(f) ==> {
            &&& json::says(raw, "id"@, f.instance_id)
            &&& json::nested_text(raw, "field"@, "id"@) == Some(f.field_id)
            &&& json::nested_text(raw, "field"@, "name"@) == Some(f.field_name)
            &&& json::member(raw, "bundle"@) matches Some(b) && json::says(b, "id"@, f.bundle.id)
                && json::says(b, "name"@, f.bundle.name) && json::says(
                b,
                "$type"@,
                match f.bundle.kind {
                    BundleKind::Enum => "EnumBundle"@,
                    BundleKind::State => "StateBundle"@,
                },
            ) && f.bundle.values == bundles::values_read(json::member(b, "values"@))
        },
        (json::text_at(raw, "id"@) is Some && json::nested_text(raw, "field"@, "id"@) is Some
            && json::nested_text(raw, "field"@, "name"@) is Some && json::nested_text(
            raw,
            "bundle"@,
            "id"@,
        ) is Some && json::nested_text(raw, "bundle"@, "name"@) is Some && (json::nested_text(
            raw,
            "bundle"@,
            "$type"@,
        ) == Some("EnumBundle"@) || json::nested_text(raw, "bundle"@, "$type"@) == Some(
            "StateBundle"@,
        ))) ==> bundles::project_field_read(raw) is Some,
{
}

/// A value is added to its bundle by its name, and with whether it is resolved
/// where that is said; one after the other, until the mirror refuses one.
pub proof fn values_are_added_in_turn(
    bundle: BundleRefView,
    values: Seq<PendingValueView>,
    k: int,
    t: TalkView,
)
    requires
        0 <= k < values.len(),
    ensures
        ({
            let (outcome, after) = bundles::values_added_from(bundle, values, k, t);
            let rest = TalkView { rest: t.rest.drop_first(), ..t };
            &&& t.rest.len() == 0 ==> (outcome matches Err(StopView::Ask { request, .. })
                && request.method is Post && request.path
                == "/api/admin/customFieldSettings/bundles/"@ + (match bundle.kind {
                BundleKind::Enum => "enum"@,
                BundleKind::State => "state"@,
            }) + "/"@ + bundle.id + "/values?fields=id,name"@ && json::says(
                request.body->0,
                "name"@,
                values[k].name,
            ) && json::member(request.body->0, "isResolved"@) == (match values[k].is_resolved {
                Some(b) => Some(JsonView::Bool(b)),
                None => None,
            }))
            &&& t.rest.len() > 0 && t.rest[0] is Ok ==> (outcome, after)
                == bundles::values_added_from(bundle, values, k + 1, rest)
            &&& t.rest.len() > 0 && t.rest[0] is Err ==> outcome == Err::<(), StopView>(
                StopView::Fail(t.rest[0]->Err_0),
            )
        }),
{
    reveal_strlit("name");
    reveal_strlit("$type");
    reveal_strlit("isResolved");
    reveal_with_fuel(json::lookup, 4);
    let entries = bundles::add_value(bundle, values[k]).body->0->Object_0;
    assert(entries[0].0 == "name"@);
    assert("name"@.len() == 4 && "$type"@.len() == 5 && "isResolved"@.len() == 10);
    let r1 = entries.drop_first();
    assert(r1[0] == entries[1]);
    let r2 = r1.drop_first();
    if r2.len() > 0 {
        assert(r2[0] == entries[2]);
    }
}

/// A field whose bundle nobody else uses gets what it lacks in that bundle,
/// and the report names it; a dry run does no more than report.
pub proof fn private_bundles_get_what_they_lack(
    scene: InitScene,
    field: ProjectFieldBundleView,
    missing: Seq<PendingValueView>,
    report: InitReportView,
    t: TalkView,
)
    requires
        missing.len() > 0,
        sharedness::sharedness_of(
            scene.usage,
            field.bundle.id,
            field.field_name,
            scene.project.short_name,
        ) is Private,
    ensures
        ({
            let (outcome, now, after) = init::field_reconciled(scene, field, missing, report, t);
            let added = now.values_added.last();
            &&& outcome matches Ok(b) ==> b == field.bundle && now.values_added
                == report.values_added.push(added) && added.field_name == field.field_name
                && added.values.len() == missing.len() && (forall|i: int|
                0 <= i < missing.len() ==> added.values[i] == (#[trigger] missing[i]).name)
                && now.clones == report.clones && now.notes == report.notes
            &&& outcome is Err ==> now == report
            &&& scene.opts.dry_run ==> outcome is Ok && after == t
            &&& !scene.opts.dry_run && t.rest.len() == 0 ==> outcome == Err::<
                BundleRefView,
                StopView,
            >(StopView::Ask { request: bundles::add_value(field.bundle, missing[0]), pause: 0 })
        }),
{
    let (outcome, now, after) = init::field_reconciled(scene, field, missing, report, t);
    if outcome is Ok {
        assert(now.values_added =~= report.values_added.push(now.values_added.last()));
    }
}

/// With the leave to do so, a bundle that others use gets what its field
/// lacks, and a note that is said first names everyone else who uses it.
pub proof fn shared_bundles_are_noted(
    scene: InitScene,
    field: ProjectFieldBundleView,
    missing: Seq<PendingValueView>,
    others: Seq<Seq<char>>,
    report: InitReportView,
    t: TalkView,
    i: int,
)
    requires
        scene.opts.allow_shared_bundle,
        sharedness::sharedness_of(
            scene.usage,
            field.bundle.id,
            field.field_name,
            scene.project.short_name,
        ) == (sharedness::SharednessView::Shared { others }),
        0 <= i < others.len(),
    ensures
        ({
            let (outcome, now, after) = init::field_reconciled(scene, field, missing, report, t);
            &&& now.notes.len() == report.notes.len() + 1 && text::holds(now.notes.last(), others[i])
                && text::holds(now.notes.last(), field.bundle.name)
            &&& now.clones == report.clones
            &&& outcome matches Ok(b) ==> b == field.bundle
        }),
{
    let all = text::joined(others, ", "@);
    let note = init::note_shared_text(init::quoted_text(missing), field.bundle.name, all);
    text::joined_holds(others, ", "@, i);
    let head = "--allow-shared-bundle: adding "@ + init::quoted_text(missing) + " to '"@
        + field.bundle.name + "', which "@;
    let tail = " also use(s) — those values will appear in their vocabulary too"@;
    text::holds_within(head, all, tail, others[i]);
    assert(head + all + tail =~= note);
    let head2 = "--allow-shared-bundle: adding "@ + init::quoted_text(missing) + " to '"@;
    let tail2 = "', which "@ + all + tail;
    text::holds_itself(field.bundle.name);
    text::holds_within(head2, field.bundle.name, tail2, field.bundle.name);
    assert(head2 + field.bundle.name + tail2 =~= note);
}

/// A copy is put in the place of a bundle by its identifier, at the field of
/// the project; only then it gets what it lacks.
pub proof fn copies_take_their_place_first(
    scene: InitScene,
    field: ProjectFieldBundleView,
    missing: Seq<PendingValueView>,
    copy: BundleRefView,
    report: InitReportView,
    t: TalkView,
)
    ensures
        ({
            let (outcome, now, after) = init::copy_installed(
                scene,
                field,
                missing,
                copy,
                report,
                t,
            );
            let lacking = init::still_missing(missing, copy);
            &&& t.rest.len() == 0 ==> now == report && (outcome matches Err(
                StopView::Ask { request, .. },
            ) && request.path == "/api/admin/projects/"@ + scene.project.id + "/customFields/"@
                + field.instance_id + "?fields=id,bundle(id,name)"@ && json::nested_text(
                request.body->0,
                "bundle"@,
                "id"@,
            ) == Some(copy.id))
            &&& t.rest.len() == 1 && t.rest[0] is Ok && lacking.len() > 0 ==> now == report
                && outcome == Err::<BundleRefView, StopView>(
                StopView::Ask { request: bundles::add_value(copy, lacking[0]), pause: 0 },
            )
        }),
{
    let entries = clone::repoint_request(field, scene.project, copy).body->0->Object_0;
    assert(entries[0].0 == "bundle"@);
    let inner = entries[0].1->Object_0;
    assert(inner[0].0 == "id"@);
}

/// A scan that fails ends nothing, but then no bundle is taken for private.
pub proof fn failed_scans_are_known_as_such(t: TalkView)
    ensures
        sharedness::scanned(t).0 matches Err(StopView::Fail(_)) ==> (init::usage_scanned(
            t,
        ).0 matches Ok(usage) && usage.unavailable is Some),
        sharedness::scanned(t).0 matches Ok(usage) ==> init::usage_scanned(t).0 == Ok::<
            BundleUsageView,
            StopView,
        >(usage),
{
}

} // verus!
