//! The route list over the program's life: taking in routes found in the system table,
//! restoring enabled routes at start, guarding them each second, the user's toggles and
//! deletions, and the form that adds a route.
use vstd::prelude::*;

use crate::config::{RouteItem, RouteItemView, RouteStatus, RouteStatusView, routes_view};
use crate::ipv4::{is_ipv4_text, parse_ipv4};
use crate::locale::Language;
use crate::route_manager::{RouteTriple, triple_view, triples_view};
use crate::text::{
    chars_of, int_text, push_chars, push_int_text, push_str, replace_char,
    replace_chars, string_from_chars, string_of, trim, trim_str,
};

verus! {

/// The Chinese or the English text, by the language.
pub open spec fn lang_text(lang: Language, zh: Seq<char>, en: Seq<char>) -> Seq<char> {
    match lang {
        Language::Zh => zh,
        Language::En => en,
    }
}

/// The identifier of a route created at a time: its target with `-` for `.`, a `-`,
/// and the time in milliseconds.
pub open spec fn route_id_text(target: Seq<char>, timestamp_millis: i64) -> Seq<char> {
    replace_char(target, '.', '-') + seq!['-'] + int_text(timestamp_millis as int)
}

/// The identifier of a route created at a time.
pub fn route_id(target: &str, timestamp_millis: i64) -> (id: String)
    ensures
        id@ == route_id_text(target@, timestamp_millis),
{
    let t = chars_of(target);
    let mut v = replace_chars(&t, '.', '-');
    v.push('-');
    push_int_text(timestamp_millis, &mut v);
    string_from_chars(&v)
}

pub const SYNCED_PREFIX_ZH: &'static str = "已同步-";

pub const SYNCED_PREFIX_EN: &'static str = "Synced-";

/// The name given to a route found in the system table.
pub open spec fn synced_name(lang: Language, target: Seq<char>) -> Seq<char> {
    lang_text(lang, SYNCED_PREFIX_ZH@, SYNCED_PREFIX_EN@) + target
}

/// The route list entry for a route found in the system table: enabled and active.
pub open spec fn synced_item(
    found: (Seq<char>, Seq<char>, Seq<char>),
    lang: Language,
    timestamp_millis: i64,
) -> RouteItemView {
    RouteItemView {
        id: route_id_text(found.0, timestamp_millis),
        name: synced_name(lang, found.0),
        target: found.0,
        mask: found.1,
        gateway: found.2,
        enabled: true,
        status: RouteStatusView::Active,
    }
}

/// Whether the list holds a route with this target, mask and gateway.
pub open spec fn has_route(routes: Seq<RouteItemView>, found: (Seq<char>, Seq<char>, Seq<char>)) -> bool {
    exists|i: int|
        0 <= i < routes.len() && (#[trigger] routes[i]).target == found.0 && routes[i].mask
            == found.1 && routes[i].gateway == found.2
}

/// The list after taking in routes found in the system table, one after another: each
/// that the list does not yet hold is appended.
pub open spec fn merge_found(
    routes: Seq<RouteItemView>,
    found: Seq<(Seq<char>, Seq<char>, Seq<char>)>,
    lang: Language,
    timestamp_millis: i64,
) -> Seq<RouteItemView>
    decreases found.len(),
{
    if found.len() == 0 {
        routes
    } else {
        let acc = merge_found(routes, found.drop_last(), lang, timestamp_millis);
        if has_route(acc, found.last()) {
            acc
        } else {
            acc.push(synced_item(found.last(), lang, timestamp_millis))
        }
    }
}

/// Whether the list holds a route with this target, mask and gateway.
fn list_has_route(routes: &Vec<RouteItem>, t: &String, m: &String, g: &String) -> (b: bool)
    ensures
        b == has_route(routes_view(routes@), (t@, m@, g@)),
{
    let ghost rv = routes_view(routes@);
    let n = routes.len();
    for k in 0..n
        invariant
            n == routes.len(),
            rv == routes_view(routes@),
            forall|j: int|
                0 <= j < k ==> !((#[trigger] rv[j]).target == t@ && rv[j].mask == m@
                    && rv[j].gateway == g@),
    {
        let r = &routes[k];
        assert(rv[k as int] == r@);
        if r.target == *t && r.mask == *m && r.gateway == *g {
            return true;
        }
    }
    false
}

/// The name given to a route found in the system table.
pub fn synced_route_name(lang: Language, target: &String) -> (name: String)
    ensures
        name@ == synced_name(lang, target@),
{
    let mut v = match lang {
        Language::Zh => chars_of(SYNCED_PREFIX_ZH),
        Language::En => chars_of(SYNCED_PREFIX_EN),
    };
    let t = chars_of(target.as_str());
    push_chars(&mut v, &t);
    string_from_chars(&v)
}

/// Takes routes found in the system table into the list: each one that the list does not
/// hold yet (same target, mask and gateway) is appended, enabled and active. Tells whether
/// the list grew.
pub fn merge_scanned_routes(
    routes: &mut Vec<RouteItem>,
    found: &Vec<RouteTriple>,
    lang: Language,
    timestamp_millis: i64,
) -> (changed: bool)
    ensures
        routes_view(final(routes)@) == merge_found(
            routes_view(old(routes)@),
            triples_view(found@),
            lang,
            timestamp_millis,
        ),
        changed == (final(routes)@.len() != old(routes)@.len()),
{
    let ghost start = routes_view(routes@);
    let ghost fv = triples_view(found@);
    let n = found.len();
    let mut changed = false;
    assert(fv.take(0) =~= Seq::<(Seq<char>, Seq<char>, Seq<char>)>::empty());
    for i in 0..n
        invariant
            n == found.len(),
            fv == triples_view(found@),
            routes_view(routes@) == merge_found(start, fv.take(i as int), lang, timestamp_millis),
            routes@.len() >= start.len(),
            changed == (routes@.len() != start.len()),
            start.len() == routes_view(old(routes)@).len(),
    {
        let x = &found[i];
        assert(fv.take(i + 1).drop_last() =~= fv.take(i as int));
        assert(fv.take(i + 1).last() == triple_view(*x));
        if !list_has_route(routes, &x.0, &x.1, &x.2) {
            let item = RouteItem {
                id: route_id(x.0.as_str(), timestamp_millis),
                name: synced_route_name(lang, &x.0),
                target: x.0.clone(),
                mask: x.1.clone(),
                gateway: x.2.clone(),
                enabled: true,
                status: RouteStatus::Active,
            };
            let ghost before = routes@;
            routes.push(item);
            assert(routes_view(routes@) =~= routes_view(before).push(item@));
            changed = true;
        }
    }
    assert(fv.take(n as int) =~= fv);
    changed
}

/// Taking in found routes keeps the routes already listed, in place.
pub proof fn law_merge_keeps_existing(
    routes: Seq<RouteItemView>,
    found: Seq<(Seq<char>, Seq<char>, Seq<char>)>,
    lang: Language,
    timestamp_millis: i64,
)
    ensures
        merge_found(routes, found, lang, timestamp_millis).len() >= routes.len(),
        merge_found(routes, found, lang, timestamp_millis).subrange(0, routes.len() as int)
            == routes,
    decreases found.len(),
{
    if found.len() == 0 {
        assert(routes.subrange(0, routes.len() as int) =~= routes);
    } else {
        law_merge_keeps_existing(routes, found.drop_last(), lang, timestamp_millis);
        let acc = merge_found(routes, found.drop_last(), lang, timestamp_millis);
        if !has_route(acc, found.last()) {
            assert(acc.push(synced_item(found.last(), lang, timestamp_millis)).subrange(
                0,
                routes.len() as int,
            ) =~= acc.subrange(0, routes.len() as int));
        }
    }
}

/// After taking in found routes, the list holds every one of them.
pub proof fn law_merge_covers_found(
    routes: Seq<RouteItemView>,
    found: Seq<(Seq<char>, Seq<char>, Seq<char>)>,
    lang: Language,
    timestamp_millis: i64,
)
    ensures
        forall|k: int|
            0 <= k < found.len() ==> has_route(
                merge_found(routes, found, lang, timestamp_millis),
                #[trigger] found[k],
            ),
    decreases found.len(),
{
    if found.len() > 0 {
        let pre = found.drop_last();
        law_merge_covers_found(routes, pre, lang, timestamp_millis);
        let acc = merge_found(routes, pre, lang, timestamp_millis);
        let res = merge_found(routes, found, lang, timestamp_millis);
        assert forall|k: int| 0 <= k < found.len() implies has_route(res, #[trigger] found[k]) by {
            if k < found.len() - 1 {
                assert(found[k] == pre[k]);
                assert(has_route(acc, pre[k]));
                let j = choose|j: int|
                    0 <= j < acc.len() && (#[trigger] acc[j]).target == pre[k].0 && acc[j].mask
                        == pre[k].1 && acc[j].gateway == pre[k].2;
                assert(res[j] == acc[j]);
            } else if !has_route(acc, found.last()) {
                assert(res[acc.len() as int] == synced_item(found.last(), lang, timestamp_millis));
            }
        }
    }
}

/// Taking in the same found routes a second time changes nothing.
pub proof fn law_merge_idempotent(
    routes: Seq<RouteItemView>,
    found: Seq<(Seq<char>, Seq<char>, Seq<char>)>,
    lang: Language,
    timestamp_millis: i64,
)
    ensures
        merge_found(merge_found(routes, found, lang, timestamp_millis), found, lang, timestamp_millis)
            == merge_found(routes, found, lang, timestamp_millis),
{
    let once = merge_found(routes, found, lang, timestamp_millis);
    law_merge_covers_found(routes, found, lang, timestamp_millis);
    lemma_merge_present(once, found, lang, timestamp_millis);
}

proof fn lemma_merge_present(
    routes: Seq<RouteItemView>,
    found: Seq<(Seq<char>, Seq<char>, Seq<char>)>,
    lang: Language,
    timestamp_millis: i64,
)
    requires
        forall|k: int| 0 <= k < found.len() ==> has_route(routes, #[trigger] found[k]),
    ensures
        merge_found(routes, found, lang, timestamp_millis) == routes,
    decreases found.len(),
{
    if found.len() > 0 {
        let pre = found.drop_last();
        assert forall|k: int| 0 <= k < pre.len() implies has_route(routes, #[trigger] pre[k]) by {
            assert(pre[k] == found[k]);
        }
        lemma_merge_present(routes, pre, lang, timestamp_millis);
        assert(has_route(routes, found[found.len() - 1]));
    }
}

/// Every entry that taking in found routes appends is one of the found routes, under
/// its target, mask and gateway, switched on and active, and named after its target.
pub proof fn law_merge_adds_enabled_found_routes(
    routes: Seq<RouteItemView>,
    found: Seq<(Seq<char>, Seq<char>, Seq<char>)>,
    lang: Language,
    timestamp_millis: i64,
)
    ensures
        forall|k: int|
            routes.len() <= k < merge_found(routes, found, lang, timestamp_millis).len() ==> {
                let e = #[trigger] merge_found(routes, found, lang, timestamp_millis)[k];
                &&& e.enabled
                &&& e.status == RouteStatusView::Active
                &&& e.name == synced_name(lang, e.target)
                &&& exists|j: int|
                    0 <= j < found.len() && #[trigger] found[j] == (e.target, e.mask, e.gateway)
            },
    decreases found.len(),
{
    if found.len() > 0 {
        let pre = found.drop_last();
        law_merge_adds_enabled_found_routes(routes, pre, lang, timestamp_millis);
        law_merge_keeps_existing(routes, pre, lang, timestamp_millis);
        let acc = merge_found(routes, pre, lang, timestamp_millis);
        let res = merge_found(routes, found, lang, timestamp_millis);
        assert forall|k: int| routes.len() <= k < res.len() implies {
            let e = #[trigger] res[k];
            &&& e.enabled
            &&& e.status == RouteStatusView::Active
            &&& e.name == synced_name(lang, e.target)
            &&& exists|j: int|
                0 <= j < found.len() && #[trigger] found[j] == (e.target, e.mask, e.gateway)
        } by {
            if k < acc.len() {
                assert(res[k] == acc[k]);
                let e = acc[k];
                let j = choose|j: int|
                    0 <= j < pre.len() && #[trigger] pre[j] == (e.target, e.mask, e.gateway);
                assert(found[j] == pre[j]);
            } else {
                assert(found[found.len() - 1] == found.last());
            }
        }
    }
}

/// A route's entry at start: enabled routes are being restored, the others are off.
pub open spec fn startup_entry(r: RouteItemView) -> RouteItemView {
    RouteItemView {
        status: if r.enabled {
            RouteStatusView::Verifying
        } else {
            RouteStatusView::Inactive
        },
        ..r
    }
}

/// The enabled routes of a list, in order.
pub open spec fn enabled_routes(routes: Seq<RouteItemView>) -> Seq<RouteItemView>
    decreases routes.len(),
{
    if routes.len() == 0 {
        Seq::empty()
    } else if routes.last().enabled {
        enabled_routes(routes.drop_last()).push(routes.last())
    } else {
        enabled_routes(routes.drop_last())
    }
}

/// Sets every route's status for start-up (enabled routes to verifying, the others to
/// inactive) and gives the enabled routes, to be installed again.
pub fn restore_routes_on_startup(routes: &mut Vec<RouteItem>) -> (to_install: Vec<RouteItem>)
    ensures
        routes_view(final(routes)@) == routes_view(old(routes)@).map_values(
            |r: RouteItemView| startup_entry(r),
        ),
        routes_view(to_install@) == enabled_routes(routes_view(final(routes)@)),
{
    let ghost start = routes_view(routes@);
    let ghost target = start.map_values(|r: RouteItemView| startup_entry(r));
    let n = routes.len();
    let mut to_install: Vec<RouteItem> = Vec::new();
    assert(target.take(0) =~= Seq::<RouteItemView>::empty());
    for i in 0..n
        invariant
            n == routes.len(),
            start.len() == n,
            target == start.map_values(|r: RouteItemView| startup_entry(r)),
            forall|j: int| 0 <= j < i ==> (#[trigger] routes_view(routes@)[j]) == target[j],
            forall|j: int| i <= j < n ==> (#[trigger] routes_view(routes@)[j]) == start[j],
            routes_view(to_install@) == enabled_routes(target.take(i as int)),
    {
        assert(routes_view(routes@)[i as int] == routes@[i as int]@);
        let mut r = routes[i].clone();
        assert(r@ == start[i as int]);
        if r.enabled {
            r.status = RouteStatus::Verifying;
        } else {
            r.status = RouteStatus::Inactive;
        }
        assert(r@ == target[i as int]);
        assert(target.take(i + 1).drop_last() =~= target.take(i as int));
        if r.enabled {
            let ghost before = to_install@;
            to_install.push(r.clone());
            assert(routes_view(to_install@) =~= routes_view(before).push(r@));
        }
        let ghost prev = routes@;
        routes.set(i, r);
        assert forall|j: int| 0 <= j < n && j != i implies (#[trigger] routes_view(routes@)[j])
            == routes_view(prev)[j] by {}
    }
    assert(routes_view(routes@) =~= target);
    assert(target.take(n as int) =~= target);
    to_install
}

/// The tray's "check network again": every enabled route goes back to verifying.
pub open spec fn recheck_entry(r: RouteItemView) -> RouteItemView {
    if r.enabled {
        RouteItemView { status: RouteStatusView::Verifying, ..r }
    } else {
        r
    }
}

/// Puts every enabled route back to verifying, so the guard checks it again.
pub fn mark_enabled_verifying(routes: &mut Vec<RouteItem>)
    ensures
        routes_view(final(routes)@) == routes_view(old(routes)@).map_values(
            |r: RouteItemView| recheck_entry(r),
        ),
{
    let ghost start = routes_view(routes@);
    let ghost target = start.map_values(|r: RouteItemView| recheck_entry(r));
    let n = routes.len();
    for i in 0..n
        invariant
            n == routes.len(),
            start.len() == n,
            target == start.map_values(|r: RouteItemView| recheck_entry(r)),
            forall|j: int| 0 <= j < i ==> (#[trigger] routes_view(routes@)[j]) == target[j],
            forall|j: int| i <= j < n ==> (#[trigger] routes_view(routes@)[j]) == start[j],
    {
        assert(routes_view(routes@)[i as int] == routes@[i as int]@);
        if routes[i].enabled {
            let mut r = routes[i].clone();
            r.status = RouteStatus::Verifying;
            let ghost prev = routes@;
            routes.set(i, r);
            assert forall|j: int| 0 <= j < n && j != i implies (#[trigger] routes_view(routes@)[j])
                == routes_view(prev)[j] by {}
        } else {
            assert(routes_view(routes@)[i as int] == target[i as int]);
        }
    }
    assert(routes_view(routes@) =~= target);
}

/// What one guard check of a route calls for.
#[derive(Debug, Clone, Copy, PartialEq, Eq, Structural)]
pub struct HealthAction {
    /// The route list changed in a way worth saving.
    pub changed: bool,
    /// The route is to be installed again.
    pub reinstall: bool,
    /// A lost route came back after a reinstall: the user is told.
    pub notify_rebuilt: bool,
}

/// Whether the guard reads the routing table for this route: it is enabled and has not
/// failed.
pub open spec fn needs_probe(r: RouteItemView) -> bool {
    r.enabled && !(r.status is Failed)
}

/// One guard check of a route, given whether the routing table lists it (only read when
/// [`needs_probe`] holds) and whether this is the first check since start. A disabled
/// route is inactive. An enabled route that is verifying or inactive becomes active once
/// listed (and, if it was verifying after the first check, its rebuild is announced); an
/// inactive one that is not listed is installed again and verifying. An active route that
/// is no longer listed is installed again and verifying. A failed route stays as it is.
pub open spec fn health_step_spec(r: RouteItemView, listed: bool, first_check: bool) -> (
    RouteItemView,
    HealthAction,
) {
    let none = HealthAction { changed: false, reinstall: false, notify_rebuilt: false };
    if !r.enabled {
        (RouteItemView { status: RouteStatusView::Inactive, ..r }, none)
    } else {
        match r.status {
            RouteStatusView::Verifying => if listed {
                (
                    RouteItemView { status: RouteStatusView::Active, ..r },
                    HealthAction { changed: true, reinstall: false, notify_rebuilt: !first_check },
                )
            } else {
                (r, none)
            },
            RouteStatusView::Inactive => if listed {
                (
                    RouteItemView { status: RouteStatusView::Active, ..r },
                    HealthAction { changed: true, reinstall: false, notify_rebuilt: false },
                )
            } else {
                (
                    RouteItemView { status: RouteStatusView::Verifying, ..r },
                    HealthAction { changed: false, reinstall: true, notify_rebuilt: false },
                )
            },
            RouteStatusView::Active => if !listed {
                (
                    RouteItemView { status: RouteStatusView::Verifying, ..r },
                    HealthAction { changed: true, reinstall: true, notify_rebuilt: false },
                )
            } else {
                (r, none)
            },
            RouteStatusView::Failed(_) => (r, none),
        }
    }
}

/// Whether the guard reads the routing table for this route.
pub fn route_needs_probe(route: &RouteItem) -> (b: bool)
    ensures
        b == needs_probe(route@),
{
    route.enabled && !matches!(route.status, RouteStatus::Failed(_))
}

/// One guard check of a route (see [`health_step_spec`]).
pub fn health_step(route: &mut RouteItem, listed: bool, first_check: bool) -> (action: HealthAction)
    ensures
        (final(route)@, action) == health_step_spec(old(route)@, listed, first_check),
{
    let none = HealthAction { changed: false, reinstall: false, notify_rebuilt: false };
    if !route.enabled {
        route.status = RouteStatus::Inactive;
        return none;
    }
    match route.status {
        RouteStatus::Verifying => {
            if listed {
                route.status = RouteStatus::Active;
                HealthAction { changed: true, reinstall: false, notify_rebuilt: !first_check }
            } else {
                none
            }
        },
        RouteStatus::Inactive => {
            if listed {
                route.status = RouteStatus::Active;
                HealthAction { changed: true, reinstall: false, notify_rebuilt: false }
            } else {
                route.status = RouteStatus::Verifying;
                HealthAction { changed: false, reinstall: true, notify_rebuilt: false }
            }
        },
        RouteStatus::Active => {
            if !listed {
                route.status = RouteStatus::Verifying;
                HealthAction { changed: true, reinstall: true, notify_rebuilt: false }
            } else {
                none
            }
        },
        RouteStatus::Failed(_) => none,
    }
}

/// The guard's promises: a disabled route ends inactive; an enabled route found missing
/// while active is installed again; a listed route ends active unless it had failed; and
/// a route is only installed again while it is enabled.
pub proof fn law_guard_restores_lost_routes(r: RouteItemView, listed: bool, first_check: bool)
    ensures
        !r.enabled ==> health_step_spec(r, listed, first_check).0.status
            == RouteStatusView::Inactive,
        r.enabled && r.status == RouteStatusView::Active && !listed ==> health_step_spec(
            r,
            listed,
            first_check,
        ).1.reinstall && health_step_spec(r, listed, first_check).0.status
            == RouteStatusView::Verifying,
        r.enabled && listed && !(r.status is Failed) ==> health_step_spec(
            r,
            listed,
            first_check,
        ).0.status == RouteStatusView::Active,
        health_step_spec(r, listed, first_check).1.reinstall ==> r.enabled && !listed,
        r.status is Failed && r.enabled ==> health_step_spec(r, listed, first_check).0 == r,
{
}

/// The start-up pass and the guard touch only a route's status: its id, name, target,
/// mask, gateway and switch stay as they were. At start every enabled route is verifying
/// and every other one inactive, and as many routes as are enabled are given to be
/// installed again, each an enabled, verifying entry of the list; checking the network again puts every enabled route
/// back to verifying and leaves the others alone. A rebuild is only announced for an
/// enabled route that was verifying and is listed again after the first check.
pub proof fn law_status_passes_keep_routes(routes: Seq<RouteItemView>, listed: bool, first_check: bool)
    ensures
        ({
            let after = routes.map_values(|r: RouteItemView| startup_entry(r));
            &&& after.len() == routes.len()
            &&& forall|i: int|
                0 <= i < routes.len() ==> {
                    let (a, b) = (#[trigger] after[i], routes[i]);
                    &&& a.id == b.id && a.name == b.name && a.target == b.target
                    &&& a.mask == b.mask && a.gateway == b.gateway && a.enabled == b.enabled
                    &&& b.enabled ==> a.status == RouteStatusView::Verifying
                    &&& !b.enabled ==> a.status == RouteStatusView::Inactive
                }
            &&& enabled_routes(after).len() == enabled_count(routes)
            &&& forall|k: int|
                0 <= k < enabled_routes(after).len() ==> (#[trigger] enabled_routes(after)[k]).enabled
                    && enabled_routes(after)[k].status == RouteStatusView::Verifying
                    && exists|i: int| 0 <= i < after.len() && #[trigger] after[i] == enabled_routes(after)[k]
        }),
        ({
            let again = routes.map_values(|r: RouteItemView| recheck_entry(r));
            &&& again.len() == routes.len()
            &&& forall|i: int|
                0 <= i < routes.len() ==> {
                    let (a, b) = (#[trigger] again[i], routes[i]);
                    &&& b.enabled ==> a == RouteItemView { status: RouteStatusView::Verifying, ..b }
                    &&& !b.enabled ==> a == b
                }
        }),
        forall|r: RouteItemView|
            {
                let n = #[trigger] health_step_spec(r, listed, first_check).0;
                &&& n.id == r.id && n.name == r.name && n.target == r.target
                &&& n.mask == r.mask && n.gateway == r.gateway && n.enabled == r.enabled
            },
        forall|r: RouteItemView|
            #[trigger] health_step_spec(r, listed, first_check).1.notify_rebuilt ==> {
                &&& r.enabled && listed && !first_check
                &&& r.status == RouteStatusView::Verifying
            },
{
    lemma_enabled_routes_of(routes);
}

proof fn lemma_enabled_routes_of(routes: Seq<RouteItemView>)
    ensures
        ({
            let after = routes.map_values(|r: RouteItemView| startup_entry(r));
            &&& enabled_routes(after).len() == enabled_count(routes)
            &&& forall|k: int|
                0 <= k < enabled_routes(after).len() ==> (#[trigger] enabled_routes(after)[k]).enabled
                    && enabled_routes(after)[k].status == RouteStatusView::Verifying
                    && exists|i: int| 0 <= i < after.len() && #[trigger] after[i] == enabled_routes(after)[k]
        }),
    decreases routes.len(),
{
    let after = routes.map_values(|r: RouteItemView| startup_entry(r));
    if routes.len() > 0 {
        let pre = routes.drop_last();
        lemma_enabled_routes_of(pre);
        let pa = pre.map_values(|r: RouteItemView| startup_entry(r));
        assert(after.drop_last() =~= pa);
        assert(after.last() == startup_entry(routes.last()));
        let er = enabled_routes(after);
        let ep = enabled_routes(pa);
        assert forall|k: int| 0 <= k < er.len() implies (#[trigger] er[k]).enabled
            && er[k].status == RouteStatusView::Verifying
            && exists|i: int| 0 <= i < after.len() && #[trigger] after[i] == er[k] by {
            if k < ep.len() {
                assert(er[k] == ep[k]);
                let i = choose|i: int| 0 <= i < pa.len() && #[trigger] pa[i] == ep[k];
                assert(after[i] == pa[i]);
            } else {
                assert(er[k] == after.last());
                assert(after[after.len() - 1] == after.last());
            }
        }
    }
}

/// What the list view asks of the `route` command after the user's clicks.
#[derive(Debug)]
pub enum RouteCommand {
    /// Remove the routes to this target.
    Delete(String),
    /// Install this route, then verify it.
    Add(RouteItem),
}

/// The mathematical value of a [`RouteCommand`].
pub enum RouteCommandView {
    Delete(Seq<char>),
    Add(RouteItemView),
}

impl View for RouteCommand {
    type V = RouteCommandView;

    open spec fn view(&self) -> RouteCommandView {
        match self {
            RouteCommand::Delete(t) => RouteCommandView::Delete(t@),
            RouteCommand::Add(r) => RouteCommandView::Add(r@),
        }
    }
}

/// The views of a list of commands.
pub open spec fn commands_view(v: Seq<RouteCommand>) -> Seq<RouteCommandView> {
    v.map_values(|c: RouteCommand| c@)
}

/// Deleting the entry at an index: the list without it, and the removal of its route
/// from the system table if it was enabled.
pub open spec fn delete_step(routes: Seq<RouteItemView>, index: int) -> (Seq<RouteItemView>, Seq<
    RouteCommandView,
>) {
    (
        routes.remove(index),
        if routes[index].enabled {
            seq![RouteCommandView::Delete(routes[index].target)]
        } else {
            Seq::empty()
        },
    )
}

/// Deleting the entries at the given indices, the last index first.
pub open spec fn delete_all(routes: Seq<RouteItemView>, indices: Seq<usize>) -> (Seq<RouteItemView>, Seq<
    RouteCommandView,
>)
    decreases indices.len(),
{
    if indices.len() == 0 {
        (routes, Seq::empty())
    } else {
        let (r1, c1) = delete_step(routes, indices.last() as int);
        let (r2, c2) = delete_all(r1, indices.drop_last());
        (r2, c1 + c2)
    }
}

/// Whether deleting at the given indices, the last first, only ever removes an entry that
/// is there.
pub open spec fn deletions_in_bounds(len: nat, indices: Seq<usize>) -> bool {
    forall|k: int|
        0 <= k < indices.len() ==> (#[trigger] indices[k]) < len - (indices.len() - 1 - k)
}

/// Switching the entry at an index on or off: an entry switched on is verifying and is to
/// be installed; one switched off is inactive and its route removed. An index past the
/// end changes nothing.
pub open spec fn toggle_step(routes: Seq<RouteItemView>, toggle: (usize, bool)) -> (Seq<RouteItemView>, Seq<
    RouteCommandView,
>) {
    let (index, on) = toggle;
    if index < routes.len() {
        let r = routes[index as int];
        if on {
            let nr = RouteItemView { enabled: true, status: RouteStatusView::Verifying, ..r };
            (routes.update(index as int, nr), seq![RouteCommandView::Add(nr)])
        } else {
            let nr = RouteItemView { enabled: false, status: RouteStatusView::Inactive, ..r };
            (routes.update(index as int, nr), seq![RouteCommandView::Delete(r.target)])
        }
    } else {
        (routes, Seq::empty())
    }
}

/// Applying switches in order.
pub open spec fn toggle_all(routes: Seq<RouteItemView>, toggles: Seq<(usize, bool)>) -> (Seq<RouteItemView>, Seq<
    RouteCommandView,
>)
    decreases toggles.len(),
{
    if toggles.len() == 0 {
        (routes, Seq::empty())
    } else {
        let (r1, c1) = toggle_step(routes, toggles[0]);
        let (r2, c2) = toggle_all(r1, toggles.drop_first());
        (r2, c1 + c2)
    }
}

/// The user's clicks on the route list in one frame: the deletions (at indices taken
/// before any deletion, done from the last), then the switches (at indices into the list
/// as it is after the deletions).
pub open spec fn route_events(
    routes: Seq<RouteItemView>,
    deletions: Seq<usize>,
    toggles: Seq<(usize, bool)>,
) -> (Seq<RouteItemView>, Seq<RouteCommandView>) {
    let (r1, c1) = delete_all(routes, deletions);
    let (r2, c2) = toggle_all(r1, toggles);
    (r2, c1 + c2)
}

/// Applies the user's deletions and switches to the route list and gives the `route`
/// commands they call for, in order.
pub fn apply_route_events(
    routes: &mut Vec<RouteItem>,
    deletions: &Vec<usize>,
    toggles: &Vec<(usize, bool)>,
) -> (commands: Vec<RouteCommand>)
    requires
        deletions_in_bounds(old(routes)@.len(), deletions@),
    ensures
        (routes_view(final(routes)@), commands_view(commands@)) == route_events(
            routes_view(old(routes)@),
            deletions@,
            toggles@,
        ),
{
    let ghost start = routes_view(routes@);
    let ghost after_del = delete_all(start, deletions@);
    let mut commands: Vec<RouteCommand> = Vec::new();
    let mut k = deletions.len();
    assert(deletions@.take(k as int) =~= deletions@);
    assert(commands_view(commands@) + after_del.1 =~= after_del.1);
    while k > 0
        invariant
            k <= deletions@.len(),
            after_del == delete_all(start, deletions@),
            routes@.len() == start.len() - (deletions@.len() - k),
            deletions_in_bounds(start.len(), deletions@),
            ({
                let (r, c) = delete_all(routes_view(routes@), deletions@.take(k as int));
                r == after_del.0 && commands_view(commands@) + c == after_del.1
            }),
        decreases k,
    {
        let idx = deletions[k - 1];
        assert(idx == deletions@[k - 1]);
        assert(idx < routes@.len());
        let ghost before_routes = routes_view(routes@);
        let ghost before_cmds = commands_view(commands@);
        let ghost step = delete_step(before_routes, idx as int);
        let ghost pre = deletions@.take(k as int);
        assert(pre.drop_last() =~= deletions@.take(k - 1));
        assert(pre.last() == idx);
        let removed = routes.remove(idx);
        assert(routes_view(routes@) =~= before_routes.remove(idx as int));
        assert(removed@ == before_routes[idx as int]);
        if removed.enabled {
            let t = removed.target;
            commands.push(RouteCommand::Delete(t));
            assert(commands_view(commands@) =~= before_cmds + step.1);
        } else {
            assert(commands_view(commands@) =~= before_cmds + step.1);
        }
        let ghost rest = delete_all(routes_view(routes@), deletions@.take(k - 1));
        assert(before_cmds + (step.1 + rest.1) =~= commands_view(commands@) + rest.1);
        k = k - 1;
    }
    assert(deletions@.take(0) =~= Seq::<usize>::empty());
    assert(routes_view(routes@) == after_del.0);
    assert(commands_view(commands@) =~= after_del.1);
    let ghost mid = routes_view(routes@);
    let ghost del_cmds = commands_view(commands@);
    let ghost after_tog = toggle_all(mid, toggles@);
    let n = toggles.len();
    assert(toggles@.skip(0) =~= toggles@);
    for i in 0..n
        invariant
            n == toggles@.len(),
            after_tog == toggle_all(mid, toggles@),
            ({
                let (r, c) = toggle_all(routes_view(routes@), toggles@.skip(i as int));
                r == after_tog.0 && commands_view(commands@) + c == del_cmds + after_tog.1
            }),
    {
        let (index, on) = toggles[i];
        let ghost before_routes = routes_view(routes@);
        let ghost before_cmds = commands_view(commands@);
        let ghost step = toggle_step(before_routes, toggles@[i as int]);
        assert(toggles@.skip(i as int)[0] == toggles@[i as int]);
        assert(toggles@.skip(i as int).drop_first() =~= toggles@.skip(i + 1));
        if index < routes.len() {
            let mut r = routes[index].clone();
            assert(r@ == before_routes[index as int]);
            r.enabled = on;
            if on {
                r.status = RouteStatus::Verifying;
                let copy = r.clone();
                routes.set(index, r);
                commands.push(RouteCommand::Add(copy));
            } else {
                r.status = RouteStatus::Inactive;
                let t = r.target.clone();
                routes.set(index, r);
                commands.push(RouteCommand::Delete(t));
            }
            assert(routes_view(routes@) =~= step.0);
            assert(commands_view(commands@) =~= before_cmds + step.1);
        } else {
            assert(step.1 =~= Seq::<RouteCommandView>::empty());
            assert(commands_view(commands@) =~= before_cmds + step.1);
        }
        let ghost rest = toggle_all(routes_view(routes@), toggles@.skip(i + 1));
        assert(before_cmds + (step.1 + rest.1) =~= commands_view(commands@) + rest.1);
    }
    assert(toggles@.skip(n as int) =~= Seq::<(usize, bool)>::empty());
    assert(commands_view(commands@) =~= del_cmds + after_tog.1);
    commands
}

/// How many routes of the list are switched on.
pub open spec fn enabled_count(routes: Seq<RouteItemView>) -> nat
    decreases routes.len(),
{
    if routes.len() == 0 {
        0
    } else {
        enabled_count(routes.drop_last()) + if routes.last().enabled {
            1nat
        } else {
            0nat
        }
    }
}

proof fn lemma_enabled_count_remove(routes: Seq<RouteItemView>, i: int)
    requires
        0 <= i < routes.len(),
    ensures
        enabled_count(routes.remove(i)) + (if routes[i].enabled {
            1nat
        } else {
            0nat
        }) == enabled_count(routes),
    decreases routes.len(),
{
    let s = routes.remove(i);
    if i == routes.len() - 1 {
        assert(s =~= routes.drop_last());
    } else {
        assert(s.drop_last() =~= routes.drop_last().remove(i));
        assert(s.last() == routes.last());
        lemma_enabled_count_remove(routes.drop_last(), i);
    }
}

proof fn lemma_delete_all_commands(routes: Seq<RouteItemView>, indices: Seq<usize>)
    requires
        deletions_in_bounds(routes.len(), indices),
    ensures
        delete_all(routes, indices).0.len() == routes.len() - indices.len(),
        enabled_count(delete_all(routes, indices).0) + delete_all(routes, indices).1.len()
            == enabled_count(routes),
        forall|k: int|
            0 <= k < delete_all(routes, indices).1.len() ==> exists|j: int|
                0 <= j < routes.len() && routes[j].enabled && #[trigger] delete_all(
                    routes,
                    indices,
                ).1[k] == RouteCommandView::Delete(routes[j].target),
    decreases indices.len(),
{
    if indices.len() > 0 {
        let idx = indices.last() as int;
        assert(indices[indices.len() - 1] < routes.len());
        let (r1, c1) = delete_step(routes, idx);
        let rest = indices.drop_last();
        assert forall|k: int| 0 <= k < rest.len() implies (#[trigger] rest[k]) < r1.len() - (
        rest.len() - 1 - k) by {
            assert(rest[k] == indices[k]);
        }
        lemma_delete_all_commands(r1, rest);
        lemma_enabled_count_remove(routes, idx);
        let (r2, c2) = delete_all(r1, rest);
        let c = delete_all(routes, indices).1;
        assert(c == c1 + c2);
        assert forall|k: int| 0 <= k < c.len() implies exists|j: int|
            0 <= j < routes.len() && routes[j].enabled && #[trigger] c[k]
                == RouteCommandView::Delete(routes[j].target) by {
            if k < c1.len() {
                assert(c[k] == c1[k]);
                assert(routes[idx].enabled && c[k] == RouteCommandView::Delete(routes[idx].target));
            } else {
                assert(c[k] == c2[k - c1.len()]);
                let j1 = choose|j: int|
                    0 <= j < r1.len() && r1[j].enabled && #[trigger] c2[k - c1.len()]
                        == RouteCommandView::Delete(r1[j].target);
                let jj = if j1 < idx {
                    j1
                } else {
                    j1 + 1
                };
                assert(r1[j1] == routes[jj]);
            }
        }
    }
}

/// Deleting entries takes off the system table every deleted route that was switched on,
/// whatever its state (active, still verifying or failed), and nothing else: the
/// deletions shorten the list by one entry each, give one delete command for each enabled
/// entry they remove, each naming the target of an enabled entry of the list, and these
/// commands come before those of the switches. Deleting a single entry gives exactly the
/// list without it, and a delete command for its target when it was switched on.
pub proof fn law_deletions_remove_enabled_routes(
    routes: Seq<RouteItemView>,
    deletions: Seq<usize>,
    toggles: Seq<(usize, bool)>,
)
    requires
        deletions_in_bounds(routes.len(), deletions),
    ensures
        ({
            let (r, c) = route_events(routes, deletions, Seq::<(usize, bool)>::empty());
            &&& r.len() == routes.len() - deletions.len()
            &&& enabled_count(r) + c.len() == enabled_count(routes)
            &&& forall|k: int|
                0 <= k < c.len() ==> exists|j: int|
                    0 <= j < routes.len() && routes[j].enabled && #[trigger] c[k]
                        == RouteCommandView::Delete(routes[j].target)
            &&& route_events(routes, deletions, toggles).1.take(c.len() as int) == c
        }),
        deletions.len() == 1 ==> {
            let d = deletions[0] as int;
            let (r, c) = route_events(routes, deletions, Seq::<(usize, bool)>::empty());
            &&& r == routes.remove(d)
            &&& routes[d].enabled ==> c == seq![RouteCommandView::Delete(routes[d].target)]
            &&& !routes[d].enabled ==> c.len() == 0
        },
{
    let none = Seq::<(usize, bool)>::empty();
    let (r1, c1) = delete_all(routes, deletions);
    assert(toggle_all(r1, none) == (r1, Seq::<RouteCommandView>::empty()));
    assert(c1 + Seq::<RouteCommandView>::empty() =~= c1);
    lemma_delete_all_commands(routes, deletions);
    let all = route_events(routes, deletions, toggles).1;
    assert(all.take(c1.len() as int) =~= c1);
    if deletions.len() == 1 {
        assert(deletions.drop_last() =~= Seq::<usize>::empty());
        assert(deletions.last() == deletions[0]);
        let d = deletions[0] as int;
        let step = delete_step(routes, d);
        assert(delete_all(step.0, deletions.drop_last()) == (step.0, Seq::<RouteCommandView>::empty()));
        assert(step.1 + Seq::<RouteCommandView>::empty() =~= step.1);
    }
}

/// Switching one entry on or off changes that entry alone and keeps its route: switched
/// on, it is enabled and verifying and is to be installed as it now stands; switched
/// off, it is disabled and inactive and its target's route is to be removed. A switch
/// past the end of the list changes nothing.
pub proof fn law_switch_installs_or_removes(routes: Seq<RouteItemView>, index: usize, on: bool)
    ensures
        ({
            let (r, c) = route_events(routes, Seq::<usize>::empty(), seq![(index, on)]);
            &&& r.len() == routes.len()
            &&& forall|j: int| 0 <= j < routes.len() && j != index ==> #[trigger] r[j] == routes[j]
            &&& index < routes.len() ==> {
                let e = routes[index as int];
                let n = r[index as int];
                &&& n.id == e.id && n.name == e.name
                &&& n.target == e.target && n.mask == e.mask && n.gateway == e.gateway
                &&& n.enabled == on
                &&& on ==> n.status == RouteStatusView::Verifying && c == seq![
                    RouteCommandView::Add(n),
                ]
                &&& !on ==> n.status == RouteStatusView::Inactive && c == seq![
                    RouteCommandView::Delete(e.target),
                ]
            }
            &&& index >= routes.len() ==> r == routes && c.len() == 0
        }),
{
    let toggles = seq![(index, on)];
    let none = Seq::<usize>::empty();
    assert(delete_all(routes, none) == (routes, Seq::<RouteCommandView>::empty()));
    assert(toggles[0] == (index, on));
    assert(toggles.drop_first() =~= Seq::<(usize, bool)>::empty());
    let (r1, c1) = toggle_step(routes, (index, on));
    assert(toggle_all(r1, toggles.drop_first()) == (r1, Seq::<RouteCommandView>::empty()));
    assert(c1 + Seq::<RouteCommandView>::empty() =~= c1);
    assert(Seq::<RouteCommandView>::empty() + c1 =~= c1);
}

/// The index of the first route with this target.
pub open spec fn first_with_target(routes: Seq<RouteItemView>, target: Seq<char>) -> Option<int> {
    if exists|i: int| 0 <= i < routes.len() && (#[trigger] routes[i]).target == target {
        Some(
            choose|i: int|
                0 <= i < routes.len() && (#[trigger] routes[i]).target == target && forall|j: int|
                    0 <= j < i ==> (#[trigger] routes[j]).target != target,
        )
    } else {
        None
    }
}

proof fn lemma_first_with_target(routes: Seq<RouteItemView>, target: Seq<char>, i: int)
    requires
        0 <= i < routes.len(),
        routes[i].target == target,
        forall|j: int| 0 <= j < i ==> (#[trigger] routes[j]).target != target,
    ensures
        first_with_target(routes, target) == Some(i),
{
    let k = choose|k: int|
        0 <= k < routes.len() && (#[trigger] routes[k]).target == target && forall|j: int|
            0 <= j < k ==> (#[trigger] routes[j]).target != target;
    assert(routes[i].target == target);
    if k < i {
        assert(routes[k].target != target);
    }
    if k > i {
        assert(routes[i].target != target);
    }
}

/// The index of the first route with this target.
fn find_target(routes: &Vec<RouteItem>, target: &String) -> (r: Option<usize>)
    ensures
        r matches Some(i) ==> i < routes@.len() && first_with_target(routes_view(routes@), target@)
            == Some(i as int),
        r is None ==> first_with_target(routes_view(routes@), target@) is None,
{
    let ghost rv = routes_view(routes@);
    let n = routes.len();
    for i in 0..n
        invariant
            n == routes.len(),
            rv == routes_view(routes@),
            forall|j: int| 0 <= j < i ==> (#[trigger] rv[j]).target != target@,
    {
        assert(rv[i as int] == routes@[i as int]@);
        if routes[i].target == *target {
            proof {
                lemma_first_with_target(rv, target@, i as int);
            }
            return Some(i);
        }
    }
    None
}

/// Gives the first route with this target the status (after its installation was tried
/// or verified); the list is unchanged if no route has this target.
pub fn set_status_for_target(routes: &mut Vec<RouteItem>, target: &String, status: RouteStatus)
    ensures
        match first_with_target(routes_view(old(routes)@), target@) {
            Some(i) => routes_view(final(routes)@) == routes_view(old(routes)@).update(
                i,
                RouteItemView { status: status@, ..routes_view(old(routes)@)[i] },
            ),
            None => routes_view(final(routes)@) == routes_view(old(routes)@),
        },
{
    let ghost start = routes_view(routes@);
    match find_target(routes, target) {
        Some(i) => {
            assert(start[i as int] == routes@[i as int]@);
            let mut r = routes[i].clone();
            r.status = status;
            routes.set(i, r);
            assert(routes_view(routes@) =~= start.update(
                i as int,
                RouteItemView { status: status@, ..start[i as int] },
            ));
        },
        None => {},
    }
}

pub const MSG_REQUIRED_ZH: &'static str = "必填项 (*) 不能为空";

pub const MSG_REQUIRED_EN: &'static str = "Required fields (*) cannot be empty";

pub const MSG_FORM_TARGET_ZH: &'static str = "目标 IP 地址格式不合法";

pub const MSG_FORM_TARGET_EN: &'static str = "Invalid Target IP format";

pub const MSG_FORM_MASK_ZH: &'static str = "子网掩码格式不合法";

pub const MSG_FORM_MASK_EN: &'static str = "Invalid Netmask format";

pub const MSG_FORM_GATEWAY_ZH: &'static str = "网关地址格式不合法";

pub const MSG_FORM_GATEWAY_EN: &'static str = "Invalid Gateway IP format";

pub const ROUTE_NAME_PREFIX_ZH: &'static str = "路由-";

pub const ROUTE_NAME_PREFIX_EN: &'static str = "Route-";

pub const MSG_EXISTS_ZH_BEFORE: &'static str = "目标 IP ";

pub const MSG_EXISTS_ZH_AFTER: &'static str = " 已经存在配置列表中";

pub const MSG_EXISTS_EN_BEFORE: &'static str = "Target IP ";

pub const MSG_EXISTS_EN_AFTER: &'static str = " already exists in the configurations";

/// The mask the form starts with: a single host.
pub const DEFAULT_MASK: &'static str = "255.255.255.255";

/// The message when the target is already listed.
pub open spec fn exists_message(lang: Language, target: Seq<char>) -> Seq<char> {
    match lang {
        Language::Zh => MSG_EXISTS_ZH_BEFORE@ + target + MSG_EXISTS_ZH_AFTER@,
        Language::En => MSG_EXISTS_EN_BEFORE@ + target + MSG_EXISTS_EN_AFTER@,
    }
}

/// Whether some listed route has this target.
pub open spec fn target_listed(routes: Seq<RouteItemView>, target: Seq<char>) -> bool {
    exists|i: int| 0 <= i < routes.len() && (#[trigger] routes[i]).target == target
}

/// What the form gives for its fields (taken trimmed) and the routes listed: a complaint,
/// or the new route, disabled and inactive, named after its target if no name was given.
pub open spec fn form_result(
    lang: Language,
    target: Seq<char>,
    mask: Seq<char>,
    gateway: Seq<char>,
    name: Seq<char>,
    routes: Seq<RouteItemView>,
    timestamp_millis: i64,
) -> Result<RouteItemView, Seq<char>> {
    let t = trim(target);
    let m = trim(mask);
    let g = trim(gateway);
    let n = trim(name);
    if t.len() == 0 || m.len() == 0 || g.len() == 0 {
        Err(lang_text(lang, MSG_REQUIRED_ZH@, MSG_REQUIRED_EN@))
    } else if !is_ipv4_text(t) {
        Err(lang_text(lang, MSG_FORM_TARGET_ZH@, MSG_FORM_TARGET_EN@))
    } else if !is_ipv4_text(m) {
        Err(lang_text(lang, MSG_FORM_MASK_ZH@, MSG_FORM_MASK_EN@))
    } else if !is_ipv4_text(g) {
        Err(lang_text(lang, MSG_FORM_GATEWAY_ZH@, MSG_FORM_GATEWAY_EN@))
    } else if target_listed(routes, t) {
        Err(exists_message(lang, t))
    } else {
        Ok(
            RouteItemView {
                id: route_id_text(t, timestamp_millis),
                name: if n.len() == 0 {
                    lang_text(lang, ROUTE_NAME_PREFIX_ZH@, ROUTE_NAME_PREFIX_EN@) + t
                } else {
                    n
                },
                target: t,
                mask: m,
                gateway: g,
                enabled: false,
                status: RouteStatusView::Inactive,
            },
        )
    }
}

/// The view of a form result.
pub open spec fn form_view(r: Result<RouteItem, String>) -> Result<RouteItemView, Seq<char>> {
    match r {
        Ok(item) => Ok(item@),
        Err(e) => Err(e@),
    }
}

/// Whether some listed route has this target.
fn list_has_target(routes: &Vec<RouteItem>, target: &String) -> (b: bool)
    ensures
        b == target_listed(routes_view(routes@), target@),
{
    let ghost rv = routes_view(routes@);
    let n = routes.len();
    for k in 0..n
        invariant
            n == routes.len(),
            rv == routes_view(routes@),
            forall|j: int| 0 <= j < k ==> (#[trigger] rv[j]).target != target@,
    {
        assert(rv[k as int] == routes@[k as int]@);
        if routes[k].target == *target {
            return true;
        }
    }
    false
}

/// A text of the language.
fn lang_string(lang: Language, zh: &str, en: &str) -> (s: String)
    ensures
        s@ == lang_text(lang, zh@, en@),
{
    string_of(lang.t(zh, en))
}

/// Checks the "add route" form against the listed routes and builds the new route.
pub fn new_route_from_form(
    lang: Language,
    target: &str,
    mask: &str,
    gateway: &str,
    name: &str,
    routes: &Vec<RouteItem>,
    timestamp_millis: i64,
) -> (res: Result<RouteItem, String>)
    ensures
        form_view(res) == form_result(
            lang,
            target@,
            mask@,
            gateway@,
            name@,
            routes_view(routes@),
            timestamp_millis,
        ),
{
    let t = trim_str(target);
    let m = trim_str(mask);
    let g = trim_str(gateway);
    let n = trim_str(name);
    if t.len() == 0 || m.len() == 0 || g.len() == 0 {
        return Err(lang_string(lang, MSG_REQUIRED_ZH, MSG_REQUIRED_EN));
    }
    if parse_ipv4(&t).is_none() {
        return Err(lang_string(lang, MSG_FORM_TARGET_ZH, MSG_FORM_TARGET_EN));
    }
    if parse_ipv4(&m).is_none() {
        return Err(lang_string(lang, MSG_FORM_MASK_ZH, MSG_FORM_MASK_EN));
    }
    if parse_ipv4(&g).is_none() {
        return Err(lang_string(lang, MSG_FORM_GATEWAY_ZH, MSG_FORM_GATEWAY_EN));
    }
    let target_s = string_from_chars(&t);
    let route_name = if n.len() == 0 {
        let mut v = chars_of(lang.t(ROUTE_NAME_PREFIX_ZH, ROUTE_NAME_PREFIX_EN));
        push_chars(&mut v, &t);
        string_from_chars(&v)
    } else {
        string_from_chars(&n)
    };
    if list_has_target(routes, &target_s) {
        let mut v = chars_of(lang.t(MSG_EXISTS_ZH_BEFORE, MSG_EXISTS_EN_BEFORE));
        push_chars(&mut v, &t);
        push_str(&mut v, lang.t(MSG_EXISTS_ZH_AFTER, MSG_EXISTS_EN_AFTER));
        return Err(string_from_chars(&v));
    }
    let id = route_id(target_s.as_str(), timestamp_millis);
    Ok(
        RouteItem {
            id,
            name: route_name,
            target: target_s,
            mask: string_from_chars(&m),
            gateway: string_from_chars(&g),
            enabled: false,
            status: RouteStatus::Inactive,
        },
    )
}

/// A route added by the form is never a second entry for a listed target.
pub proof fn law_form_rejects_listed_target(
    lang: Language,
    target: Seq<char>,
    mask: Seq<char>,
    gateway: Seq<char>,
    name: Seq<char>,
    routes: Seq<RouteItemView>,
    timestamp_millis: i64,
)
    ensures
        form_result(lang, target, mask, gateway, name, routes, timestamp_millis) matches Ok(r) ==> (
        !target_listed(routes, r.target) && is_ipv4_text(r.target) && is_ipv4_text(r.mask)
            && is_ipv4_text(r.gateway) && !r.enabled),
{
}

/// A route the form accepts is made of what was typed into it: its target, mask and
/// gateway are the trimmed target, mask and gateway fields, each in its own place; it is
/// switched off and inactive; and it bears the trimmed name, or, with no name given, the
/// language's route prefix followed by its target. The form accepts exactly when the three
/// address fields hold dotted-decimal addresses and no listed route has that target.
pub proof fn law_form_keeps_fields(
    lang: Language,
    target: Seq<char>,
    mask: Seq<char>,
    gateway: Seq<char>,
    name: Seq<char>,
    routes: Seq<RouteItemView>,
    timestamp_millis: i64,
)
    ensures
        form_result(lang, target, mask, gateway, name, routes, timestamp_millis) matches Ok(r)
            ==> {
            &&& r.target == trim(target)
            &&& r.mask == trim(mask)
            &&& r.gateway == trim(gateway)
            &&& !r.enabled
            &&& r.status == RouteStatusView::Inactive
            &&& trim(name).len() > 0 ==> r.name == trim(name)
            &&& trim(name).len() == 0 ==> r.name == lang_text(
                lang,
                ROUTE_NAME_PREFIX_ZH@,
                ROUTE_NAME_PREFIX_EN@,
            ) + trim(target)
        },
        form_result(lang, target, mask, gateway, name, routes, timestamp_millis) is Ok <==> {
            &&& trim(target).len() > 0 && is_ipv4_text(trim(target))
            &&& trim(mask).len() > 0 && is_ipv4_text(trim(mask))
            &&& trim(gateway).len() > 0 && is_ipv4_text(trim(gateway))
            &&& !target_listed(routes, trim(target))
        },
{
}

} // verus!

verus! {

/// How many guard rounds may pass between two saves of the configuration.
pub const SAVE_EVERY_ROUNDS: u32 = 10;

/// Counts one guard round and tells whether the configuration is to be saved now: when
/// something worth saving changed, or every [`SAVE_EVERY_ROUNDS`] rounds; the count
/// starts over at each save.
pub fn save_due(rounds: &mut u32, needed: bool) -> (due: bool)
    requires
        *old(rounds) < SAVE_EVERY_ROUNDS,
    ensures
        due == (*old(rounds) + 1 >= SAVE_EVERY_ROUNDS || needed),
        due ==> *final(rounds) == 0,
        !due ==> *final(rounds) == *old(rounds) + 1,
        *final(rounds) < SAVE_EVERY_ROUNDS,
{
    *rounds = *rounds + 1;
    if *rounds >= SAVE_EVERY_ROUNDS || needed {
        *rounds = 0;
        true
    } else {
        false
    }
}

} // verus!

verus! {

/// Whether deleting at the given indices, the last first, only ever removes an entry that
/// is there (the condition [`apply_route_events`] needs).
pub fn deletions_fit(len: usize, deletions: &Vec<usize>) -> (ok: bool)
    ensures
        ok == deletions_in_bounds(len as nat, deletions@),
{
    let n = deletions.len();
    for k in 0..n
        invariant
            n == deletions@.len(),
            forall|j: int| 0 <= j < k ==> (#[trigger] deletions@[j]) < len - (n - 1 - j),
    {
        if deletions[k] as u128 + (n - 1 - k) as u128 >= len as u128 {
            return false;
        }
    }
    true
}

/// No two routes of the list share a target.
pub open spec fn targets_distinct(routes: Seq<RouteItemView>) -> bool {
    forall|i: int, j: int|
        0 <= i < j < routes.len() ==> (#[trigger] routes[i]).target != (#[trigger] routes[j]).target
}

proof fn lemma_delete_all_distinct(routes: Seq<RouteItemView>, indices: Seq<usize>)
    requires
        targets_distinct(routes),
        deletions_in_bounds(routes.len(), indices),
    ensures
        targets_distinct(delete_all(routes, indices).0),
    decreases indices.len(),
{
    if indices.len() > 0 {
        let idx = indices.last() as int;
        assert(indices[indices.len() - 1] < routes.len());
        let r1 = routes.remove(idx);
        assert forall|i: int, j: int| 0 <= i < j < r1.len() implies (#[trigger] r1[i]).target
            != (#[trigger] r1[j]).target by {
            let ii = if i < idx { i } else { i + 1 };
            let jj = if j < idx { j } else { j + 1 };
            assert(r1[i] == routes[ii]);
            assert(r1[j] == routes[jj]);
        }
        let rest = indices.drop_last();
        assert forall|k: int| 0 <= k < rest.len() implies (#[trigger] rest[k]) < r1.len() - (
        rest.len() - 1 - k) by {
            assert(rest[k] == indices[k]);
        }
        lemma_delete_all_distinct(r1, rest);
    }
}

proof fn lemma_toggle_all_distinct(routes: Seq<RouteItemView>, toggles: Seq<(usize, bool)>)
    requires
        targets_distinct(routes),
    ensures
        targets_distinct(toggle_all(routes, toggles).0),
        toggle_all(routes, toggles).0.len() == routes.len(),
    decreases toggles.len(),
{
    if toggles.len() > 0 {
        let r1 = toggle_step(routes, toggles[0]).0;
        assert forall|i: int| 0 <= i < r1.len() implies (#[trigger] r1[i]).target
            == routes[i].target by {}
        assert forall|i: int, j: int| 0 <= i < j < r1.len() implies (#[trigger] r1[i]).target
            != (#[trigger] r1[j]).target by {
            assert(r1[i].target == routes[i].target);
            assert(r1[j].target == routes[j].target);
        }
        lemma_toggle_all_distinct(r1, toggles.drop_first());
    }
}

/// The user's deletions and switches in one frame never make two routes share a target:
/// a list whose targets are distinct keeps them distinct.
pub proof fn law_route_events_keep_targets_distinct(
    routes: Seq<RouteItemView>,
    deletions: Seq<usize>,
    toggles: Seq<(usize, bool)>,
)
    requires
        targets_distinct(routes),
        deletions_in_bounds(routes.len(), deletions),
    ensures
        targets_distinct(route_events(routes, deletions, toggles).0),
{
    lemma_delete_all_distinct(routes, deletions);
    lemma_toggle_all_distinct(delete_all(routes, deletions).0, toggles);
}

/// Appending the route the form accepts keeps the targets of the list distinct.
pub proof fn law_form_keeps_targets_distinct(
    lang: Language,
    target: Seq<char>,
    mask: Seq<char>,
    gateway: Seq<char>,
    name: Seq<char>,
    routes: Seq<RouteItemView>,
    timestamp_millis: i64,
)
    requires
        targets_distinct(routes),
    ensures
        form_result(lang, target, mask, gateway, name, routes, timestamp_millis) matches Ok(r)
            ==> targets_distinct(routes.push(r)),
{
    if form_result(lang, target, mask, gateway, name, routes, timestamp_millis) is Ok {
        let r = form_result(lang, target, mask, gateway, name, routes, timestamp_millis)->Ok_0;
        let all = routes.push(r);
        assert forall|i: int, j: int| 0 <= i < j < all.len() implies (#[trigger] all[i]).target
            != (#[trigger] all[j]).target by {
            if j == routes.len() {
                assert(all[i] == routes[i]);
                assert(!target_listed(routes, r.target));
            } else {
                assert(all[i] == routes[i] && all[j] == routes[j]);
            }
        }
    }
}

} // verus!
