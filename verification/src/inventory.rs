//! The window and application enumerator: which windows of which running
//! applications are listed, and on which space each of them is.

use std::collections::HashMap;
use vstd::prelude::*;
use crate::catalog::{build_catalog, catalog_of, countable, some_listing_failed, space_views, DisplayReport};
use crate::types::{
    window_views, App, AppView, Bounds, Error, Handle, SpaceView, Window, WindowView,
};

verus! {

/// The layer of ordinary application windows; panels and menus have others.
pub const NORMAL_LAYER: i32 = 0;

/// A running application as the workspace reported it.
#[derive(Debug, PartialEq, Eq)]
pub struct AppReport {
    pub pid: i32,
    /// The display name, where the application has one.
    pub name: Option<String>,
    /// Whether its activation policy is the regular one.
    pub regular: bool,
    pub terminated: bool,
}

/// An on-screen window as the window server reported it.
#[derive(Debug, PartialEq, Eq)]
pub struct WindowReport {
    pub layer: i32,
    /// The process that owns the window.
    pub pid: i32,
    /// The title, where the window has one.
    pub title: Option<String>,
    pub id: u32,
    /// The bounds, or `None` where the entry's bounds could not be read.
    pub bounds: Option<Bounds>,
}

/// Everything one refresh reads from the system. A `None` stands for a query
/// that came back invalid.
#[derive(Debug, PartialEq, Eq)]
pub struct Snapshot {
    pub displays: Option<Vec<DisplayReport>>,
    pub apps: Vec<AppReport>,
    pub windows: Option<Vec<WindowReport>>,
}

/// A reported text, empty where there was none.
pub open spec fn text_of(text: Option<String>) -> Seq<char> {
    match text {
        Some(s) => s@,
        None => Seq::empty(),
    }
}

/// Whether a running application is kept: a regular one that has not
/// terminated.
pub open spec fn kept(report: AppReport) -> bool {
    report.regular && !report.terminated
}

/// The names of the kept applications among the first `n` reports, by
/// process id. Where a process id is reported twice, the later report counts.
pub open spec fn names_before(reports: Seq<AppReport>, n: int) -> Map<i32, Seq<char>>
    decreases n,
{
    if n <= 0 {
        Map::empty()
    } else if kept(reports[n - 1]) {
        names_before(reports, n - 1).insert(reports[n - 1].pid, text_of(reports[n - 1].name))
    } else {
        names_before(reports, n - 1)
    }
}

/// The names of all kept applications, by process id.
pub open spec fn names_of(reports: Seq<AppReport>) -> Map<i32, Seq<char>> {
    names_before(reports, reports.len() as int)
}

/// Whether a window entry passes the filter: it is on the normal layer, a
/// kept application owns it, and the catalog assigns it to a space.
pub open spec fn eligible(
    names: Map<i32, Seq<char>>,
    catalog: Map<u32, SpaceView>,
    report: WindowReport,
) -> bool {
    report.layer == NORMAL_LAYER && names.contains_key(report.pid) && catalog.contains_key(
        report.id,
    )
}

/// Whether one of the first `n` window entries passes the filter and bears the
/// id `id`.
pub open spec fn claimed_before(
    names: Map<i32, Seq<char>>,
    catalog: Map<u32, SpaceView>,
    windows: Seq<WindowReport>,
    n: int,
    id: u32,
) -> bool {
    exists|j: int| 0 <= j < n && eligible(names, catalog, #[trigger] windows[j]) && windows[j].id == id
}

/// Whether window entry `i` is listed: it passes the filter, and no earlier
/// entry that passes it bears the same id.
pub open spec fn listed_at(
    names: Map<i32, Seq<char>>,
    catalog: Map<u32, SpaceView>,
    windows: Seq<WindowReport>,
    i: int,
) -> bool {
    eligible(names, catalog, windows[i]) && !claimed_before(
        names,
        catalog,
        windows,
        i,
        windows[i].id,
    )
}

/// The handle that a cache holds for a window id, if any.
pub open spec fn cached(handles: Map<u32, Handle>, id: u32) -> Option<Handle> {
    if handles.contains_key(id) {
        Some(handles[id])
    } else {
        None
    }
}

/// The window that a listed entry becomes.
pub open spec fn window_of(
    catalog: Map<u32, SpaceView>,
    handles: Map<u32, Handle>,
    report: WindowReport,
) -> WindowView {
    WindowView {
        title: text_of(report.title),
        id: report.id,
        bounds: report.bounds.unwrap(),
        space: catalog[report.id],
        handle: cached(handles, report.id),
    }
}

/// The windows of process `pid` among the first `n` entries, in their order.
pub open spec fn windows_before(
    pid: i32,
    names: Map<i32, Seq<char>>,
    catalog: Map<u32, SpaceView>,
    handles: Map<u32, Handle>,
    windows: Seq<WindowReport>,
    n: int,
) -> Seq<WindowView>
    decreases n,
{
    if n <= 0 {
        Seq::empty()
    } else if listed_at(names, catalog, windows, n - 1) && windows[n - 1].pid == pid {
        windows_before(pid, names, catalog, handles, windows, n - 1).push(
            window_of(catalog, handles, windows[n - 1]),
        )
    } else {
        windows_before(pid, names, catalog, handles, windows, n - 1)
    }
}

/// The owner and id of each listed window among the first `n` entries, in
/// their order.
pub open spec fn roster_before(
    names: Map<i32, Seq<char>>,
    catalog: Map<u32, SpaceView>,
    windows: Seq<WindowReport>,
    n: int,
) -> Seq<(i32, u32)>
    decreases n,
{
    if n <= 0 {
        Seq::empty()
    } else if listed_at(names, catalog, windows, n - 1) {
        roster_before(names, catalog, windows, n - 1).push((windows[n - 1].pid, windows[n - 1].id))
    } else {
        roster_before(names, catalog, windows, n - 1)
    }
}

/// Whether some listed window entry has no readable bounds.
pub open spec fn bounds_missing(
    names: Map<i32, Seq<char>>,
    catalog: Map<u32, SpaceView>,
    windows: Seq<WindowReport>,
) -> bool {
    exists|i: int|
        0 <= i < windows.len() && listed_at(names, catalog, windows, i) && (
        #[trigger] windows[i]).bounds is None
}

/// The inventory after the first `n` window entries: every kept
/// application, each with its windows among those entries.
pub open spec fn inventory_before(
    names: Map<i32, Seq<char>>,
    catalog: Map<u32, SpaceView>,
    handles: Map<u32, Handle>,
    windows: Seq<WindowReport>,
    n: int,
) -> Map<i32, AppView> {
    Map::new(
        |pid: i32| names.contains_key(pid),
        |pid: i32|
            AppView {
                pid,
                name: names[pid],
                windows: windows_before(pid, names, catalog, handles, windows, n),
            },
    )
}

/// The views of the applications of an inventory.
pub open spec fn app_views(apps: Map<i32, App>) -> Map<i32, AppView> {
    apps.map_values(|app: App| app@)
}

/// The window entries of a snapshot; none where the query for them failed.
pub open spec fn entries_of(snapshot: Snapshot) -> Seq<WindowReport> {
    match snapshot.windows {
        Some(windows) => windows@,
        None => Seq::empty(),
    }
}

/// The display reports of a snapshot; none where the query for them failed.
pub open spec fn displays_of(snapshot: Snapshot) -> Seq<DisplayReport> {
    match snapshot.displays {
        Some(displays) => displays@,
        None => Seq::empty(),
    }
}

/// Whether a snapshot cannot be turned into an inventory: a query came back
/// invalid, or a listed window has no readable bounds.
pub open spec fn unusable(snapshot: Snapshot) -> bool {
    ||| snapshot.displays is None
    ||| some_listing_failed(displays_of(snapshot))
    ||| snapshot.windows is None
    ||| bounds_missing(
        names_of(snapshot.apps@),
        catalog_of(displays_of(snapshot)),
        entries_of(snapshot),
    )
}

/// The inventory that a usable snapshot describes, with the handles of
/// `handles` attached to their windows.
pub open spec fn inventory_of(snapshot: Snapshot, handles: Map<u32, Handle>) -> Map<i32, AppView> {
    inventory_before(
        names_of(snapshot.apps@),
        catalog_of(displays_of(snapshot)),
        handles,
        entries_of(snapshot),
        entries_of(snapshot).len() as int,
    )
}

/// The owner and id of every window that a usable snapshot lists.
pub open spec fn roster_of(snapshot: Snapshot) -> Seq<(i32, u32)> {
    roster_before(
        names_of(snapshot.apps@),
        catalog_of(displays_of(snapshot)),
        entries_of(snapshot),
        entries_of(snapshot).len() as int,
    )
}

/// The kept applications, each without windows.
pub open spec fn windowless(names: Map<i32, Seq<char>>) -> Map<i32, AppView> {
    Map::new(
        |pid: i32| names.contains_key(pid),
        |pid: i32| AppView { pid, name: names[pid], windows: Seq::empty() },
    )
}

/// The catalog entries that none of the first `n` window entries has claimed.
pub open spec fn unclaimed(
    names: Map<i32, Seq<char>>,
    catalog: Map<u32, SpaceView>,
    windows: Seq<WindowReport>,
    n: int,
) -> Map<u32, SpaceView> {
    Map::new(
        |id: u32| catalog.contains_key(id) && !claimed_before(names, catalog, windows, n, id),
        |id: u32| catalog[id],
    )
}

/// An id is claimed after one more entry if it was claimed before, or if that
/// entry passes the filter and bears it.
pub proof fn lemma_claimed_step(
    names: Map<i32, Seq<char>>,
    catalog: Map<u32, SpaceView>,
    windows: Seq<WindowReport>,
    n: int,
    id: u32,
)
    requires
        0 <= n < windows.len(),
    ensures
        claimed_before(names, catalog, windows, n + 1, id) <==> (claimed_before(
            names,
            catalog,
            windows,
            n,
            id,
        ) || (eligible(names, catalog, windows[n]) && windows[n].id == id)),
{
    if claimed_before(names, catalog, windows, n + 1, id) {
        let j = choose|j: int|
            0 <= j < n + 1 && eligible(names, catalog, #[trigger] windows[j]) && windows[j].id
                == id;
        if j < n {
            assert(claimed_before(names, catalog, windows, n, id));
        }
    }
    if claimed_before(names, catalog, windows, n, id) {
        let j = choose|j: int|
            0 <= j < n && eligible(names, catalog, #[trigger] windows[j]) && windows[j].id == id;
        assert(0 <= j < n + 1 && eligible(names, catalog, windows[j]) && windows[j].id == id);
    }
    if eligible(names, catalog, windows[n]) && windows[n].id == id {
        assert(0 <= n < n + 1 && eligible(names, catalog, windows[n]) && windows[n].id == id);
    }
}

/// Entering an application into an inventory enters its view into the
/// inventory's views.
pub proof fn lemma_app_views_insert(apps: Map<i32, App>, pid: i32, app: App)
    ensures
        app_views(apps.insert(pid, app)) == app_views(apps).insert(pid, app@),
{
    assert(app_views(apps.insert(pid, app)) =~= app_views(apps).insert(pid, app@));
}

/// The kept applications among those that the workspace reported, each
/// without windows: the regular ones that have not terminated, by process id.
/// An application without a display name gets the empty name.
pub fn get_apps(reports: &Vec<AppReport>) -> (apps: HashMap<i32, App>)
    ensures
        app_views(apps@) == windowless(names_of(reports@)),
{
    broadcast use vstd::std_specs::hash::group_hash_axioms;

    let mut apps: HashMap<i32, App> = HashMap::new();
    let mut i: usize = 0;
    assert(app_views(apps@) =~= windowless(names_before(reports@, 0)));
    while i < reports.len()
        invariant
            i <= reports.len(),
            app_views(apps@) == windowless(names_before(reports@, i as int)),
        decreases reports.len() - i,
    {
        let report = &reports[i];
        if report.regular && !report.terminated {
            let name = match &report.name {
                Some(text) => text.clone(),
                None => String::new(),
            };
            let app = App::new(report.pid, name);
            let ghost before = apps@;
            let ghost entered = app;
            apps.insert(report.pid, app);
            proof {
                lemma_app_views_insert(before, report.pid, entered);
                assert(app_views(apps@) =~= windowless(names_before(reports@, i + 1)));
            }
        }
        i = i + 1;
    }
    apps
}

/// Turns a snapshot into the inventory and the roster of its listed windows,
/// attaching to each window the handle that `handles` holds for it. Fails with
/// `QueryFailure` exactly when the snapshot is unusable.
#[verifier::loop_isolation(false)]
pub fn take_inventory(snapshot: &Snapshot, handles: &HashMap<u32, Handle>) -> (out: Result<
    (HashMap<i32, App>, Vec<(i32, u32)>),
    Error,
>)
    requires
        countable(displays_of(*snapshot)),
    ensures
        unusable(*snapshot) <==> out is Err,
        out matches Err(e) ==> e == Error::QueryFailure,
        out matches Ok(listing) ==> app_views(listing.0@) == inventory_of(*snapshot, handles@)
            && listing.1@ == roster_of(*snapshot),
{
    broadcast use vstd::std_specs::hash::group_hash_axioms;

    let mut apps = get_apps(&snapshot.apps);
    let displays = match &snapshot.displays {
        Some(displays) => displays,
        None => {
            return Err(Error::QueryFailure);
        },
    };
    let mut visible = match build_catalog(displays) {
        Ok(catalog) => catalog,
        Err(e) => {
            return Err(e);
        },
    };
    let windows = match &snapshot.windows {
        Some(windows) => windows,
        None => {
            return Err(Error::QueryFailure);
        },
    };
    let ghost names = names_of(snapshot.apps@);
    let ghost catalog = catalog_of(displays@);
    let mut roster: Vec<(i32, u32)> = Vec::new();
    let mut k: usize = 0;
    proof {
        assert(space_views(visible@) =~= unclaimed(names, catalog, windows@, 0));
        assert(app_views(apps@) =~= inventory_before(names, catalog, handles@, windows@, 0));
    }
    while k < windows.len()
        invariant
            k <= windows.len(),
            space_views(visible@) == unclaimed(names, catalog, windows@, k as int),
            app_views(apps@) == inventory_before(names, catalog, handles@, windows@, k as int),
            roster@ == roster_before(names, catalog, windows@, k as int),
            forall|j: int|
                0 <= j < k && listed_at(names, catalog, windows@, j) ==> (
                #[trigger] windows@[j]).bounds is Some,
        decreases windows.len() - k,
    {
        let report = &windows[k];
        let ghost id = report.id;
        let ghost pid = report.pid;
        proof {
            assert forall|w: u32|
                claimed_before(names, catalog, windows@, k + 1, w) <==> (claimed_before(
                    names,
                    catalog,
                    windows@,
                    k as int,
                    w,
                ) || (eligible(names, catalog, windows@[k as int]) && id == w)) by {
                lemma_claimed_step(names, catalog, windows@, k as int, w);
            }
            assert(app_views(apps@).contains_key(pid) <==> apps@.contains_key(pid));
            assert(space_views(visible@).contains_key(id) <==> visible@.contains_key(id));
        }
        if report.layer == NORMAL_LAYER && apps.contains_key(&report.pid) && visible.contains_key(
            &report.id,
        ) {
            assert(listed_at(names, catalog, windows@, k as int));
            let bounds = match report.bounds {
                Some(bounds) => bounds,
                None => {
                    return Err(Error::QueryFailure);
                },
            };
            let ghost visible_before = visible@;
            let space = visible.remove(&report.id).unwrap();
            let handle = match handles.get(&report.id) {
                Some(found) => Some(*found),
                None => None,
            };
            let title = match &report.title {
                Some(text) => text.clone(),
                None => String::new(),
            };
            let ghost apps_before = apps@;
            let mut app = apps.remove(&report.pid).unwrap();
            let ghost owner_before = app;
            let window = Window { title, id: report.id, bounds, space, handle };
            let ghost attached = window;
            app.windows.push(window);
            let ghost owner_after = app;
            apps.insert(report.pid, app);
            roster.push((report.pid, report.id));
            proof {
                assert(visible@ == visible_before.remove(id));
                assert(apps@ == apps_before.remove(pid).insert(pid, owner_after));
                assert(space_views(visible_before)[id] == space@);
                assert(attached@ == window_of(catalog, handles@, windows@[k as int]));
                let target = unclaimed(names, catalog, windows@, k + 1);
                assert forall|w: u32| space_views(visible@).contains_key(w) <==> target.contains_key(w) by {
                    assert(space_views(visible_before).contains_key(w) <==> visible_before.contains_key(w));
                    assert(space_views(visible@).contains_key(w) <==> visible@.contains_key(w));
                    lemma_claimed_step(names, catalog, windows@, k as int, w);
                }
                assert forall|w: u32| space_views(visible@).contains_key(w) implies space_views(visible@)[w] == target[w] by {
                    assert(space_views(visible_before).contains_key(w));
                    assert(space_views(visible_before)[w] == catalog[w]);
                }
                assert(space_views(visible@) =~= target);
                assert(window_views(owner_after.windows@) =~= window_views(
                    owner_before.windows@,
                ).push(attached@));
                assert(app_views(apps_before)[pid] == owner_before@);
                lemma_app_views_insert(apps_before.remove(pid), pid, owner_after);
                assert forall|p: i32| names.contains_key(p) implies #[trigger] app_views(
                    apps@,
                )[p] == inventory_before(names, catalog, handles@, windows@, k + 1)[p] by {
                    if p != pid {
                        assert(app_views(apps@)[p] == app_views(apps_before)[p]);
                    }
                }
                assert(app_views(apps@) =~= inventory_before(
                    names,
                    catalog,
                    handles@,
                    windows@,
                    k + 1,
                ));
            }
        } else {
            proof {
                assert(!listed_at(names, catalog, windows@, k as int));
                assert(space_views(visible@) =~= unclaimed(names, catalog, windows@, k + 1));
                assert(app_views(apps@) =~= inventory_before(
                    names,
                    catalog,
                    handles@,
                    windows@,
                    k + 1,
                ));
            }
        }
        k = k + 1;
    }
    Ok((apps, roster))
}

/// The inventory of a snapshot: every kept application with its listed
/// windows, none of them with a handle yet. Fails with `QueryFailure` exactly
/// when the snapshot is unusable.
pub fn get_open_app_windows(snapshot: &Snapshot) -> (out: Result<HashMap<i32, App>, Error>)
    requires
        countable(displays_of(*snapshot)),
    ensures
        unusable(*snapshot) <==> out is Err,
        out matches Err(e) ==> e == Error::QueryFailure,
        out matches Ok(apps) ==> app_views(apps@) == inventory_of(*snapshot, Map::empty()),
{
    let handles: HashMap<u32, Handle> = HashMap::new();
    match take_inventory(snapshot, &handles) {
        Ok(listing) => Ok(listing.0),
        Err(e) => Err(e),
    }
}

/// Every window of process `pid` among the first `n` entries comes from a
/// listed entry that process `pid` owns.
pub proof fn lemma_window_has_entry(
    pid: i32,
    names: Map<i32, Seq<char>>,
    catalog: Map<u32, SpaceView>,
    handles: Map<u32, Handle>,
    windows: Seq<WindowReport>,
    n: int,
    i: int,
) -> (j: int)
    requires
        0 <= n <= windows.len(),
        0 <= i < windows_before(pid, names, catalog, handles, windows, n).len(),
    ensures
        0 <= j < n,
        listed_at(names, catalog, windows, j),
        windows[j].pid == pid,
        windows_before(pid, names, catalog, handles, windows, n)[i] == window_of(
            catalog,
            handles,
            windows[j],
        ),
    decreases n,
{
    let before = windows_before(pid, names, catalog, handles, windows, n - 1);
    if listed_at(names, catalog, windows, n - 1) && windows[n - 1].pid == pid && i
        == before.len() {
        n - 1
    } else {
        lemma_window_has_entry(pid, names, catalog, handles, windows, n - 1, i)
    }
}

/// Every listed entry among the first `n` is a window of its owner.
pub proof fn lemma_entry_has_window(
    names: Map<i32, Seq<char>>,
    catalog: Map<u32, SpaceView>,
    handles: Map<u32, Handle>,
    windows: Seq<WindowReport>,
    n: int,
    j: int,
) -> (i: int)
    requires
        0 <= j < n <= windows.len(),
        listed_at(names, catalog, windows, j),
    ensures
        0 <= i < windows_before(windows[j].pid, names, catalog, handles, windows, n).len(),
        windows_before(windows[j].pid, names, catalog, handles, windows, n)[i] == window_of(
            catalog,
            handles,
            windows[j],
        ),
    decreases n,
{
    let pid = windows[j].pid;
    let before = windows_before(pid, names, catalog, handles, windows, n - 1);
    if j == n - 1 {
        before.len() as int
    } else {
        lemma_entry_has_window(names, catalog, handles, windows, n - 1, j)
    }
}

/// Every entry of the roster comes from a listed window entry.
pub proof fn lemma_roster_has_entry(
    names: Map<i32, Seq<char>>,
    catalog: Map<u32, SpaceView>,
    windows: Seq<WindowReport>,
    n: int,
    i: int,
) -> (j: int)
    requires
        0 <= n <= windows.len(),
        0 <= i < roster_before(names, catalog, windows, n).len(),
    ensures
        0 <= j < n,
        listed_at(names, catalog, windows, j),
        roster_before(names, catalog, windows, n)[i] == (windows[j].pid, windows[j].id),
    decreases n,
{
    let before = roster_before(names, catalog, windows, n - 1);
    if listed_at(names, catalog, windows, n - 1) && i == before.len() {
        n - 1
    } else {
        lemma_roster_has_entry(names, catalog, windows, n - 1, i)
    }
}

/// Every listed window entry among the first `n` is on the roster.
pub proof fn lemma_entry_on_roster(
    names: Map<i32, Seq<char>>,
    catalog: Map<u32, SpaceView>,
    windows: Seq<WindowReport>,
    n: int,
    j: int,
) -> (i: int)
    requires
        0 <= j < n <= windows.len(),
        listed_at(names, catalog, windows, j),
    ensures
        0 <= i < roster_before(names, catalog, windows, n).len(),
        roster_before(names, catalog, windows, n)[i] == (windows[j].pid, windows[j].id),
    decreases n,
{
    let before = roster_before(names, catalog, windows, n - 1);
    if j == n - 1 {
        before.len() as int
    } else {
        lemma_entry_on_roster(names, catalog, windows, n - 1, j)
    }
}

/// Two listed window entries never bear the same id.
pub proof fn lemma_listed_ids_distinct(
    names: Map<i32, Seq<char>>,
    catalog: Map<u32, SpaceView>,
    windows: Seq<WindowReport>,
    i: int,
    j: int,
)
    requires
        0 <= i < j < windows.len(),
        listed_at(names, catalog, windows, i),
        listed_at(names, catalog, windows, j),
    ensures
        windows[i].id != windows[j].id,
{
    if windows[i].id == windows[j].id {
        assert(0 <= i < j && eligible(names, catalog, windows[i]) && windows[i].id
            == windows[j].id);
        assert(claimed_before(names, catalog, windows, j, windows[j].id));
    }
}

/// Every window of the inventory is on the normal layer and assigned to a
/// space by the catalog: it comes from a window entry of layer 0 that its
/// application owns, and its space is the one the catalog gives its id. No
/// entry of another layer, and none that the catalog does not know, is ever
/// listed.
pub proof fn lemma_inventory_is_filtered(
    snapshot: Snapshot,
    handles: Map<u32, Handle>,
    pid: i32,
    i: int,
) -> (j: int)
    requires
        inventory_of(snapshot, handles).contains_key(pid),
        0 <= i < inventory_of(snapshot, handles)[pid].windows.len(),
    ensures
        0 <= j < entries_of(snapshot).len(),
        entries_of(snapshot)[j].layer == NORMAL_LAYER,
        entries_of(snapshot)[j].pid == pid,
        entries_of(snapshot)[j].id == inventory_of(snapshot, handles)[pid].windows[i].id,
        names_of(snapshot.apps@).contains_key(pid),
        catalog_of(displays_of(snapshot)).contains_key(
            inventory_of(snapshot, handles)[pid].windows[i].id,
        ),
        inventory_of(snapshot, handles)[pid].windows[i].space == catalog_of(
            displays_of(snapshot),
        )[inventory_of(snapshot, handles)[pid].windows[i].id],
{
    lemma_window_has_entry(
        pid,
        names_of(snapshot.apps@),
        catalog_of(displays_of(snapshot)),
        handles,
        entries_of(snapshot),
        entries_of(snapshot).len() as int,
        i,
    )
}

/// A window entry of another layer than the normal one is never listed,
/// whoever owns it.
pub proof fn lemma_other_layers_are_dropped(
    names: Map<i32, Seq<char>>,
    catalog: Map<u32, SpaceView>,
    windows: Seq<WindowReport>,
    j: int,
)
    requires
        0 <= j < windows.len(),
        windows[j].layer != NORMAL_LAYER,
    ensures
        !listed_at(names, catalog, windows, j),
{
}

/// Two windows of one application never bear the same id.
pub proof fn lemma_window_ids_distinct(
    pid: i32,
    names: Map<i32, Seq<char>>,
    catalog: Map<u32, SpaceView>,
    handles: Map<u32, Handle>,
    windows: Seq<WindowReport>,
    n: int,
    i: int,
    k: int,
)
    requires
        0 <= n <= windows.len(),
        0 <= i < k < windows_before(pid, names, catalog, handles, windows, n).len(),
    ensures
        windows_before(pid, names, catalog, handles, windows, n)[i].id != windows_before(
            pid,
            names,
            catalog,
            handles,
            windows,
            n,
        )[k].id,
    decreases n,
{
    let before = windows_before(pid, names, catalog, handles, windows, n - 1);
    if listed_at(names, catalog, windows, n - 1) && windows[n - 1].pid == pid && k
        == before.len() {
        let j = lemma_window_has_entry(pid, names, catalog, handles, windows, n - 1, i);
        lemma_listed_ids_distinct(names, catalog, windows, j, n - 1);
    } else {
        lemma_window_ids_distinct(pid, names, catalog, handles, windows, n - 1, i, k);
    }
}

/// The windows of an application depend on the handle cache only through the
/// handles of the listed windows.
pub proof fn lemma_windows_agree(
    pid: i32,
    names: Map<i32, Seq<char>>,
    catalog: Map<u32, SpaceView>,
    first: Map<u32, Handle>,
    second: Map<u32, Handle>,
    windows: Seq<WindowReport>,
    n: int,
)
    requires
        0 <= n <= windows.len(),
        forall|j: int|
            0 <= j < n && listed_at(names, catalog, windows, j) ==> cached(
                first,
                (#[trigger] windows[j]).id,
            ) == cached(second, windows[j].id),
    ensures
        windows_before(pid, names, catalog, first, windows, n) == windows_before(
            pid,
            names,
            catalog,
            second,
            windows,
            n,
        ),
    decreases n,
{
    if n > 0 {
        lemma_windows_agree(pid, names, catalog, first, second, windows, n - 1);
        if listed_at(names, catalog, windows, n - 1) {
            assert(cached(first, windows[n - 1].id) == cached(second, windows[n - 1].id));
        }
    }
}

} // verus!
