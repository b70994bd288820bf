//! The inventory manager: the published inventory with its handle cache and
//! its icon cache, and the refresh that rebuilds them.

use std::collections::HashMap;
use vstd::prelude::*;
use crate::catalog::{catalog_of, countable};
use crate::icon::{IconData, IconView};
use crate::inventory::{
    app_views, cached, displays_of, entries_of, inventory_of, lemma_app_views_insert,
    lemma_entry_has_window, lemma_entry_on_roster, lemma_listed_ids_distinct,
    lemma_roster_has_entry, lemma_window_has_entry, lemma_window_ids_distinct,
    lemma_windows_agree, listed_at, names_before, names_of, roster_of, take_inventory, unusable,
    windows_before, AppReport, Snapshot, WindowReport,
};
use crate::pending::{
    group_by_pid, groups_of, iconless, iconless_apps, lacking, unresolved_entries, Pending,
    PendingView,
};
use crate::types::{
    window_views, App, AppView, Error, Handle, SpaceView, Window, WindowView,
};

verus! {

/// The inventory manager. It alone owns the published inventory and both
/// caches; everyone else reads them through it.
pub struct Manager {
    app_map: HashMap<i32, App>,
    ax_cache: HashMap<u32, Handle>,
    icon_cache: HashMap<i32, IconData>,
}

/// What a `Manager` holds: the published inventory by process id, the handle
/// cache by window id and the icon cache by process id.
pub struct ManagerView {
    pub apps: Map<i32, AppView>,
    pub handles: Map<u32, Handle>,
    pub icons: Map<i32, IconView>,
}

/// The views of the icons of a cache.
pub open spec fn icon_views(icons: Map<i32, IconData>) -> Map<i32, IconView> {
    icons.map_values(|icon: IconData| icon@)
}

impl View for Manager {
    type V = ManagerView;

    closed spec fn view(&self) -> ManagerView {
        ManagerView {
            apps: app_views(self.app_map@),
            handles: self.ax_cache@,
            icons: icon_views(self.icon_cache@),
        }
    }
}

/// The ids of the windows among the first `n` entries of a roster.
pub open spec fn ids_before(roster: Seq<(i32, u32)>, n: int) -> Set<u32> {
    Set::new(|id: u32| exists|i: int| 0 <= i < n && (#[trigger] roster[i]).1 == id)
}

/// The ids of the windows that a snapshot lists: the live windows.
pub open spec fn live_windows(snapshot: Snapshot) -> Set<u32> {
    ids_before(roster_of(snapshot), roster_of(snapshot).len() as int)
}

/// The ids of the applications that a snapshot keeps: the live processes.
pub open spec fn live_processes(snapshot: Snapshot) -> Set<i32> {
    names_of(snapshot.apps@).dom()
}

/// The manager after a refresh from a usable snapshot: the snapshot's
/// inventory with the cached handles attached, and both caches without the
/// entries of windows and processes that are no longer live.
pub open spec fn refreshed(manager: ManagerView, snapshot: Snapshot) -> ManagerView {
    ManagerView {
        apps: inventory_of(snapshot, manager.handles),
        handles: manager.handles.restrict(live_windows(snapshot)),
        icons: manager.icons.restrict(live_processes(snapshot)),
    }
}

/// What is left to do after a refresh from `snapshot` has made `manager`.
pub open spec fn pending_of(manager: ManagerView, snapshot: Snapshot) -> PendingView {
    PendingView {
        unresolved: groups_of(lacking(roster_of(snapshot), manager.handles)),
        iconless: iconless(snapshot.apps@, manager.icons.dom()),
    }
}

/// Whether window `id` of process `pid` is published without a handle.
pub open spec fn awaits(manager: ManagerView, pid: i32, id: u32) -> bool {
    manager.apps.contains_key(pid) && exists|j: int|
        0 <= j < manager.apps[pid].windows.len() && (#[trigger] manager.apps[pid].windows[j]).id
            == id && manager.apps[pid].windows[j].handle is None
}

/// `windows` with `handle` given to the windows of id `id` that had none.
pub open spec fn with_handle(windows: Seq<WindowView>, id: u32, handle: Handle) -> Seq<
    WindowView,
> {
    Seq::new(
        windows.len(),
        |j: int|
            if windows[j].id == id && windows[j].handle is None {
                WindowView { handle: Some(handle), ..windows[j] }
            } else {
                windows[j]
            },
    )
}

/// The manager after `handle` was attached to window `id` of process `pid`:
/// the window and the handle cache both hold it. Nothing changes where the
/// window does not await a handle.
pub open spec fn attached(manager: ManagerView, pid: i32, id: u32, handle: Handle) -> ManagerView {
    if awaits(manager, pid, id) {
        ManagerView {
            apps: manager.apps.insert(
                pid,
                AppView {
                    windows: with_handle(manager.apps[pid].windows, id, handle),
                    ..manager.apps[pid]
                },
            ),
            handles: manager.handles.insert(id, handle),
            icons: manager.icons,
        }
    } else {
        manager
    }
}

/// Whether process `pid` is published without a cached icon.
pub open spec fn wants_icon(manager: ManagerView, pid: i32) -> bool {
    manager.apps.contains_key(pid) && !manager.icons.contains_key(pid)
}

/// Gives `handle` to the windows of id `id` that have none, and tells whether
/// there was one.
fn give_handle(windows: &mut Vec<Window>, id: u32, handle: Handle) -> (given: bool)
    ensures
        window_views(final(windows)@) == with_handle(window_views(old(windows)@), id, handle),
        given <==> exists|j: int|
            0 <= j < old(windows)@.len() && (#[trigger] window_views(old(windows)@)[j]).id == id
                && window_views(old(windows)@)[j].handle is None,
{
    let mut given = false;
    let mut j: usize = 0;
    let ghost before = window_views(windows@);
    while j < windows.len()
        invariant
            j <= windows.len(),
            windows@.len() == before.len(),
            forall|i: int|
                0 <= i < j ==> window_views(windows@)[i] == with_handle(before, id, handle)[i],
            forall|i: int| j <= i < windows@.len() ==> window_views(windows@)[i] == before[i],
            given <==> exists|i: int|
                0 <= i < j && (#[trigger] before[i]).id == id && before[i].handle is None,
        decreases windows.len() - j,
    {
        let ghost seen = exists|i: int|
            0 <= i < j && (#[trigger] before[i]).id == id && before[i].handle is None;
        assert(window_views(windows@)[j as int] == before[j as int]);
        if windows[j].id == id && windows[j].handle.is_none() {
            windows[j].handle = Some(handle);
            given = true;
            assert(before[j as int].id == id && before[j as int].handle is None);
        } else {
            proof {
                if exists|i: int|
                    0 <= i < j + 1 && (#[trigger] before[i]).id == id && before[i].handle is None {
                    let i = choose|i: int|
                        0 <= i < j + 1 && (#[trigger] before[i]).id == id
                            && before[i].handle is None;
                    assert(i < j);
                    assert(seen);
                }
            }
        }
        j = j + 1;
    }
    assert(window_views(windows@) =~= with_handle(before, id, handle));
    given
}

/// The handles of a cache that belong to the windows of a roster.
fn retain_handles(cache: &HashMap<u32, Handle>, roster: &Vec<(i32, u32)>) -> (out: HashMap<
    u32,
    Handle,
>)
    ensures
        out@ == cache@.restrict(ids_before(roster@, roster@.len() as int)),
{
    broadcast use vstd::std_specs::hash::group_hash_axioms;

    let mut out: HashMap<u32, Handle> = HashMap::new();
    let mut k: usize = 0;
    assert(out@ =~= cache@.restrict(ids_before(roster@, 0)));
    while k < roster.len()
        invariant
            k <= roster.len(),
            out@ == cache@.restrict(ids_before(roster@, k as int)),
        decreases roster.len() - k,
    {
        let id = roster[k].1;
        proof {
            assert forall|w: u32|
                ids_before(roster@, k + 1).contains(w) <==> (ids_before(roster@, k as int).contains(
                    w,
                ) || w == id) by {
                if ids_before(roster@, k + 1).contains(w) {
                    let i = choose|i: int| 0 <= i < k + 1 && (#[trigger] roster@[i]).1 == w;
                    if i < k {
                        assert(ids_before(roster@, k as int).contains(w));
                    }
                }
                if ids_before(roster@, k as int).contains(w) {
                    let i = choose|i: int| 0 <= i < k && (#[trigger] roster@[i]).1 == w;
                    assert(0 <= i < k + 1 && roster@[i].1 == w);
                }
                if w == id {
                    assert(roster@[k as int].1 == w);
                }
            }
        }
        match cache.get(&id) {
            Some(handle) => {
                out.insert(id, *handle);
            },
            None => {},
        }
        assert(out@ =~= cache@.restrict(ids_before(roster@, k + 1)));
        k = k + 1;
    }
    out
}

/// Moves the icons of the kept applications out of a cache; what stays behind
/// belongs to processes that are gone.
fn retain_icons(cache: &mut HashMap<i32, IconData>, reports: &Vec<AppReport>) -> (out: HashMap<
    i32,
    IconData,
>)
    ensures
        icon_views(out@) == icon_views(old(cache)@).restrict(names_of(reports@).dom()),
{
    broadcast use vstd::std_specs::hash::group_hash_axioms;

    let mut out: HashMap<i32, IconData> = HashMap::new();
    let mut k: usize = 0;
    assert(icon_views(out@) =~= icon_views(cache@).restrict(names_before(reports@, 0).dom()));
    while k < reports.len()
        invariant
            k <= reports.len(),
            out@ == old(cache)@.restrict(names_before(reports@, k as int).dom()),
            cache@ == old(cache)@.remove_keys(names_before(reports@, k as int).dom()),
        decreases reports.len() - k,
    {
        let report = &reports[k];
        if report.regular && !report.terminated {
            match cache.remove(&report.pid) {
                Some(icon) => {
                    out.insert(report.pid, icon);
                },
                None => {},
            }
        }
        assert(out@ =~= old(cache)@.restrict(names_before(reports@, k + 1).dom()));
        assert(cache@ =~= old(cache)@.remove_keys(names_before(reports@, k + 1).dom()));
        k = k + 1;
    }
    assert(icon_views(out@) =~= icon_views(old(cache)@).restrict(names_of(reports@).dom()));
    out
}

/// The manager that has seen no snapshot yet: nothing published, nothing
/// cached.
pub open spec fn vacant() -> ManagerView {
    ManagerView { apps: Map::empty(), handles: Map::empty(), icons: Map::empty() }
}

impl Default for Manager {
    /// The manager that has seen no snapshot yet.
    fn default() -> (manager: Self)
        ensures
            manager@ == vacant(),
            coherent(manager@),
    {
        let manager = Manager {
            app_map: HashMap::new(),
            ax_cache: HashMap::new(),
            icon_cache: HashMap::new(),
        };
        assert(manager@.apps =~= Map::<i32, AppView>::empty());
        assert(manager@.icons =~= Map::<i32, IconView>::empty());
        manager
    }
}

impl Manager {
    /// The manager refreshed from a first snapshot, with what is left to do.
    /// From an unusable snapshot there is no manager: the call fails with
    /// `QueryFailure`, exactly then.
    pub fn new(snapshot: &Snapshot) -> (out: Result<(Manager, Pending), Error>)
        requires
            countable(displays_of(*snapshot)),
        ensures
            unusable(*snapshot) <==> out is Err,
            out matches Err(e) ==> e == Error::QueryFailure,
            out matches Ok(made) ==> made.0@ == refreshed(vacant(), *snapshot) && made.1@
                == pending_of(made.0@, *snapshot) && coherent(made.0@),
    {
        let mut manager = Manager::default();
        match manager.refresh(snapshot) {
            Ok(pending) => Ok((manager, pending)),
            Err(e) => Err(e),
        }
    }

    /// Rebuilds the inventory from a snapshot and says what is left to do.
    ///
    /// From an unusable snapshot it fails with `QueryFailure` and changes
    /// nothing. Otherwise it publishes the snapshot's inventory, each window
    /// with its cached handle if it has one, and drops from both caches the
    /// entries of windows and processes that are no longer live.
    pub fn refresh(&mut self, snapshot: &Snapshot) -> (out: Result<Pending, Error>)
        requires
            countable(displays_of(*snapshot)),
        ensures
            unusable(*snapshot) <==> out is Err,
            out matches Err(e) ==> e == Error::QueryFailure && final(self)@ == old(self)@,
            out matches Ok(pending) ==> final(self)@ == refreshed(old(self)@, *snapshot)
                && pending@ == pending_of(final(self)@, *snapshot) && coherent(final(self)@),
    {
        proof {
            lemma_refresh_is_coherent(self@, *snapshot);
        }
        let (apps, roster) = match take_inventory(snapshot, &self.ax_cache) {
            Ok(listing) => listing,
            Err(e) => {
                return Err(e);
            },
        };
        let handles = retain_handles(&self.ax_cache, &roster);
        let icons = retain_icons(&mut self.icon_cache, &snapshot.apps);
        let unresolved = group_by_pid(&unresolved_entries(&roster, &handles));
        let iconless = iconless_apps(&snapshot.apps, &icons);
        assert(icon_views(icons@).dom() =~= icons@.dom());
        self.app_map = apps;
        self.ax_cache = handles;
        self.icon_cache = icons;
        Ok(Pending { unresolved, iconless })
    }

    /// Attaches a control handle that the resolver found to window `id` of
    /// process `pid`, and caches it. Does so, and returns `true`, exactly when
    /// that window is published without a handle.
    pub fn attach(&mut self, pid: i32, id: u32, handle: Handle) -> (done: bool)
        ensures
            done == awaits(old(self)@, pid, id),
            final(self)@ == attached(old(self)@, pid, id, handle),
            coherent(old(self)@) ==> coherent(final(self)@),
    {
        proof {
            if coherent(self@) {
                lemma_attach_keeps_coherent(self@, pid, id, handle);
            }
        }
        broadcast use vstd::std_specs::hash::group_hash_axioms;

        let ghost apps_before = self.app_map@;
        let mut app = match self.app_map.remove(&pid) {
            Some(app) => app,
            None => {
                assert(app_views(self.app_map@) =~= app_views(apps_before));
                return false;
            },
        };
        let ghost owner_before = app;
        let done = give_handle(&mut app.windows, id, handle);
        let ghost owner_after = app;
        self.app_map.insert(pid, app);
        proof {
            assert(app_views(apps_before)[pid] == owner_before@);
            lemma_app_views_insert(apps_before.remove(pid), pid, owner_after);
            if !done {
                assert(owner_after@.windows =~= owner_before@.windows);
            }
            assert(app_views(self.app_map@) =~= app_views(apps_before).insert(
                pid,
                owner_after@,
            ));
        }
        if done {
            self.ax_cache.insert(id, handle);
        } else {
            assert(app_views(self.app_map@) =~= app_views(apps_before));
        }
        done
    }

    /// Caches the icon of process `pid`. Does so, and returns `true`, exactly
    /// when the process is published and has no cached icon: an icon is
    /// fetched once for as long as its process lives.
    pub fn store_icon(&mut self, pid: i32, icon: IconData) -> (done: bool)
        ensures
            done == wants_icon(old(self)@, pid),
            final(self)@ == if done {
                ManagerView { icons: old(self)@.icons.insert(pid, icon@), ..old(self)@ }
            } else {
                old(self)@
            },
            coherent(old(self)@) ==> coherent(final(self)@),
    {
        proof {
            if coherent(self@) && wants_icon(self@, pid) {
                lemma_store_keeps_coherent(self@, pid, icon@);
            }
        }
        broadcast use vstd::std_specs::hash::group_hash_axioms;

        assert(app_views(self.app_map@).contains_key(pid) <==> self.app_map@.contains_key(pid));
        assert(icon_views(self.icon_cache@).contains_key(pid) <==> self.icon_cache@.contains_key(
            pid,
        ));
        if self.app_map.contains_key(&pid) && !self.icon_cache.contains_key(&pid) {
            let ghost before = self.icon_cache@;
            let ghost stored = icon;
            self.icon_cache.insert(pid, icon);
            assert(icon_views(self.icon_cache@) =~= icon_views(before).insert(pid, stored@));
            true
        } else {
            false
        }
    }

    /// The published inventory, by process id.
    pub fn app_map(&self) -> (apps: &HashMap<i32, App>)
        ensures
            app_views(apps@) == self@.apps,
    {
        &self.app_map
    }

    /// The cached icon of a process, if there is one.
    pub fn get_icon(&self, pid: i32) -> (icon: Option<&IconData>)
        ensures
            icon is Some <==> self@.icons.contains_key(pid),
            icon matches Some(data) ==> data@ == self@.icons[pid],
    {
        broadcast use vstd::std_specs::hash::group_hash_axioms;

        self.icon_cache.get(&pid)
    }
}

/// Whether the published inventory has a window at position `i` of process
/// `pid`.
pub open spec fn holds(manager: ManagerView, pid: i32, i: int) -> bool {
    manager.apps.contains_key(pid) && 0 <= i < manager.apps[pid].windows.len()
}

/// Whether a manager's caches fit its published inventory: every cached
/// handle belongs to a published window and every cached icon to a published
/// application; every published window carries exactly the handle that the
/// cache holds for it; and no two published windows bear the same id.
pub open spec fn coherent(manager: ManagerView) -> bool {
    &&& forall|id: u32| #[trigger]
        manager.handles.contains_key(id) ==> exists|pid: i32, i: int|
            holds(manager, pid, i) && (#[trigger] manager.apps[pid].windows[i]).id == id
    &&& forall|pid: i32| #[trigger]
        manager.icons.contains_key(pid) ==> manager.apps.contains_key(pid)
    &&& forall|pid: i32, i: int|
        holds(manager, pid, i) ==> (#[trigger] manager.apps[pid].windows[i]).handle == cached(
            manager.handles,
            manager.apps[pid].windows[i].id,
        )
    &&& forall|p: i32, i: int, q: i32, j: int|
        holds(manager, p, i) && holds(manager, q, j) && (#[trigger] manager.apps[p].windows[i]).id
            == (#[trigger] manager.apps[q].windows[j]).id ==> p == q && i == j
}

/// A window id is live exactly when a listed window entry bears it.
pub proof fn lemma_live_windows_are_listed(snapshot: Snapshot, id: u32)
    ensures
        live_windows(snapshot).contains(id) <==> exists|j: int|
            0 <= j < entries_of(snapshot).len() && listed_at(
                names_of(snapshot.apps@),
                catalog_of(displays_of(snapshot)),
                entries_of(snapshot),
                j,
            ) && (#[trigger] entries_of(snapshot)[j]).id == id,
{
    let names = names_of(snapshot.apps@);
    let catalog = catalog_of(displays_of(snapshot));
    let entries = entries_of(snapshot);
    let n = entries.len() as int;
    let roster = roster_of(snapshot);
    if live_windows(snapshot).contains(id) {
        let i = choose|i: int| 0 <= i < roster.len() && (#[trigger] roster[i]).1 == id;
        let j = lemma_roster_has_entry(names, catalog, entries, n, i);
        assert(listed_at(names, catalog, entries, j) && entries[j].id == id);
    }
    if exists|j: int|
        0 <= j < n && listed_at(names, catalog, entries, j) && (#[trigger] entries[j]).id == id {
        let j = choose|j: int|
            0 <= j < n && listed_at(names, catalog, entries, j) && (#[trigger] entries[j]).id
                == id;
        let i = lemma_entry_on_roster(names, catalog, entries, n, j);
        assert(roster[i].1 == id);
    }
}

/// A refresh attaches to each window the handle it finds in the cache, and
/// the entries it evicts belong to no listed window: the inventory is the
/// same with the cache before and after eviction.
pub proof fn lemma_eviction_spares_listed(manager: ManagerView, snapshot: Snapshot)
    ensures
        inventory_of(snapshot, manager.handles.restrict(live_windows(snapshot))) == inventory_of(
            snapshot,
            manager.handles,
        ),
{
    let names = names_of(snapshot.apps@);
    let catalog = catalog_of(displays_of(snapshot));
    let entries = entries_of(snapshot);
    let n = entries.len() as int;
    let kept_handles = manager.handles.restrict(live_windows(snapshot));
    assert forall|j: int| 0 <= j < n && listed_at(names, catalog, entries, j) implies cached(
        kept_handles,
        (#[trigger] entries[j]).id,
    ) == cached(manager.handles, entries[j].id) by {
        lemma_live_windows_are_listed(snapshot, entries[j].id);
    }
    assert forall|pid: i32| names.contains_key(pid) implies #[trigger] inventory_of(
        snapshot,
        kept_handles,
    )[pid] == inventory_of(snapshot, manager.handles)[pid] by {
        lemma_windows_agree(pid, names, catalog, kept_handles, manager.handles, entries, n);
    }
    assert(inventory_of(snapshot, kept_handles) =~= inventory_of(snapshot, manager.handles));
}

/// Refreshing twice from the same snapshot is refreshing once: the second
/// refresh publishes the same inventory and leaves both caches as they are.
pub proof fn lemma_refresh_is_idempotent(manager: ManagerView, snapshot: Snapshot)
    ensures
        refreshed(refreshed(manager, snapshot), snapshot) == refreshed(manager, snapshot),
{
    let once = refreshed(manager, snapshot);
    let twice = refreshed(once, snapshot);
    lemma_eviction_spares_listed(manager, snapshot);
    assert(twice.handles =~= once.handles);
    assert(twice.icons =~= once.icons);
}

/// After a refresh the caches fit the published inventory. In particular the
/// handle cache holds no entry for a window that is not live, and the icon
/// cache none for a process that is not live.
pub proof fn lemma_refresh_is_coherent(manager: ManagerView, snapshot: Snapshot)
    ensures
        refreshed(manager, snapshot).handles.dom().subset_of(live_windows(snapshot)),
        refreshed(manager, snapshot).icons.dom().subset_of(live_processes(snapshot)),
        refreshed(manager, snapshot).apps.dom() == live_processes(snapshot),
        coherent(refreshed(manager, snapshot)),
{
    let names = names_of(snapshot.apps@);
    let catalog = catalog_of(displays_of(snapshot));
    let entries = entries_of(snapshot);
    let n = entries.len() as int;
    let after = refreshed(manager, snapshot);
    assert(after.apps.dom() =~= live_processes(snapshot));
    assert forall|id: u32| #[trigger] after.handles.contains_key(id) implies exists|
        pid: i32,
        i: int,
    |
        holds(after, pid, i) && (#[trigger] after.apps[pid].windows[i]).id == id by {
        lemma_live_windows_are_listed(snapshot, id);
        let j = choose|j: int|
            0 <= j < n && listed_at(names, catalog, entries, j) && (#[trigger] entries[j]).id
                == id;
        let i = lemma_entry_has_window(names, catalog, manager.handles, entries, n, j);
        assert(holds(after, entries[j].pid, i) && after.apps[entries[j].pid].windows[i].id == id);
    }
    assert forall|pid: i32, i: int| holds(after, pid, i) implies (
    #[trigger] after.apps[pid].windows[i]).handle == cached(
        after.handles,
        after.apps[pid].windows[i].id,
    ) by {
        let j = lemma_window_has_entry(pid, names, catalog, manager.handles, entries, n, i);
        lemma_live_windows_are_listed(snapshot, entries[j].id);
    }
    assert forall|p: i32, i: int, q: i32, k: int|
        holds(after, p, i) && holds(after, q, k) && (#[trigger] after.apps[p].windows[i]).id == (
        #[trigger] after.apps[q].windows[k]).id implies p == q && i == k by {
        let a = lemma_window_has_entry(p, names, catalog, manager.handles, entries, n, i);
        let b = lemma_window_has_entry(q, names, catalog, manager.handles, entries, n, k);
        if a < b {
            lemma_listed_ids_distinct(names, catalog, entries, a, b);
        } else if b < a {
            lemma_listed_ids_distinct(names, catalog, entries, b, a);
        }
        if i < k {
            lemma_window_ids_distinct(p, names, catalog, manager.handles, entries, n, i, k);
        } else if k < i {
            lemma_window_ids_distinct(p, names, catalog, manager.handles, entries, n, k, i);
        }
    }
}

/// The windows and applications that a refresh publishes depend on the
/// snapshot alone: whatever the caches held, two refreshes from the same
/// snapshot publish the same applications under the same names, each with
/// windows of the same ids, titles, bounds and spaces in the same order.
pub proof fn lemma_inventory_follows_snapshot(
    first: ManagerView,
    second: ManagerView,
    snapshot: Snapshot,
    pid: i32,
    i: int,
)
    requires
        refreshed(first, snapshot).apps.contains_key(pid),
        0 <= i < refreshed(first, snapshot).apps[pid].windows.len(),
    ensures
        refreshed(first, snapshot).apps.dom() == refreshed(second, snapshot).apps.dom(),
        refreshed(first, snapshot).apps[pid].name == refreshed(second, snapshot).apps[pid].name,
        refreshed(first, snapshot).apps[pid].windows.len() == refreshed(
            second,
            snapshot,
        ).apps[pid].windows.len(),
        refreshed(first, snapshot).apps[pid].windows[i] == (WindowView {
            handle: refreshed(first, snapshot).apps[pid].windows[i].handle,
            ..refreshed(second, snapshot).apps[pid].windows[i]
        }),
{
    let names = names_of(snapshot.apps@);
    let catalog = catalog_of(displays_of(snapshot));
    let entries = entries_of(snapshot);
    assert(refreshed(first, snapshot).apps.dom() =~= refreshed(second, snapshot).apps.dom());
    lemma_windows_differ_in_handles(
        pid,
        names,
        catalog,
        first.handles,
        second.handles,
        entries,
        entries.len() as int,
    );
}

/// With two handle caches an application gets the same windows but for their
/// handles.
proof fn lemma_windows_differ_in_handles(
    pid: i32,
    names: Map<i32, Seq<char>>,
    catalog: Map<u32, SpaceView>,
    first: Map<u32, Handle>,
    second: Map<u32, Handle>,
    windows: Seq<WindowReport>,
    n: int,
)
    requires
        0 <= n <= windows.len(),
    ensures
        windows_before(pid, names, catalog, first, windows, n).len() == windows_before(
            pid,
            names,
            catalog,
            second,
            windows,
            n,
        ).len(),
        forall|i: int|
            0 <= i < windows_before(pid, names, catalog, first, windows, n).len()
                ==> #[trigger] windows_before(pid, names, catalog, first, windows, n)[i]
                == (WindowView {
                handle: windows_before(pid, names, catalog, first, windows, n)[i].handle,
                ..windows_before(pid, names, catalog, second, windows, n)[i]
            }),
    decreases n,
{
    if n > 0 {
        lemma_windows_differ_in_handles(pid, names, catalog, first, second, windows, n - 1);
    }
}

/// Attaching a handle keeps the caches fitting the published inventory.
pub proof fn lemma_attach_keeps_coherent(manager: ManagerView, pid: i32, id: u32, handle: Handle)
    requires
        coherent(manager),
    ensures
        coherent(attached(manager, pid, id, handle)),
{
    let after = attached(manager, pid, id, handle);
    if awaits(manager, pid, id) {
        let w = choose|w: int|
            0 <= w < manager.apps[pid].windows.len() && (#[trigger] manager.apps[pid].windows[w]).id
                == id && manager.apps[pid].windows[w].handle is None;
        assert(holds(manager, pid, w));
        assert forall|q: i32, k: int| holds(after, q, k) implies holds(manager, q, k) && (
        #[trigger] after.apps[q].windows[k]).id == manager.apps[q].windows[k].id by {}
        assert forall|key: u32| #[trigger] after.handles.contains_key(key) implies exists|
            q: i32,
            k: int,
        |
            holds(after, q, k) && (#[trigger] after.apps[q].windows[k]).id == key by {
            if key == id {
                assert(holds(after, pid, w) && after.apps[pid].windows[w].id == key);
            } else {
                let (q, k) = choose|q: i32, k: int|
                    holds(manager, q, k) && (#[trigger] manager.apps[q].windows[k]).id == key;
                assert(holds(after, q, k) && after.apps[q].windows[k].id == key);
            }
        }
        assert forall|q: i32, k: int| holds(after, q, k) implies (
        #[trigger] after.apps[q].windows[k]).handle == cached(
            after.handles,
            after.apps[q].windows[k].id,
        ) by {
            assert(holds(manager, q, k));
            let before = manager.apps[q].windows[k];
            assert(before.handle == cached(manager.handles, before.id));
            if before.id == id {
                assert(q == pid && k == w);
            }
        }
        assert forall|p: i32, i: int, q: i32, k: int|
            holds(after, p, i) && holds(after, q, k) && (#[trigger] after.apps[p].windows[i]).id
                == (#[trigger] after.apps[q].windows[k]).id implies p == q && i == k by {
            assert(holds(manager, p, i) && holds(manager, q, k));
            assert(manager.apps[p].windows[i].id == manager.apps[q].windows[k].id);
        }
    }
}

/// Caching an icon keeps the caches fitting the published inventory.
pub proof fn lemma_store_keeps_coherent(manager: ManagerView, pid: i32, icon: IconView)
    requires
        coherent(manager),
        wants_icon(manager, pid),
    ensures
        coherent(ManagerView { icons: manager.icons.insert(pid, icon), ..manager }),
{
    let after = ManagerView { icons: manager.icons.insert(pid, icon), ..manager };
    assert forall|q: i32, k: int| holds(after, q, k) implies holds(manager, q, k) by {}
    assert forall|key: u32| #[trigger] after.handles.contains_key(key) implies exists|
        q: i32,
        k: int,
    |
        holds(after, q, k) && (#[trigger] after.apps[q].windows[k]).id == key by {
        let (q, k) = choose|q: i32, k: int|
            holds(manager, q, k) && (#[trigger] manager.apps[q].windows[k]).id == key;
        assert(holds(after, q, k) && after.apps[q].windows[k].id == key);
    }
}

} // verus!
