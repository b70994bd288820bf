//! The work that a refresh leaves to the platform: the windows that still lack
//! a control handle, grouped by owning process, and the processes that still
//! lack an icon.

use std::collections::HashMap;
use vstd::prelude::*;
use crate::icon::IconData;
use crate::inventory::{kept, AppReport};
use crate::types::Handle;

verus! {

/// The windows of one process that lack a control handle.
#[derive(Debug, PartialEq, Eq)]
pub struct Group {
    pub pid: i32,
    pub windows: Vec<u32>,
}

/// What a `Group` is.
pub struct GroupView {
    pub pid: i32,
    pub windows: Seq<u32>,
}

impl View for Group {
    type V = GroupView;

    open spec fn view(&self) -> GroupView {
        GroupView { pid: self.pid, windows: self.windows@ }
    }
}

/// What a refresh leaves to be done before every listed window can be focused
/// and every listed application has its icon.
#[derive(Debug, PartialEq, Eq)]
pub struct Pending {
    /// The windows without a control handle, grouped by owning process.
    pub unresolved: Vec<Group>,
    /// The processes without a cached icon.
    pub iconless: Vec<i32>,
}

/// What a `Pending` is.
pub struct PendingView {
    pub unresolved: Seq<GroupView>,
    pub iconless: Seq<i32>,
}

impl View for Pending {
    type V = PendingView;

    open spec fn view(&self) -> PendingView {
        PendingView { unresolved: group_views(self.unresolved@), iconless: self.iconless@ }
    }
}

/// The views of a sequence of groups, in the same order.
pub open spec fn group_views(groups: Seq<Group>) -> Seq<GroupView> {
    Seq::new(groups.len(), |i: int| groups[i]@)
}

/// The entries among the first `n` of a roster whose window has no handle in
/// `handles`, in their order.
pub open spec fn lacking_before(roster: Seq<(i32, u32)>, handles: Map<u32, Handle>, n: int) -> Seq<
    (i32, u32),
>
    decreases n,
{
    if n <= 0 {
        Seq::empty()
    } else if handles.contains_key(roster[n - 1].1) {
        lacking_before(roster, handles, n - 1)
    } else {
        lacking_before(roster, handles, n - 1).push(roster[n - 1])
    }
}

/// The entries of a roster whose window has no handle in `handles`.
pub open spec fn lacking(roster: Seq<(i32, u32)>, handles: Map<u32, Handle>) -> Seq<(i32, u32)> {
    lacking_before(roster, handles, roster.len() as int)
}

/// The distinct owners among the first `n` entries, in the order of their
/// first entry.
pub open spec fn owners_before(entries: Seq<(i32, u32)>, n: int) -> Seq<i32>
    decreases n,
{
    if n <= 0 {
        Seq::empty()
    } else if owners_before(entries, n - 1).contains(entries[n - 1].0) {
        owners_before(entries, n - 1)
    } else {
        owners_before(entries, n - 1).push(entries[n - 1].0)
    }
}

/// The windows that process `pid` owns among the first `n` entries, in their
/// order.
pub open spec fn owned_before(entries: Seq<(i32, u32)>, pid: i32, n: int) -> Seq<u32>
    decreases n,
{
    if n <= 0 {
        Seq::empty()
    } else if entries[n - 1].0 == pid {
        owned_before(entries, pid, n - 1).push(entries[n - 1].1)
    } else {
        owned_before(entries, pid, n - 1)
    }
}

/// The first `n` entries grouped by owner: one group for each distinct owner,
/// in the order of the owners' first entries, each with all windows of its
/// owner.
pub open spec fn groups_before(entries: Seq<(i32, u32)>, n: int) -> Seq<GroupView> {
    Seq::new(
        owners_before(entries, n).len(),
        |g: int|
            GroupView {
                pid: owners_before(entries, n)[g],
                windows: owned_before(entries, owners_before(entries, n)[g], n),
            },
    )
}

/// All entries grouped by owner.
pub open spec fn groups_of(entries: Seq<(i32, u32)>) -> Seq<GroupView> {
    groups_before(entries, entries.len() as int)
}

/// No owner is named twice.
pub proof fn lemma_owners_distinct(entries: Seq<(i32, u32)>, n: int)
    ensures
        owners_before(entries, n).no_duplicates(),
    decreases n,
{
    if n > 0 {
        lemma_owners_distinct(entries, n - 1);
    }
}

/// A process that is no owner yet owns no window yet.
pub proof fn lemma_no_owner_no_window(entries: Seq<(i32, u32)>, pid: i32, n: int)
    requires
        !owners_before(entries, n).contains(pid),
    ensures
        owned_before(entries, pid, n) == Seq::<u32>::empty(),
    decreases n,
{
    if n > 0 {
        let prev = owners_before(entries, n - 1);
        if prev.contains(entries[n - 1].0) {
            lemma_no_owner_no_window(entries, pid, n - 1);
        } else {
            let next = prev.push(entries[n - 1].0);
            assert(next[prev.len() as int] == entries[n - 1].0);
            if prev.contains(pid) {
                let i = choose|i: int| 0 <= i < prev.len() && prev[i] == pid;
                assert(next[i] == pid);
            }
            lemma_no_owner_no_window(entries, pid, n - 1);
        }
    }
}

/// Every entry is in the group of its owner: its owner has a group, and that
/// group holds its window.
pub proof fn lemma_groups_cover(entries: Seq<(i32, u32)>, n: int, j: int)
    requires
        0 <= j < n <= entries.len(),
    ensures
        owners_before(entries, n).contains(entries[j].0),
        owned_before(entries, entries[j].0, n).contains(entries[j].1),
    decreases n,
{
    let prev = owners_before(entries, n - 1);
    let owned = owned_before(entries, entries[j].0, n - 1);
    if j < n - 1 {
        lemma_groups_cover(entries, n - 1, j);
        let at = choose|i: int| 0 <= i < prev.len() && prev[i] == entries[j].0;
        assert(owners_before(entries, n)[at] == entries[j].0);
        let slot = choose|i: int| 0 <= i < owned.len() && owned[i] == entries[j].1;
        assert(owned_before(entries, entries[j].0, n)[slot] == entries[j].1);
    } else {
        if prev.contains(entries[j].0) {
        } else {
            assert(owners_before(entries, n)[prev.len() as int] == entries[j].0);
        }
        assert(owned_before(entries, entries[j].0, n)[owned.len() as int] == entries[j].1);
    }
}

/// Every window of a group comes from an entry of the group's owner.
pub proof fn lemma_groups_hold_entries(entries: Seq<(i32, u32)>, pid: i32, n: int, i: int) -> (j:
    int)
    requires
        0 <= n <= entries.len(),
        0 <= i < owned_before(entries, pid, n).len(),
    ensures
        0 <= j < n,
        entries[j] == (pid, owned_before(entries, pid, n)[i]),
    decreases n,
{
    if entries[n - 1].0 == pid && i == owned_before(entries, pid, n - 1).len() {
        n - 1
    } else {
        lemma_groups_hold_entries(entries, pid, n - 1, i)
    }
}

/// The entries of a roster whose window has no handle yet.
pub fn unresolved_entries(roster: &Vec<(i32, u32)>, handles: &HashMap<u32, Handle>) -> (out: Vec<
    (i32, u32),
>)
    ensures
        out@ == lacking(roster@, handles@),
{
    broadcast use vstd::std_specs::hash::group_hash_axioms;

    let mut out: Vec<(i32, u32)> = Vec::new();
    let mut k: usize = 0;
    while k < roster.len()
        invariant
            k <= roster.len(),
            out@ == lacking_before(roster@, handles@, k as int),
        decreases roster.len() - k,
    {
        let entry = roster[k];
        if !handles.contains_key(&entry.1) {
            out.push(entry);
        }
        k = k + 1;
    }
    out
}

/// Groups window entries by their owning process.
pub fn group_by_pid(entries: &Vec<(i32, u32)>) -> (groups: Vec<Group>)
    ensures
        group_views(groups@) == groups_of(entries@),
{
    let mut groups: Vec<Group> = Vec::new();
    let mut k: usize = 0;
    assert(group_views(groups@) =~= groups_before(entries@, 0));
    while k < entries.len()
        invariant
            k <= entries.len(),
            group_views(groups@) == groups_before(entries@, k as int),
        decreases entries.len() - k,
    {
        let pid = entries[k].0;
        let id = entries[k].1;
        let ghost owners = owners_before(entries@, k as int);
        proof {
            assert(group_views(groups@).len() == groups_before(entries@, k as int).len());
            assert forall|j: int| 0 <= j < groups@.len() implies groups@[j].pid == owners[j] by {
                assert(group_views(groups@)[j] == groups_before(entries@, k as int)[j]);
            }
        }
        let mut g: usize = 0;
        while g < groups.len() && groups[g].pid != pid
            invariant
                g <= groups.len(),
                groups@.len() == owners.len(),
                forall|j: int| 0 <= j < groups@.len() ==> groups@[j].pid == owners[j],
                forall|j: int| 0 <= j < g ==> groups@[j].pid != pid,
            decreases groups.len() - g,
        {
            g = g + 1;
        }
        proof {
            lemma_owners_distinct(entries@, k as int);
        }
        if g < groups.len() {
            let ghost before = groups@;
            let mut group = groups.remove(g);
            group.windows.push(id);
            groups.insert(g, group);
            proof {
                assert(owners[g as int] == pid);
                assert(owners_before(entries@, k + 1) == owners);
                assert forall|j: int| 0 <= j < groups@.len() implies group_views(groups@)[j]
                    == groups_before(entries@, k + 1)[j] by {
                    assert(group_views(before)[j] == groups_before(entries@, k as int)[j]);
                    if j != g {
                        assert(owners[j] != owners[g as int]);
                    }
                }
                assert(group_views(groups@) =~= groups_before(entries@, k + 1));
            }
        } else {
            let ghost before = groups@;
            let mut windows: Vec<u32> = Vec::new();
            windows.push(id);
            groups.push(Group { pid, windows });
            proof {
                assert(!owners.contains(pid)) by {
                    if owners.contains(pid) {
                        let i = choose|i: int| 0 <= i < owners.len() && owners[i] == pid;
                        assert(groups@[i].pid == pid);
                    }
                }
                lemma_no_owner_no_window(entries@, pid, k as int);
                assert forall|j: int| 0 <= j < groups@.len() implies group_views(groups@)[j]
                    == groups_before(entries@, k + 1)[j] by {
                    if j < before.len() {
                        assert(group_views(before)[j] == groups_before(entries@, k as int)[j]);
                        assert(owners[j] != pid);
                    } else {
                        assert(groups@[j].windows@ =~= Seq::<u32>::empty().push(id));
                    }
                }
                assert(group_views(groups@) =~= groups_before(entries@, k + 1));
            }
        }
        k = k + 1;
    }
    groups
}

/// The kept applications among the first `n` reports that have no icon in
/// `icons`, each named once, in the order of their first report.
pub open spec fn iconless_before(reports: Seq<AppReport>, icons: Set<i32>, n: int) -> Seq<i32>
    decreases n,
{
    if n <= 0 {
        Seq::empty()
    } else if kept(reports[n - 1]) && !icons.contains(reports[n - 1].pid) && !iconless_before(
        reports,
        icons,
        n - 1,
    ).contains(reports[n - 1].pid) {
        iconless_before(reports, icons, n - 1).push(reports[n - 1].pid)
    } else {
        iconless_before(reports, icons, n - 1)
    }
}

/// The kept applications that have no icon in `icons`.
pub open spec fn iconless(reports: Seq<AppReport>, icons: Set<i32>) -> Seq<i32> {
    iconless_before(reports, icons, reports.len() as int)
}

/// The kept applications for which no icon is cached.
pub fn iconless_apps(reports: &Vec<AppReport>, icons: &HashMap<i32, IconData>) -> (out: Vec<i32>)
    ensures
        out@ == iconless(reports@, icons@.dom()),
{
    broadcast use vstd::std_specs::hash::group_hash_axioms;

    let mut out: Vec<i32> = Vec::new();
    let mut k: usize = 0;
    while k < reports.len()
        invariant
            k <= reports.len(),
            out@ == iconless_before(reports@, icons@.dom(), k as int),
        decreases reports.len() - k,
    {
        let report = &reports[k];
        if report.regular && !report.terminated && !icons.contains_key(&report.pid) {
            let mut j: usize = 0;
            while j < out.len() && out[j] != report.pid
                invariant
                    j <= out.len(),
                    forall|i: int| 0 <= i < j ==> out@[i] != report.pid,
                decreases out.len() - j,
            {
                j = j + 1;
            }
            if j == out.len() {
                out.push(report.pid);
            }
        }
        k = k + 1;
    }
    out
}

} // verus!
