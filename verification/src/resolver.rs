//! The handle resolver: a bounded scan of a process's candidate control
//! objects for the ones that belong to the windows still lacking a handle.
//!
//! The scan itself is the caller's: it asks `next_probe` for the candidate to
//! create, creates it from `probe_token`, and hands what the object said of
//! itself to `record`.

use std::collections::HashSet;
use vstd::prelude::*;
use crate::types::Handle;

verus! {

/// The number of candidate indices that a scan examines at most. The bound is
/// a tunable choice, not a limit that the platform documents: a process with
/// more control objects than this may keep some windows unresolved.
pub const PROBE_LIMIT: u64 = 100;

/// What a candidate control object said of itself.
#[derive(Debug, PartialEq, Eq)]
pub struct Probe {
    /// The window that the object controls, where it named one.
    pub window: Option<u32>,
    /// The object's subrole attribute, where it has one.
    pub subrole: Option<String>,
}

/// Whether a subrole marks a standard window.
pub open spec fn accepted(subrole: Seq<char>) -> bool {
    subrole == "AXStandardWindow"@ || subrole == "AXDialog"@
}

/// Tells whether a subrole marks a standard window.
pub fn is_accepted(subrole: &String) -> (ok: bool)
    ensures
        ok == accepted(subrole@),
{
    let standard = "AXStandardWindow".to_owned();
    let dialog = "AXDialog".to_owned();
    *subrole == standard || *subrole == dialog
}

/// The window that a probe resolves among `remaining`, if any: the probe found
/// an object, the object names a window of `remaining`, and its subrole marks
/// a standard window.
pub open spec fn hit(remaining: Set<u32>, outcome: Option<Probe>) -> Option<u32> {
    match outcome {
        Some(probe) => match (probe.window, probe.subrole) {
            (Some(id), Some(subrole)) => if remaining.contains(id) && accepted(subrole@) {
                Some(id)
            } else {
                None
            },
            _ => None,
        },
        None => None,
    }
}

/// A scan in progress.
pub struct Resolver {
    pid: i32,
    remaining: HashSet<u32>,
    found: Vec<(u32, Handle)>,
    next: u64,
}

/// What a `Resolver` holds: the process, the windows not resolved yet, the
/// handles found so far in the order of discovery, and the next candidate
/// index.
pub struct ResolverView {
    pub pid: i32,
    pub remaining: Set<u32>,
    pub found: Seq<(u32, Handle)>,
    pub next: u64,
}

impl View for Resolver {
    type V = ResolverView;

    closed spec fn view(&self) -> ResolverView {
        ResolverView {
            pid: self.pid,
            remaining: self.remaining@,
            found: self.found@,
            next: self.next,
        }
    }
}

/// A scan of process `pid` for the windows `wanted`, before any probe.
pub open spec fn started(pid: i32, wanted: Set<u32>) -> ResolverView {
    ResolverView { pid, remaining: wanted, found: Seq::empty(), next: 0 }
}

/// Whether a scan goes on: a window remains and the bound is not reached.
pub open spec fn scanning(scan: ResolverView) -> bool {
    !scan.remaining.is_empty() && scan.next < PROBE_LIMIT
}

/// The scan after the outcome of its next probe. A hit moves the window from
/// the remaining ones to the found ones, with the probed index as its handle.
/// A scan that has ended takes no outcome.
pub open spec fn recorded(scan: ResolverView, outcome: Option<Probe>) -> ResolverView {
    if !scanning(scan) {
        scan
    } else {
        match hit(scan.remaining, outcome) {
            Some(id) => ResolverView {
                pid: scan.pid,
                remaining: scan.remaining.remove(id),
                found: scan.found.push((id, Handle { pid: scan.pid, index: scan.next })),
                next: (scan.next + 1) as u64,
            },
            None => ResolverView { next: (scan.next + 1) as u64, ..scan },
        }
    }
}

/// The scan after the first `n` of a sequence of outcomes.
pub open spec fn scanned(scan: ResolverView, outcomes: Seq<Option<Probe>>, n: int) -> ResolverView
    decreases n,
{
    if n <= 0 {
        scan
    } else {
        recorded(scanned(scan, outcomes, n - 1), outcomes[n - 1])
    }
}

impl Resolver {
    /// Starts a scan of process `pid` for the windows `wanted`.
    pub fn new(pid: i32, wanted: &Vec<u32>) -> (scan: Self)
        ensures
            scan@ == started(pid, wanted@.to_set()),
    {
        broadcast use vstd::std_specs::hash::group_hash_axioms;

        let mut remaining: HashSet<u32> = HashSet::new();
        let mut k: usize = 0;
        assert(remaining@ =~= wanted@.take(0).to_set());
        while k < wanted.len()
            invariant
                k <= wanted.len(),
                remaining@ == wanted@.take(k as int).to_set(),
            decreases wanted.len() - k,
        {
            remaining.insert(wanted[k]);
            proof {
                let shorter = wanted@.take(k as int);
                let longer = wanted@.take(k + 1);
                assert(longer =~= shorter.push(wanted@[k as int]));
                assert forall|w: u32| longer.contains(w) <==> (shorter.contains(w) || w
                    == wanted@[k as int]) by {
                    if shorter.contains(w) {
                        let i = choose|i: int| 0 <= i < shorter.len() && shorter[i] == w;
                        assert(longer[i] == w);
                    }
                    if w == wanted@[k as int] {
                        assert(longer[k as int] == w);
                    }
                }
                assert(remaining@ =~= longer.to_set());
            }
            k = k + 1;
        }
        assert(wanted@.take(wanted.len() as int) =~= wanted@);
        Resolver { pid, remaining, found: Vec::new(), next: 0 }
    }

    /// The candidate index to probe next, or `None` once the scan has ended:
    /// every window is resolved, or `PROBE_LIMIT` candidates were examined.
    pub fn next_probe(&self) -> (index: Option<u64>)
        ensures
            index is Some <==> scanning(self@),
            index matches Some(i) ==> i == self@.next,
    {
        if !self.remaining.is_empty() && self.next < PROBE_LIMIT {
            Some(self.next)
        } else {
            None
        }
    }

    /// Takes the outcome of the probe that `next_probe` asked for: `None`
    /// where no object came back, else what the object said of itself.
    pub fn record(&mut self, outcome: Option<Probe>)
        ensures
            final(self)@ == recorded(old(self)@, outcome),
    {
        broadcast use vstd::std_specs::hash::group_hash_axioms;

        if self.remaining.is_empty() || self.next >= PROBE_LIMIT {
            return ;
        }
        let index = self.next;
        self.next = self.next + 1;
        match &outcome {
            Some(probe) => match (&probe.window, &probe.subrole) {
                (Some(id), Some(subrole)) => {
                    if self.remaining.contains(id) && is_accepted(subrole) {
                        self.remaining.remove(id);
                        self.found.push((*id, Handle { pid: self.pid, index }));
                    }
                },
                _ => {},
            },
            None => {},
        }
    }

    /// The process that is scanned.
    pub fn pid(&self) -> (pid: i32)
        ensures
            pid == self@.pid,
    {
        self.pid
    }

    /// Ends the scan and hands out the handles found, in the order of
    /// discovery. A window that is not among them stays without a handle until
    /// a later refresh resolves it.
    pub fn finish(self) -> (found: Vec<(u32, Handle)>)
        ensures
            found@ == self@.found,
    {
        self.found
    }
}

/// Whether the outcome of a probe names window `id` with a subrole that marks
/// a standard window.
pub open spec fn names(outcome: Option<Probe>, id: u32) -> bool {
    outcome matches Some(probe) && probe.window == Some(id) && probe.subrole is Some && accepted(
        probe.subrole.unwrap()@,
    )
}

/// What holds of a scan for the windows `wanted` after `n` outcomes: it has
/// examined at most `n` candidates and at most `PROBE_LIMIT`; every window
/// wanted is either still remaining or found, never both; the windows found
/// are distinct; and the handle of each is a candidate of the scanned process
/// that was examined and named that window.
pub open spec fn sound(
    scan: ResolverView,
    wanted: Set<u32>,
    outcomes: Seq<Option<Probe>>,
    n: int,
) -> bool {
    &&& scan.next <= PROBE_LIMIT
    &&& scan.next <= n
    &&& scanning(scan) ==> scan.next == n
    &&& scan.found.len() <= scan.next
    &&& scan.remaining.subset_of(wanted)
    &&& forall|i: int|
        0 <= i < scan.found.len() ==> {
            let entry = #[trigger] scan.found[i];
            &&& wanted.contains(entry.0)
            &&& !scan.remaining.contains(entry.0)
            &&& entry.1.pid == scan.pid
            &&& entry.1.index < scan.next
            &&& names(outcomes[entry.1.index as int], entry.0)
        }
    &&& forall|i: int, j: int|
        0 <= i < j < scan.found.len() ==> (#[trigger] scan.found[i]).0 != (
        #[trigger] scan.found[j]).0
    &&& forall|id: u32|
        wanted.contains(id) && !scan.remaining.contains(id) ==> exists|i: int|
            0 <= i < scan.found.len() && (#[trigger] scan.found[i]).0 == id
}

/// One more outcome keeps a scan sound.
pub proof fn lemma_record_keeps_sound(
    scan: ResolverView,
    wanted: Set<u32>,
    outcomes: Seq<Option<Probe>>,
    n: int,
)
    requires
        0 <= n < outcomes.len(),
        sound(scan, wanted, outcomes, n),
    ensures
        sound(recorded(scan, outcomes[n]), wanted, outcomes, n + 1),
{
    let after = recorded(scan, outcomes[n]);
    if scanning(scan) {
        match hit(scan.remaining, outcomes[n]) {
            Some(id) => {
                let entry = (id, Handle { pid: scan.pid, index: scan.next });
                assert(after.found == scan.found.push(entry));
                assert forall|i: int| 0 <= i < after.found.len() implies {
                    let e = #[trigger] after.found[i];
                    &&& wanted.contains(e.0)
                    &&& !after.remaining.contains(e.0)
                    &&& e.1.pid == after.pid
                    &&& e.1.index < after.next
                    &&& names(outcomes[e.1.index as int], e.0)
                } by {
                    if i < scan.found.len() {
                        assert(after.found[i] == scan.found[i]);
                    }
                }
                assert forall|w: u32|
                    wanted.contains(w) && !after.remaining.contains(w) implies exists|i: int|
                    0 <= i < after.found.len() && (#[trigger] after.found[i]).0 == w by {
                    if w == id {
                        assert(after.found[scan.found.len() as int].0 == w);
                    } else {
                        let i = choose|i: int|
                            0 <= i < scan.found.len() && (#[trigger] scan.found[i]).0 == w;
                        assert(after.found[i].0 == w);
                    }
                }
            },
            None => {
                assert(after.found == scan.found);
            },
        }
    }
}

/// Whatever the probes return, a scan examines at most `PROBE_LIMIT`
/// candidates and resolves only windows that were asked for: each at most
/// once, each with a handle of the scanned process whose candidate named that
/// window, and none that it still counts as remaining.
pub proof fn lemma_scan_is_sound(pid: i32, wanted: Set<u32>, outcomes: Seq<Option<Probe>>, n: int)
    requires
        0 <= n <= outcomes.len(),
    ensures
        sound(scanned(started(pid, wanted), outcomes, n), wanted, outcomes, n),
    decreases n,
{
    if n > 0 {
        lemma_scan_is_sound(pid, wanted, outcomes, n - 1);
        lemma_record_keeps_sound(
            scanned(started(pid, wanted), outcomes, n - 1),
            wanted,
            outcomes,
            n - 1,
        );
    }
}

/// Once a scan has ended, further outcomes change nothing: no candidate
/// beyond the bound is ever examined.
pub proof fn lemma_ended_scan_is_final(scan: ResolverView, outcomes: Seq<Option<Probe>>, n: int)
    requires
        !scanning(scan),
    ensures
        scanned(scan, outcomes, n) == scan,
    decreases n,
{
    if n > 0 {
        lemma_ended_scan_is_final(scan, outcomes, n - 1);
    }
}

} // verus!
