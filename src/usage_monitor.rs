use crate::log_file::{archive_dir_of, join_path};
use vstd::prelude::*;

verus! {

/// Below this share of free space, in percent, archived files are reclaimed.
pub const FREE_SPACE_LOWER_PERCENT: u64 = 10;

/// Reclaiming goes on until this share of free space, in percent, is reached.
pub const FREE_SPACE_UPPER_PERCENT: u64 = 15;

/// The interval between two inspections of the archive, in seconds.
pub const MONITOR_PERIOD_SECS: u64 = 60;

/// The free and total bytes of the file system that holds the archive.
#[derive(Clone, Copy, Debug, PartialEq, Eq, Structural)]
pub struct SpaceData {
    pub available: u64,
    pub total: u64,
}

/// How many bytes to reclaim: none while the free share exceeds the lower threshold,
/// else what lacks to reach the upper threshold, rounded down to a whole byte.
pub open spec fn spec_bytes_to_gc(s: SpaceData) -> Option<nat> {
    if s.available * 100 > s.total * FREE_SPACE_LOWER_PERCENT {
        None
    } else {
        Some((s.total * FREE_SPACE_UPPER_PERCENT / 100 - s.available) as nat)
    }
}

impl SpaceData {
    /// The space of a file system that reports its blocks: the free blocks available
    /// to unprivileged users and all blocks, each of `fragment_size` bytes; `None`
    /// when a product does not fit in 64 bits.
    pub fn from_blocks(blocks_available: u64, blocks: u64, fragment_size: u64) -> (r: Option<
        SpaceData,
    >)
        ensures
            r is Some <==> blocks_available * fragment_size <= u64::MAX && blocks * fragment_size
                <= u64::MAX,
            r matches Some(s) ==> s.available == blocks_available * fragment_size && s.total
                == blocks * fragment_size,
    {
        let available = blocks_available.checked_mul(fragment_size);
        let total = blocks.checked_mul(fragment_size);
        match (available, total) {
            (Some(available), Some(total)) => Some(SpaceData { available, total }),
            _ => None,
        }
    }

    /// How many bytes to reclaim, if any.
    pub fn bytes_to_gc(&self) -> (r: Option<u64>)
        ensures
            r matches Some(n) ==> spec_bytes_to_gc(*self) == Some(n as nat),
            r is None ==> spec_bytes_to_gc(*self) is None,
    {
        let available = self.available as u128;
        let total = self.total as u128;
        if available * 100 > total * (FREE_SPACE_LOWER_PERCENT as u128) {
            return None;
        }
        let desired = total * (FREE_SPACE_UPPER_PERCENT as u128) / 100;
        assert(desired >= available) by (nonlinear_arith)
            requires
                desired == total * 15 / 100,
                available * 100 <= total * 10,
        ;
        assert(desired <= total) by (nonlinear_arith)
            requires
                desired == total * 15 / 100,
                total >= 0,
        ;
        Some((desired - available) as u64)
    }
}

/// What the monitor knows of an archived file: its size and, when readable, its
/// modification time in milliseconds since the Unix epoch.
#[derive(Clone, Copy, Debug, PartialEq, Eq, Structural)]
pub struct EntryMetadata {
    pub len: u64,
    pub modified: Option<u64>,
}

/// The age by which an entry is ordered: its modification time, or `now` when that
/// cannot be read.
pub open spec fn age_key(m: EntryMetadata, now: u64) -> u64 {
    match m.modified {
        Some(t) => t,
        None => now,
    }
}

/// The logical state of a sweep over the archive.
pub struct SweepState {
    /// The archive's entries; those whose metadata could not be read are never
    /// deleted.
    pub entries: Seq<Option<EntryMetadata>>,
    /// The entries whose deletion was attempted.
    pub tried: Seq<bool>,
    /// The bytes to reclaim.
    pub target: nat,
    /// The bytes of the deletions that succeeded.
    pub freed: nat,
    /// The time that stands in for an unreadable modification time.
    pub now: u64,
}

impl SweepState {
    /// Whether entry `i` may still be deleted.
    pub open spec fn eligible(self, i: int) -> bool {
        &&& 0 <= i < self.entries.len()
        &&& self.entries[i] is Some
        &&& !self.tried[i]
    }

    /// Whether entry `i` comes no later than entry `j`: older first, and between equal
    /// times the earlier entry first.
    pub open spec fn precedes(self, i: int, j: int) -> bool {
        let ki = age_key(self.entries[i]->Some_0, self.now);
        let kj = age_key(self.entries[j]->Some_0, self.now);
        ki < kj || (ki == kj && i <= j)
    }

    /// Whether the sweep is over: enough was freed, or nothing is left to try.
    pub open spec fn done(self) -> bool {
        self.freed >= self.target || forall|i: int| !#[trigger] self.eligible(i)
    }
}

impl SweepState {
    /// Whether entry `i` is the one to delete next: eligible and no younger than any
    /// other eligible entry.
    pub open spec fn is_oldest(self, i: int) -> bool {
        &&& self.eligible(i)
        &&& forall|j: int| #[trigger] self.eligible(j) ==> self.precedes(i, j)
    }

    /// The state after entry `i` was deleted.
    pub open spec fn after_deletion(self, i: int) -> SweepState {
        SweepState {
            tried: self.tried.update(i, true),
            freed: self.freed + self.entries[i]->Some_0.len as nat,
            ..self
        }
    }

    /// Whether every entry attempted so far comes before every entry still eligible.
    pub open spec fn in_age_order(self) -> bool {
        forall|i: int, j: int|
            0 <= i < self.tried.len() && #[trigger] self.tried[i] && #[trigger] self.eligible(j)
                ==> self.precedes(i, j)
    }
}

/// A whole sweep in which every deletion succeeds, each step deleting the entry that
/// `next` picks while the sweep is not over, until it is over: the deleted entries are
/// the oldest ones, the sweep ends with the target reached or nothing left, and the
/// last deletion was made while less than the target had been freed.
pub proof fn lemma_full_sweep(states: Seq<SweepState>, picks: Seq<int>)
    requires
        states.len() == picks.len() + 1,
        states[0].tried.len() == states[0].entries.len(),
        forall|i: int| 0 <= i < states[0].tried.len() ==> !#[trigger] states[0].tried[i],
        forall|k: int|
            0 <= k < picks.len() ==> {
                &&& !#[trigger] states[k].done()
                &&& states[k].is_oldest(picks[k])
                &&& states[k + 1] == states[k].after_deletion(picks[k])
            },
        states.last().done(),
    ensures
        states.last().in_age_order(),
        states.last().freed >= states.last().target || forall|j: int|
            !#[trigger] states.last().eligible(j),
        picks.len() > 0 ==> states[picks.len() - 1].freed < states.last().target,
{
    lemma_sweep_order_prefix(states, picks, picks.len() as int);
    if picks.len() > 0 {
        let k = picks.len() - 1;
        assert(!states[k].done());
        assert(states[k + 1] == states[k].after_deletion(picks[k]));
    }
}

proof fn lemma_sweep_order_prefix(states: Seq<SweepState>, picks: Seq<int>, n: int)
    requires
        states.len() == picks.len() + 1,
        states[0].tried.len() == states[0].entries.len(),
        forall|i: int| 0 <= i < states[0].tried.len() ==> !#[trigger] states[0].tried[i],
        forall|k: int|
            0 <= k < picks.len() ==> {
                &&& !#[trigger] states[k].done()
                &&& states[k].is_oldest(picks[k])
                &&& states[k + 1] == states[k].after_deletion(picks[k])
            },
        0 <= n <= picks.len(),
    ensures
        states[n].in_age_order(),
        states[n].tried.len() == states[n].entries.len(),
        states[n].entries == states[0].entries,
        states[n].now == states[0].now,
    decreases n,
{
    if n > 0 {
        let k = n - 1;
        lemma_sweep_order_prefix(states, picks, k);
        let s = states[k];
        assert(!states[k].done());
        assert(s.is_oldest(picks[k]));
        assert(states[k + 1] == s.after_deletion(picks[k]));
        let t = s.after_deletion(picks[k]);
        assert forall|i: int, j: int|
            0 <= i < t.tried.len() && #[trigger] t.tried[i] && #[trigger] t.eligible(j) implies t.precedes(
            i,
            j,
        ) by {
            assert(s.eligible(j));
            if i == picks[k] {
                assert(s.precedes(i, j));
            } else {
                assert(s.tried[i]);
            }
        }
    }
}

/// One reclaiming pass over the archive: entries are deleted oldest first until the
/// freed bytes reach the target or no entry is left. Only a confirmed deletion counts.
pub struct GcSweep {
    entries: Vec<Option<EntryMetadata>>,
    tried: Vec<bool>,
    remaining: u64,
    now: u64,
    target: Ghost<nat>,
    freed: Ghost<nat>,
}

impl View for GcSweep {
    type V = SweepState;

    closed spec fn view(&self) -> SweepState {
        SweepState {
            entries: self.entries@,
            tried: self.tried@,
            target: self.target@,
            freed: self.freed@,
            now: self.now,
        }
    }
}

impl GcSweep {
    /// The invariant: one mark per entry, and the bytes still to reclaim are the
    /// target less what was freed, or zero once that is reached.
    pub closed spec fn wf(&self) -> bool {
        &&& self.tried@.len() == self.entries@.len()
        &&& self.remaining == if self.freed@ >= self.target@ {
            0
        } else {
            (self.target@ - self.freed@) as nat
        }
    }

    /// A sweep over `entries`, none tried yet, to reclaim `target` bytes.
    pub fn new(entries: Vec<Option<EntryMetadata>>, target: u64, now: u64) -> (r: GcSweep)
        ensures
            r.wf(),
            r@.entries == entries@,
            r@.tried == Seq::new(entries@.len(), |i: int| false),
            r@.target == target,
            r@.freed == 0,
            r@.now == now,
    {
        let n = entries.len();
        let mut tried: Vec<bool> = Vec::new();
        let mut i: usize = 0;
        while i < n
            invariant
                i <= n,
                tried@ == Seq::new(i as nat, |k: int| false),
            decreases n - i,
        {
            tried.push(false);
            i = i + 1;
            assert(tried@ =~= Seq::new(i as nat, |k: int| false));
        }
        GcSweep {
            entries,
            tried,
            remaining: target,
            now,
            target: Ghost(target as nat),
            freed: Ghost(0),
        }
    }

    /// The entry to delete next: none once the sweep is over, else the eligible entry
    /// that precedes every other eligible one.
    pub fn next(&self) -> (r: Option<usize>)
        requires
            self.wf(),
        ensures
            r is None <==> self@.done(),
            r matches Some(i) ==> self@.is_oldest(i as int),
            r matches Some(i) ==> self@.eligible(i as int) && forall|j: int| #[trigger]
                self@.eligible(j) ==> self@.precedes(i as int, j),
    {
        if self.remaining == 0 {
            return None;
        }
        let ghost s = self@;
        let n = self.entries.len();
        let mut best: Option<usize> = None;
        let mut best_key: u64 = 0;
        let mut i: usize = 0;
        while i < n
            invariant
                s == self@,
                n == s.entries.len(),
                s.tried.len() == n,
                i <= n,
                best matches Some(b) ==> {
                    &&& b < i
                    &&& s.eligible(b as int)
                    &&& best_key == age_key(s.entries[b as int]->Some_0, s.now)
                    &&& forall|j: int| 0 <= j < i && #[trigger] s.eligible(j) ==> s.precedes(
                        b as int,
                        j,
                    )
                },
                best is None ==> forall|j: int| 0 <= j < i ==> !#[trigger] s.eligible(j),
            decreases n - i,
        {
            if !self.tried[i] {
                if let Some(m) = self.entries[i] {
                    let key = match m.modified {
                        Some(t) => t,
                        None => self.now,
                    };
                    let replace = match best {
                        None => true,
                        Some(_) => key < best_key,
                    };
                    if replace {
                        best = Some(i);
                        best_key = key;
                    }
                }
            }
            i = i + 1;
        }
        best
    }

    /// Records the attempt on entry `i`: it is not tried again, and its size counts
    /// as freed only when the deletion succeeded. An entry that was not eligible is
    /// left as it was.
    pub fn record(&mut self, i: usize, deleted: bool)
        requires
            old(self).wf(),
        ensures
            final(self).wf(),
            !old(self)@.eligible(i as int) ==> final(self)@ == old(self)@,
            old(self)@.eligible(i as int) && deleted ==> final(self)@ == old(self)@.after_deletion(
                i as int,
            ),
            old(self)@.eligible(i as int) ==> {
                &&& final(self)@.entries == old(self)@.entries
                &&& final(self)@.tried == old(self)@.tried.update(i as int, true)
                &&& final(self)@.target == old(self)@.target
                &&& final(self)@.now == old(self)@.now
                &&& final(self)@.freed == old(self)@.freed + if deleted {
                    old(self)@.entries[i as int]->Some_0.len as nat
                } else {
                    0
                }
            },
    {
        if i >= self.entries.len() || self.tried[i] {
            return;
        }
        let len = match self.entries[i] {
            Some(m) => m.len,
            None => {
                return;
            },
        };
        self.tried.set(i, true);
        if deleted {
            self.remaining = if len >= self.remaining {
                0
            } else {
                self.remaining - len
            };
            self.freed = Ghost(self.freed@ + len as nat);
        }
    }
}

/// The reclaimer of one log directory's archive.
pub struct UsageMonitor {
    archive_dir: String,
}

impl UsageMonitor {
    /// The archive directory that the monitor watches.
    pub closed spec fn archive_dir_spec(&self) -> Seq<char> {
        self.archive_dir@
    }

    /// A monitor of the archive inside `base_dir`.
    pub fn new(base_dir: &str) -> (r: UsageMonitor)
        ensures
            r.archive_dir_spec() == archive_dir_of(base_dir@),
    {
        proof {
            reveal_strlit("archived");
            assert("archived"@ =~= seq!['a', 'r', 'c', 'h', 'i', 'v', 'e', 'd']);
        }
        UsageMonitor { archive_dir: join_path(base_dir, "archived") }
    }

    /// The archive directory that the monitor watches.
    pub fn archive_dir(&self) -> (r: &str)
        ensures
            r@ == self.archive_dir_spec(),
    {
        self.archive_dir.as_str()
    }

    /// The interval between two inspections, in seconds.
    pub fn period_secs(&self) -> (r: u64)
        ensures
            r == MONITOR_PERIOD_SECS,
    {
        MONITOR_PERIOD_SECS
    }

    /// The sweep that one inspection calls for, given the space of the archive's file
    /// system and the archive's entries: none while enough space is free.
    pub fn plan(&self, space: SpaceData, entries: Vec<Option<EntryMetadata>>, now: u64) -> (r:
        Option<GcSweep>)
        ensures
            spec_bytes_to_gc(space) is None ==> r is None,
            spec_bytes_to_gc(space) matches Some(n) ==> (r matches Some(sweep) && {
                &&& sweep.wf()
                &&& sweep@.entries == entries@
                &&& sweep@.tried == Seq::new(entries@.len(), |i: int| false)
                &&& sweep@.target == n
                &&& sweep@.freed == 0
                &&& sweep@.now == now
            }),
    {
        match space.bytes_to_gc() {
            None => None,
            Some(n) => Some(GcSweep::new(entries, n, now)),
        }
    }
}

} // verus!
