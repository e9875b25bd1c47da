//! Live state of the guardians: per-disk runtime records and pending reset requests.
use vstd::prelude::*;
use crate::text::str_eq;

verus! {

/// What the disk guardian knows of one disk rule between checks.
#[derive(Clone, Debug)]
pub struct DiskRuntime {
    pub mounted: bool,
    pub device: Option<String>,
    pub last_error: Option<String>,
    pub failures: u32,
    pub circuit_open: bool,
    /// When the circuit breaker opened, in nanoseconds of the monotonic clock.
    pub circuit_opened_at: Option<u64>,
    /// When the next mount attempt is due, in nanoseconds since the Unix epoch.
    pub next_retry: Option<i128>,
    /// The current retry interval, in seconds.
    pub interval: u64,
}

/// The record of a disk that the guardian has not looked at yet.
pub open spec fn fresh_disk_runtime() -> DiskRuntime {
    DiskRuntime {
        mounted: false,
        device: None,
        last_error: None,
        failures: 0,
        circuit_open: false,
        circuit_opened_at: None,
        next_retry: None,
        interval: 0,
    }
}

impl Default for DiskRuntime {
    fn default() -> (r: Self)
        ensures
            r == fresh_disk_runtime(),
    {
        DiskRuntime {
            mounted: false,
            device: None,
            last_error: None,
            failures: 0,
            circuit_open: false,
            circuit_opened_at: None,
            next_retry: None,
            interval: 0,
        }
    }
}

/// The runtime record of one disk rule, by the rule's id.
#[derive(Clone, Debug)]
pub struct DiskEntry {
    pub rule_id: String,
    pub state: DiskRuntime,
}

/// Index of the first entry for `id`, or -1 when there is none.
pub open spec fn entry_index(entries: Seq<DiskEntry>, id: Seq<char>) -> int
    decreases entries.len(),
{
    if entries.len() == 0 {
        -1
    } else {
        let p = entry_index(entries.drop_last(), id);
        if p >= 0 {
            p
        } else if entries.last().rule_id@ == id {
            entries.len() - 1
        } else {
            -1
        }
    }
}

pub proof fn lemma_entry_index(entries: Seq<DiskEntry>, id: Seq<char>)
    ensures
        -1 <= entry_index(entries, id) < entries.len(),
        entry_index(entries, id) >= 0 ==> entries[entry_index(entries, id)].rule_id@ == id,
        entry_index(entries, id) >= 0 ==> forall|k: int|
            0 <= k < entry_index(entries, id) ==> #[trigger] entries[k].rule_id@ != id,
        entry_index(entries, id) < 0 ==> forall|k: int|
            0 <= k < entries.len() ==> #[trigger] entries[k].rule_id@ != id,
    decreases entries.len(),
{
    if entries.len() > 0 {
        lemma_entry_index(entries.drop_last(), id);
        assert forall|k: int| 0 <= k < entries.len() - 1 implies entries.drop_last()[k] == entries[k] by {}
    }
}

/// The runtime record kept for `id`, if any.
pub open spec fn lookup(entries: Seq<DiskEntry>, id: Seq<char>) -> Option<DiskRuntime> {
    if entry_index(entries, id) >= 0 {
        Some(entries[entry_index(entries, id)].state)
    } else {
        None
    }
}

/// Position of the record for `id` in `entries`.
pub fn find_entry(entries: &Vec<DiskEntry>, id: &str) -> (r: Option<usize>)
    ensures
        match r {
            Some(i) => i as int == entry_index(entries@, id@),
            None => entry_index(entries@, id@) < 0,
        },
{
    let mut i: usize = 0;
    while i < entries.len()
        invariant
            i <= entries.len(),
            forall|k: int| 0 <= k < i ==> #[trigger] entries@[k].rule_id@ != id@,
        decreases entries.len() - i,
    {
        if str_eq(entries[i].rule_id.as_str(), id) {
            proof {
                lemma_entry_index(entries@, id@);
                let p = entry_index(entries@, id@);
                if p >= 0 && p != i {
                    assert(entries@[p].rule_id@ == id@);
                }
            }
            return Some(i);
        }
        i += 1;
    }
    proof {
        lemma_entry_index(entries@, id@);
    }
    None
}

/// Whether no rule id has two records: the invariant of `RuntimeInner::disks`.
pub open spec fn ids_unique(entries: Seq<DiskEntry>) -> bool {
    forall|i: int, j: int|
        0 <= i < j < entries.len() ==> #[trigger] entries[i].rule_id@ != #[trigger] entries[j].rule_id@
}

/// Whether no text occurs twice: the invariant of `ResetFlags::disks`.
pub open spec fn texts_unique(v: Seq<String>) -> bool {
    forall|i: int, j: int| 0 <= i < j < v.len() ==> #[trigger] v[i]@ != #[trigger] v[j]@
}

/// What the guardians know of WSL and the disks.
#[derive(Clone, Debug)]
pub struct RuntimeInner {
    pub distro_running: bool,
    pub distro_version: Option<u32>,
    pub wsl_available: bool,
    pub mount_supported: bool,
    /// Since when the distro has been running, in nanoseconds since the Unix epoch.
    pub running_since: Option<i128>,
    /// When WSL was last checked, in nanoseconds since the Unix epoch.
    pub last_check: Option<i128>,
    pub last_error: Option<String>,
    pub wsl_failures: u32,
    pub wsl_circuit_open: bool,
    /// When the WSL circuit breaker opened, in nanoseconds of the monotonic clock.
    pub wsl_circuit_opened_at: Option<u64>,
    pub mount_task_exists: bool,
    pub disks: Vec<DiskEntry>,
}

impl Default for RuntimeInner {
    fn default() -> (r: Self)
        ensures
            !r.distro_running,
            r.distro_version is None,
            !r.wsl_available,
            !r.mount_supported,
            r.running_since is None,
            r.last_check is None,
            r.last_error is None,
            r.wsl_failures == 0,
            !r.wsl_circuit_open,
            r.wsl_circuit_opened_at is None,
            !r.mount_task_exists,
            r.disks@.len() == 0,
            r.wf(),
    {
        RuntimeInner {
            distro_running: false,
            distro_version: None,
            wsl_available: false,
            mount_supported: false,
            running_since: None,
            last_check: None,
            last_error: None,
            wsl_failures: 0,
            wsl_circuit_open: false,
            wsl_circuit_opened_at: None,
            mount_task_exists: false,
            disks: Vec::new(),
        }
    }
}

impl RuntimeInner {
    /// Well-formedness: each disk rule has at most one record.
    pub open spec fn wf(&self) -> bool {
        ids_unique(self.disks@)
    }

    /// The runtime record of the disk rule `id`, if the guardian keeps one.
    pub fn disk(&self, id: &str) -> (r: Option<&DiskRuntime>)
        ensures
            match r {
                Some(d) => lookup(self.disks@, id@) == Some(*d),
                None => lookup(self.disks@, id@) is None,
            },
    {
        proof {
            lemma_entry_index(self.disks@, id@);
        }
        match find_entry(&self.disks, id) {
            Some(i) => Some(&self.disks[i].state),
            None => None,
        }
    }

    /// Records `state` for the disk rule `id`.
    pub fn set_disk(&mut self, id: &str, state: DiskRuntime)
        ensures
            lookup(final(self).disks@, id@) == Some(state),
            forall|other: Seq<char>|
                other != id@ ==> lookup(final(self).disks@, other) == #[trigger] lookup(
                    old(self).disks@,
                    other,
                ),
            *final(self) == (RuntimeInner { disks: final(self).disks, ..*old(self) }),
            old(self).wf() ==> final(self).wf(),
    {
        let ghost before = self.disks@;
        proof {
            lemma_entry_index(before, id@);
        }
        match find_entry(&self.disks, id) {
            Some(i) => {
                let rule_id = self.disks[i].rule_id.clone();
                self.disks.set(i, DiskEntry { rule_id, state });
                proof {
                    let after = self.disks@;
                    lemma_entry_index(after, id@);
                    assert forall|k: int| 0 <= k < i implies after[k] == before[k] by {}
                    assert(entry_index(after, id@) == i as int) by {
                        let p = entry_index(after, id@);
                        assert(after[i as int].rule_id@ == id@);
                        if p >= 0 && p != i {
                            assert(after[p].rule_id@ == id@);
                        }
                    }
                    assert forall|other: Seq<char>| other != id@ implies lookup(after, other)
                        == #[trigger] lookup(before, other) by {
                        lemma_entry_index(after, other);
                        lemma_entry_index(before, other);
                        let pa = entry_index(after, other);
                        let pb = entry_index(before, other);
                        if pa >= 0 {
                            assert(pa != i);
                            assert(after[pa] == before[pa]);
                        }
                        if pb >= 0 {
                            assert(pb != i);
                            assert(after[pb] == before[pb]);
                        }
                        assert(pa == pb);
                    }
                }
            },
            None => {
                let rule_id = String::from_str(id);
                self.disks.push(DiskEntry { rule_id, state });
                proof {
                    let after = self.disks@;
                    lemma_entry_index(after, id@);
                    assert forall|k: int| 0 <= k < before.len() implies after[k] == before[k] by {}
                    assert(entry_index(after, id@) == before.len() as int) by {
                        let p = entry_index(after, id@);
                        assert(after[before.len() as int].rule_id@ == id@);
                        if p >= 0 && p != before.len() {
                            assert(after[p].rule_id@ == id@);
                        }
                    }
                    assert forall|other: Seq<char>| other != id@ implies lookup(after, other)
                        == #[trigger] lookup(before, other) by {
                        lemma_entry_index(after, other);
                        lemma_entry_index(before, other);
                        let pa = entry_index(after, other);
                        let pb = entry_index(before, other);
                        if pa >= 0 {
                            assert(pa != before.len());
                            assert(after[pa] == before[pa]);
                        }
                        if pb >= 0 {
                            assert(after[pb] == before[pb]);
                        }
                        assert(pa == pb);
                    }
                }
            },
        }
    }
}

/// Reset requests from the user, waiting for the guardians to pick them up.
#[derive(Clone, Debug)]
pub struct ResetFlags {
    /// Ids of disk rules whose circuit breaker the user asked to reset, without repeats.
    pub disks: Vec<String>,
    /// Whether the user asked to reset the WSL circuit breaker.
    pub wsl: bool,
}

/// The set of texts held by `v`.
pub open spec fn text_set(v: Seq<String>) -> Set<Seq<char>> {
    Set::new(|s: Seq<char>| exists|i: int| 0 <= i < v.len() && #[trigger] v[i]@ == s)
}

impl ResetFlags {
    /// Well-formedness: no rule id is pending twice.
    pub open spec fn wf(&self) -> bool {
        texts_unique(self.disks@)
    }

    /// No pending requests.
    pub fn new() -> (r: Self)
        ensures
            r.disks@.len() == 0,
            !r.wsl,
            r.wf(),
    {
        ResetFlags { disks: Vec::new(), wsl: false }
    }

    /// Whether the WSL reset was requested; the request is consumed.
    pub fn take_wsl(&mut self) -> (r: bool)
        ensures
            r == old(self).wsl,
            !final(self).wsl,
            final(self).disks == old(self).disks,
    {
        let r = self.wsl;
        self.wsl = false;
        r
    }

    /// The disk rules whose reset was requested; the requests are consumed.
    pub fn take_disks(&mut self) -> (r: Vec<String>)
        ensures
            r@ == old(self).disks@,
            final(self).disks@.len() == 0,
            final(self).wsl == old(self).wsl,
            final(self).wf(),
    {
        let mut r: Vec<String> = Vec::new();
        std::mem::swap(&mut r, &mut self.disks);
        r
    }

    /// Asks the WSL guardian to reset its circuit breaker.
    pub fn request_wsl_reset(&mut self)
        ensures
            final(self).wsl,
            final(self).disks == old(self).disks,
    {
        self.wsl = true;
    }

    /// Asks the disk guardian to reset the record of rule `id`.
    pub fn request_disk_reset(&mut self, id: String)
        ensures
            text_set(final(self).disks@) == text_set(old(self).disks@).insert(id@),
            final(self).wsl == old(self).wsl,
            old(self).wf() ==> final(self).wf(),
    {
        let ghost before = self.disks@;
        let mut i: usize = 0;
        while i < self.disks.len()
            invariant
                i <= self.disks.len(),
                self.disks@ == before,
                forall|k: int| 0 <= k < i ==> #[trigger] self.disks@[k]@ != id@,
            decreases self.disks.len() - i,
        {
            if str_eq(self.disks[i].as_str(), id.as_str()) {
                assert(text_set(before).insert(id@) =~= text_set(before));
                return;
            }
            i += 1;
        }
        self.disks.push(id);
        assert(text_set(self.disks@) =~= text_set(before).insert(id@)) by {
            assert forall|s: Seq<char>| text_set(before).insert(id@).contains(s) implies #[trigger] text_set(self.disks@).contains(s) by {
                if s == id@ {
                    assert(self.disks@[before.len() as int]@ == s);
                } else {
                    let j = choose|j: int| 0 <= j < before.len() && before[j]@ == s;
                    assert(self.disks@[j] == before[j]);
                }
            }
            assert forall|s: Seq<char>| text_set(self.disks@).contains(s) implies #[trigger] text_set(before).insert(id@).contains(s) by {
                let j = choose|j: int| 0 <= j < self.disks@.len() && self.disks@[j]@ == s;
                if j < before.len() {
                    assert(self.disks@[j] == before[j]);
                }
            }
        }
    }
}

/// A disk reset request is picked up by the next `take_disks`, and only by it: the requested
/// id is among the taken ones, and nothing is left for a later take.
pub proof fn lemma_reset_taken_once(before: Seq<String>, requested: Seq<String>, id: Seq<char>, taken: Seq<String>, left: Seq<String>)
    requires
        text_set(requested) == text_set(before).insert(id),
        taken == requested,
        left.len() == 0,
    ensures
        text_set(taken).contains(id),
        text_set(left) == Set::<Seq<char>>::empty(),
{
    assert(text_set(left) =~= Set::<Seq<char>>::empty());
}

} // verus!
