//! The allocation service: an in-memory record store together with the four
//! insertion operations, each validated and checked for conflicts before a
//! record is written, and each leaving the store untouched on any error.
//!
//! Callers that persist records elsewhere can drive the same decisions
//! through the pure evaluator and the overlap query; per-system exclusivity
//! of read-decide-write sequences is then the caller's duty.

use vstd::prelude::*;

use crate::caps::Capabilities;
use crate::conflict::entry_capacity_conflict;
use crate::conflict::entry_conflict_report;
use crate::conflict::entry_conflict;
use crate::conflict::evaluate_entry;
use crate::conflict::collect_conflicts_span;
use crate::conflict::outage_conflict;
use crate::conflict::span_conflict_report;
use crate::model::AllocError;
use crate::model::Allocation;
use crate::model::AllocationKind;
use crate::model::ConflictError;
use crate::model::ConflictRule;
use crate::model::StoreFault;
use crate::model::SystemInfo;
use crate::model::ValidationFault;
use crate::model::bit_set;
use crate::model::counts_toward;
use crate::model::entry_count_on;
use crate::model::lemma_count_push;
use crate::model::lemma_count_zero;
use crate::model::lemma_lookup_none;
use crate::model::lemma_lookup_some;
use crate::model::lookup_system;
use crate::model::spans_overlap;
use crate::model::unique_alloc_ids;
use crate::model::unique_system_ids;

verus! {

/// A record is internally sound: a non-empty half-open interval, and the
/// planned flag fixed for the kinds that allow only one value of it.
pub open spec fn alloc_wf(a: Allocation) -> bool {
    &&& a.start < a.end
    &&& a.kind == AllocationKind::Entry ==> a.planned
    &&& a.kind == AllocationKind::Capability ==> a.planned
}

/// Capacity invariant: at every instant and capability, no system holds
/// more entries than its capacity.
pub open spec fn caps_ok(ss: Seq<SystemInfo>, al: Seq<Allocation>) -> bool {
    forall|j: int, t: int, c: u32|
        0 <= j < ss.len() ==> #[trigger] entry_count_on(al, ss[j].id, t, c) <= ss[j].capacity
}

/// The record an accepted entry insertion writes.
pub open spec fn entry_record(
    id: u128,
    system: u128,
    start: i64,
    end: i64,
    mask: Capabilities,
) -> Allocation {
    Allocation { id, system, kind: AllocationKind::Entry, planned: true, start, end, mask }
}

/// The record an accepted full-outage insertion writes; `planned` is false
/// for an unplanned outage, whose `[start, end)` is its sliding window.
pub open spec fn full_outage_record(
    id: u128,
    system: u128,
    start: i64,
    end: i64,
    planned: bool,
    mask: Capabilities,
) -> Allocation {
    Allocation { id, system, kind: AllocationKind::Full, planned, start, end, mask }
}

/// The record an accepted capability-outage insertion writes.
pub open spec fn capability_outage_record(
    id: u128,
    system: u128,
    start: i64,
    end: i64,
    mask: Capabilities,
) -> Allocation {
    Allocation { id, system, kind: AllocationKind::Capability, planned: true, start, end, mask }
}

/// The record a system declaration writes.
pub open spec fn system_record(id: u128, capacity: i32, capabilities: Capabilities) -> SystemInfo {
    SystemInfo { id, capacity, capabilities }
}

/// The allocation service over its in-memory record store.
pub struct SystemAllocation {
    pub systems: Vec<SystemInfo>,
    pub allocs: Vec<Allocation>,
}

/// Pushing a sound, fresh record whose insertion rule was checked keeps the
/// store invariants.
proof fn lemma_wf_after_push(
    ss: Seq<SystemInfo>,
    al: Seq<Allocation>,
    rec: Allocation,
    sysrec: SystemInfo,
)
    requires
        forall|i: int| 0 <= i < al.len() ==> alloc_wf(#[trigger] al[i]),
        unique_alloc_ids(al),
        unique_system_ids(ss),
        forall|i: int| 0 <= i < al.len() ==> lookup_system(ss, (#[trigger] al[i]).system) is Some,
        caps_ok(ss, al),
        alloc_wf(rec),
        forall|i: int| 0 <= i < al.len() ==> (#[trigger] al[i]).id != rec.id,
        lookup_system(ss, rec.system) == Some(sysrec),
        rec.kind == AllocationKind::Entry ==> forall|t: int, c: u32|
            rec.start <= t < rec.end && bit_set(rec.mask.bits, c) ==> #[trigger] entry_count_on(
                al,
                rec.system,
                t,
                c,
            ) < sysrec.capacity,
    ensures
        forall|i: int| 0 <= i < al.push(rec).len() ==> alloc_wf(#[trigger] al.push(rec)[i]),
        unique_alloc_ids(al.push(rec)),
        forall|i: int|
            0 <= i < al.push(rec).len() ==> lookup_system(
                ss,
                (#[trigger] al.push(rec)[i]).system,
            ) is Some,
        caps_ok(ss, al.push(rec)),
{
    let al2 = al.push(rec);
    assert(forall|i: int| 0 <= i < al.len() ==> al2[i] == al[i]);
    assert(al2[al.len() as int] == rec);
    assert forall|i: int| 0 <= i < al2.len() implies alloc_wf(#[trigger] al2[i]) by {
        if i < al.len() {
            assert(al2[i] == al[i]);
        }
    }
    assert forall|i: int, j: int| 0 <= i < j < al2.len() implies al2[i].id != al2[j].id by {
        if j < al.len() {
        } else {
            assert(al2[j] == rec);
            assert(al2[i] == al[i]);
        }
    }
    assert forall|i: int|
        0 <= i < al2.len() implies lookup_system(ss, (#[trigger] al2[i]).system) is Some by {
        if i < al.len() {
            assert(al2[i] == al[i]);
        }
    }
    assert forall|j: int, t: int, c: u32|
        0 <= j < ss.len() implies #[trigger] entry_count_on(al2, ss[j].id, t, c)
        <= ss[j].capacity by {
        lemma_count_push(al, rec, ss[j].id, t, c);
        if counts_toward(rec, ss[j].id, t, c) {
            lemma_lookup_some(ss, rec.system, j);
            assert(ss[j] == sysrec);
            assert(entry_count_on(al, rec.system, t, c) < sysrec.capacity);
        }
    }
}

impl SystemAllocation {
    /// Every invariant the store keeps across operations.
    pub open spec fn wf(self) -> bool {
        &&& forall|j: int|
            0 <= j < self.systems@.len() ==> (#[trigger] self.systems@[j]).capacity >= 1
        &&& unique_system_ids(self.systems@)
        &&& forall|i: int| 0 <= i < self.allocs@.len() ==> alloc_wf(#[trigger] self.allocs@[i])
        &&& unique_alloc_ids(self.allocs@)
        &&& forall|i: int|
            0 <= i < self.allocs@.len() ==> lookup_system(
                self.systems@,
                (#[trigger] self.allocs@[i]).system,
            ) is Some
        &&& caps_ok(self.systems@, self.allocs@)
    }

    /// Some record already carries this identity.
    pub open spec fn id_used(self, id: u128) -> bool {
        exists|i: int| 0 <= i < self.allocs@.len() && (#[trigger] self.allocs@[i]).id == id
    }

    /// An empty service: no systems, no allocations.
    pub fn new() -> (r: Self)
        ensures
            r.wf(),
            r.systems@.len() == 0,
            r.allocs@.len() == 0,
    {
        SystemAllocation { systems: Vec::new(), allocs: Vec::new() }
    }

    fn system_index(&self, system: u128) -> (r: Option<usize>)
        ensures
            match r {
                Some(j) => j < self.systems@.len() && self.systems@[j as int].id == system,
                None => forall|j: int|
                    0 <= j < self.systems@.len() ==> (#[trigger] self.systems@[j]).id != system,
            },
    {
        let mut j: usize = 0;
        while j < self.systems.len()
            invariant
                j <= self.systems@.len(),
                forall|jj: int| 0 <= jj < j ==> (#[trigger] self.systems@[jj]).id != system,
            decreases self.systems@.len() - j,
        {
            if self.systems[j].id == system {
                return Some(j);
            }
            j += 1;
        }
        None
    }

    fn id_in_use(&self, id: u128) -> (b: bool)
        ensures
            b == self.id_used(id),
    {
        let mut i: usize = 0;
        while i < self.allocs.len()
            invariant
                i <= self.allocs@.len(),
                forall|ii: int| 0 <= ii < i ==> (#[trigger] self.allocs@[ii]).id != id,
            decreases self.allocs@.len() - i,
        {
            if self.allocs[i].id == id {
                return true;
            }
            i += 1;
        }
        false
    }

    /// Register a system with its capacity and capability set, immutable
    /// thereafter.
    pub fn declare_system(
        &mut self,
        system: u128,
        capacity: i32,
        capabilities: Capabilities,
    ) -> (r: Result<(), AllocError>)
        requires
            old(self).wf(),
        ensures
            final(self).wf(),
            final(self).allocs@ == old(self).allocs@,
            match r {
                Ok(_) => {
                    &&& capacity >= 1
                    &&& lookup_system(old(self).systems@, system) is None
                    &&& final(self).systems@ == old(self).systems@.push(
                        system_record(system, capacity, capabilities),
                    )
                },
                Err(AllocError::Validation(ValidationFault::NonPositiveCapacity)) => {
                    &&& final(self).systems@ == old(self).systems@
                    &&& capacity < 1
                },
                Err(AllocError::Store(StoreFault::DuplicateId)) => {
                    &&& final(self).systems@ == old(self).systems@
                    &&& capacity >= 1
                    &&& lookup_system(old(self).systems@, system) is Some
                },
                _ => false,
            },
    {
        if capacity < 1 {
            return Err(AllocError::Validation(ValidationFault::NonPositiveCapacity));
        }
        match self.system_index(system) {
            Some(j) => {
                proof {
                    lemma_lookup_some(self.systems@, system, j as int);
                }
                Err(AllocError::Store(StoreFault::DuplicateId))
            },
            None => {
                proof {
                    lemma_lookup_none(self.systems@, system);
                }
                let rec = SystemInfo { id: system, capacity, capabilities };
                let ghost ss = self.systems@;
                let ghost al = self.allocs@;
                self.systems.push(rec);
                proof {
                    let ss2 = self.systems@;
                    assert(forall|j: int| 0 <= j < ss.len() ==> ss2[j] == ss[j]);
                    assert(ss2[ss.len() as int] == rec);
                    assert forall|i: int, j: int| 0 <= i < j < ss2.len() implies ss2[i].id
                        != ss2[j].id by {
                        if j < ss.len() {
                        } else {
                            assert(ss2[j] == rec);
                            assert(ss2[i] == ss[i]);
                        }
                    }
                    assert forall|i: int|
                        0 <= i < al.len() implies lookup_system(
                        ss2,
                        (#[trigger] al[i]).system,
                    ) is Some by {
                        crate::model::lemma_lookup_member(ss, al[i].system);
                        let j = choose|j: int|
                            0 <= j < ss.len() && ss[j] == lookup_system(ss, al[i].system)->Some_0
                                && ss[j].id == al[i].system;
                        lemma_lookup_some(ss2, al[i].system, j);
                    }
                    assert forall|j: int, t: int, c: u32|
                        0 <= j < ss2.len() implies #[trigger] entry_count_on(al, ss2[j].id, t, c)
                        <= ss2[j].capacity by {
                        if j < ss.len() {
                            assert(ss2[j] == ss[j]);
                        } else {
                            assert(ss2[j] == rec);
                            assert forall|i: int|
                                0 <= i < al.len() implies !counts_toward(
                                #[trigger] al[i],
                                system,
                                t,
                                c,
                            ) by {
                                if al[i].system == system {
                                    assert(lookup_system(ss, system) is Some);
                                }
                            }
                            lemma_count_zero(al, system, t, c);
                        }
                    }
                }
                Ok(())
            },
        }
    }

    /// The capacity and capability set of a declared system.
    pub fn system_info(&self, system: u128) -> (r: Option<(i32, Capabilities)>)
        requires
            self.wf(),
        ensures
            match r {
                Some(info) => {
                    let l = lookup_system(self.systems@, system);
                    &&& l is Some
                    &&& l->Some_0.capacity == info.0
                    &&& l->Some_0.capabilities == info.1
                },
                None => lookup_system(self.systems@, system) is None,
            },
    {
        match self.system_index(system) {
            Some(j) => {
                proof {
                    lemma_lookup_some(self.systems@, system, j as int);
                }
                let rec = self.systems[j];
                Some((rec.capacity, rec.capabilities))
            },
            None => {
                proof {
                    lemma_lookup_none(self.systems@, system);
                }
                None
            },
        }
    }

    /// Every allocation on `system` whose interval intersects `[ws, we)`,
    /// each record once.
    pub fn overlapping(&self, system: u128, ws: i64, we: i64) -> (v: Vec<Allocation>)
        requires
            self.wf(),
        ensures
            forall|k: int|
                0 <= k < v@.len() ==> (#[trigger] v@[k]).system == system && spans_overlap(
                    v@[k].start as int,
                    v@[k].end as int,
                    ws as int,
                    we as int,
                ),
            forall|k: int| 0 <= k < v@.len() ==> self.allocs@.contains(#[trigger] v@[k]),
            forall|k1: int, k2: int| 0 <= k1 < k2 < v@.len() ==> v@[k1].id != v@[k2].id,
            forall|i: int|
                0 <= i < self.allocs@.len() && (#[trigger] self.allocs@[i]).system == system
                    && spans_overlap(
                    self.allocs@[i].start as int,
                    self.allocs@[i].end as int,
                    ws as int,
                    we as int,
                ) ==> v@.contains(self.allocs@[i]),
    {
        let mut v: Vec<Allocation> = Vec::new();
        let mut i: usize = 0;
        while i < self.allocs.len()
            invariant
                self.wf(),
                i <= self.allocs@.len(),
                forall|k: int|
                    0 <= k < v@.len() ==> (#[trigger] v@[k]).system == system && spans_overlap(
                        v@[k].start as int,
                        v@[k].end as int,
                        ws as int,
                        we as int,
                    ),
                forall|k: int|
                    0 <= k < v@.len() ==> exists|jj: int|
                        0 <= jj < i && self.allocs@[jj] == #[trigger] v@[k],
                forall|k1: int, k2: int| 0 <= k1 < k2 < v@.len() ==> v@[k1].id != v@[k2].id,
                forall|ii: int|
                    0 <= ii < i && (#[trigger] self.allocs@[ii]).system == system && spans_overlap(
                        self.allocs@[ii].start as int,
                        self.allocs@[ii].end as int,
                        ws as int,
                        we as int,
                    ) ==> v@.contains(self.allocs@[ii]),
            decreases self.allocs@.len() - i,
        {
            let a = self.allocs[i];
            if a.system == system && a.start < we && ws < a.end {
                let ghost prev = v@;
                v.push(a);
                assert(forall|k: int| 0 <= k < prev.len() ==> v@[k] == prev[k]);
                assert(v@[prev.len() as int] == a);
                assert forall|k: int|
                    0 <= k < v@.len() implies exists|jj: int|
                    0 <= jj < i + 1 && self.allocs@[jj] == #[trigger] v@[k] by {
                    if k < prev.len() {
                        assert(v@[k] == prev[k]);
                        let jj = choose|jj: int| 0 <= jj < i && self.allocs@[jj] == prev[k];
                        assert(self.allocs@[jj] == v@[k]);
                    } else {
                        assert(self.allocs@[i as int] == v@[k]);
                    }
                }
                assert forall|k1: int, k2: int|
                    0 <= k1 < k2 < v@.len() implies v@[k1].id != v@[k2].id by {
                    if k2 < prev.len() {
                    } else {
                        assert(v@[k2] == a);
                        assert(v@[k1] == prev[k1]);
                        let jj = choose|jj: int| 0 <= jj < i && self.allocs@[jj] == prev[k1];
                        assert(self.allocs@[jj].id != self.allocs@[i as int].id);
                    }
                }
                assert forall|ii: int|
                    0 <= ii < i + 1 && (#[trigger] self.allocs@[ii]).system == system
                        && spans_overlap(
                        self.allocs@[ii].start as int,
                        self.allocs@[ii].end as int,
                        ws as int,
                        we as int,
                    ) implies v@.contains(self.allocs@[ii]) by {
                    if ii < i {
                        assert(prev.contains(self.allocs@[ii]));
                        let k = choose|k: int| 0 <= k < prev.len() && prev[k] == self.allocs@[ii];
                        assert(v@[k] == self.allocs@[ii]);
                    } else {
                        assert(v@[prev.len() as int] == self.allocs@[ii]);
                    }
                }
            } else {
                assert forall|ii: int|
                    0 <= ii < i + 1 && (#[trigger] self.allocs@[ii]).system == system
                        && spans_overlap(
                        self.allocs@[ii].start as int,
                        self.allocs@[ii].end as int,
                        ws as int,
                        we as int,
                    ) implies v@.contains(self.allocs@[ii]) by {
                    assert(ii < i);
                }
            }
            i += 1;
        }
        proof {
            assert forall|k: int|
                0 <= k < v@.len() implies self.allocs@.contains(#[trigger] v@[k]) by {
                let jj = choose|jj: int|
                    0 <= jj < self.allocs@.len() && self.allocs@[jj] == v@[k];
                assert(self.allocs@.contains(self.allocs@[jj]));
            }
        }
        v
    }

    /// Insert an entry under a caller-chosen identity. Succeeds exactly when
    /// the interval is non-empty, the system is declared, the identity is
    /// fresh, and no conflict rule rejects the candidate.
    #[verifier::rlimit(60)]
    pub fn insert_entry_with_id(
        &mut self,
        id: u128,
        system: u128,
        start: i64,
        end: i64,
        capabilities: Capabilities,
    ) -> (r: Result<u128, AllocError>)
        requires
            old(self).wf(),
        ensures
            final(self).wf(),
            final(self).systems@ == old(self).systems@,
            match r {
                Ok(rid) => {
                    &&& rid == id
                    &&& start < end
                    &&& lookup_system(old(self).systems@, system) is Some
                    &&& !old(self).id_used(id)
                    &&& !entry_conflict(
                        old(self).allocs@,
                        system,
                        lookup_system(old(self).systems@, system)->Some_0.capacity as int,
                        start as int,
                        end as int,
                        capabilities.bits,
                    )
                    &&& final(self).allocs@ == old(self).allocs@.push(
                        entry_record(id, system, start, end, capabilities),
                    )
                },
                Err(AllocError::Validation(ValidationFault::EmptyInterval)) => {
                    &&& final(self).allocs@ == old(self).allocs@
                    &&& start >= end
                },
                Err(AllocError::Validation(ValidationFault::UnknownSystem)) => {
                    &&& final(self).allocs@ == old(self).allocs@
                    &&& start < end
                    &&& lookup_system(old(self).systems@, system) is None
                },
                Err(AllocError::Store(StoreFault::DuplicateId)) => {
                    &&& final(self).allocs@ == old(self).allocs@
                    &&& start < end
                    &&& lookup_system(old(self).systems@, system) is Some
                    &&& !entry_conflict(
                        old(self).allocs@,
                        system,
                        lookup_system(old(self).systems@, system)->Some_0.capacity as int,
                        start as int,
                        end as int,
                        capabilities.bits,
                    )
                    &&& old(self).id_used(id)
                },
                Err(AllocError::Conflict(e)) => {
                    &&& final(self).allocs@ == old(self).allocs@
                    &&& start < end
                    &&& lookup_system(old(self).systems@, system) is Some
                    &&& entry_conflict(
                        old(self).allocs@,
                        system,
                        lookup_system(old(self).systems@, system)->Some_0.capacity as int,
                        start as int,
                        end as int,
                        capabilities.bits,
                    )
                    &&& entry_conflict_report(
                        old(self).allocs@,
                        system,
                        lookup_system(old(self).systems@, system)->Some_0.capacity as int,
                        start as int,
                        end as int,
                        capabilities.bits,
                        e,
                    )
                },
                _ => false,
            },
    {
        if start >= end {
            return Err(AllocError::Validation(ValidationFault::EmptyInterval));
        }
        let idx = match self.system_index(system) {
            Some(j) => j,
            None => {
                proof {
                    lemma_lookup_none(self.systems@, system);
                }
                return Err(AllocError::Validation(ValidationFault::UnknownSystem));
            },
        };
        proof {
            lemma_lookup_some(self.systems@, system, idx as int);
        }
        let sysrec = self.systems[idx];
        match evaluate_entry(&self.allocs, system, sysrec.capacity, start, end, capabilities.bits)
        {
            Err(e) => Err(AllocError::Conflict(e)),
            Ok(_) => {
                if self.id_in_use(id) {
                    return Err(AllocError::Store(StoreFault::DuplicateId));
                }
                let rec = Allocation {
                    id,
                    system,
                    kind: AllocationKind::Entry,
                    planned: true,
                    start,
                    end,
                    mask: capabilities,
                };
                proof {
                    assert forall|t: int, c: u32|
                        rec.start <= t < rec.end && bit_set(rec.mask.bits, c)
                            implies #[trigger] entry_count_on(self.allocs@, rec.system, t, c)
                        < sysrec.capacity by {
                        if entry_count_on(self.allocs@, rec.system, t, c) >= sysrec.capacity {
                            assert(entry_capacity_conflict(
                                self.allocs@,
                                system,
                                sysrec.capacity as int,
                                start as int,
                                end as int,
                                capabilities.bits,
                            ));
                        }
                    }
                    lemma_wf_after_push(self.systems@, self.allocs@, rec, sysrec);
                }
                self.allocs.push(rec);
                assert(self.allocs@ == old(self).allocs@.push(
                    entry_record(id, system, start, end, capabilities),
                ));
                Ok(id)
            },
        }
    }

    /// Insert an entry under a freshly drawn identity. The store is changed
    /// only on success; a collision of the drawn identity surfaces as a
    /// store fault and writes nothing.
    pub fn insert_entry(
        &mut self,
        system: u128,
        start: i64,
        end: i64,
        capabilities: Capabilities,
    ) -> (r: Result<u128, AllocError>)
        requires
            old(self).wf(),
        ensures
            final(self).wf(),
            final(self).systems@ == old(self).systems@,
            match r {
                Ok(rid) => {
                    &&& start < end
                    &&& lookup_system(old(self).systems@, system) is Some
                    &&& !old(self).id_used(rid)
                    &&& !entry_conflict(
                        old(self).allocs@,
                        system,
                        lookup_system(old(self).systems@, system)->Some_0.capacity as int,
                        start as int,
                        end as int,
                        capabilities.bits,
                    )
                    &&& final(self).allocs@ == old(self).allocs@.push(
                        entry_record(rid, system, start, end, capabilities),
                    )
                },
                Err(AllocError::Validation(ValidationFault::EmptyInterval)) => {
                    &&& final(self).allocs@ == old(self).allocs@
                    &&& start >= end
                },
                Err(AllocError::Validation(ValidationFault::UnknownSystem)) => {
                    &&& final(self).allocs@ == old(self).allocs@
                    &&& start < end
                    &&& lookup_system(old(self).systems@, system) is None
                },
                Err(AllocError::Store(StoreFault::DuplicateId)) => {
                    &&& final(self).allocs@ == old(self).allocs@
                    &&& start < end
                    &&& lookup_system(old(self).systems@, system) is Some
                    &&& !entry_conflict(
                        old(self).allocs@,
                        system,
                        lookup_system(old(self).systems@, system)->Some_0.capacity as int,
                        start as int,
                        end as int,
                        capabilities.bits,
                    )
                    &&& old(self).allocs@.len() > 0
                },
                Err(AllocError::Conflict(e)) => {
                    &&& final(self).allocs@ == old(self).allocs@
                    &&& start < end
                    &&& lookup_system(old(self).systems@, system) is Some
                    &&& entry_conflict(
                        old(self).allocs@,
                        system,
                        lookup_system(old(self).systems@, system)->Some_0.capacity as int,
                        start as int,
                        end as int,
                        capabilities.bits,
                    )
                    &&& entry_conflict_report(
                        old(self).allocs@,
                        system,
                        lookup_system(old(self).systems@, system)->Some_0.capacity as int,
                        start as int,
                        end as int,
                        capabilities.bits,
                        e,
                    )
                },
                _ => false,
            },
    {
        let id = fresh_id();
        self.insert_entry_with_id(id, system, start, end, capabilities)
    }

    /// Insert a planned full outage under a caller-chosen identity. It fails
    /// closed: any overlapping allocation of any kind on the system is a
    /// conflict, and nothing is ever auto-cleared.
    pub fn insert_planned_outage_with_id(
        &mut self,
        id: u128,
        system: u128,
        start: i64,
        end: i64,
    ) -> (r: Result<u128, AllocError>)
        requires
            old(self).wf(),
        ensures
            final(self).wf(),
            final(self).systems@ == old(self).systems@,
            match r {
                Ok(rid) => {
                    &&& rid == id
                    &&& start < end
                    &&& lookup_system(old(self).systems@, system) is Some
                    &&& !old(self).id_used(id)
                    &&& !outage_conflict(
                        old(self).allocs@,
                        system,
                        start as int,
                        end as int,
                        0u32,
                        false,
                    )
                    &&& final(self).allocs@ == old(self).allocs@.push(
                        full_outage_record(
                            id,
                            system,
                            start,
                            end,
                            true,
                            lookup_system(old(self).systems@, system)->Some_0.capabilities,
                        ),
                    )
                },
                Err(AllocError::Validation(ValidationFault::EmptyInterval)) => {
                    &&& final(self).allocs@ == old(self).allocs@
                    &&& start >= end
                },
                Err(AllocError::Validation(ValidationFault::UnknownSystem)) => {
                    &&& final(self).allocs@ == old(self).allocs@
                    &&& start < end
                    &&& lookup_system(old(self).systems@, system) is None
                },
                Err(AllocError::Store(StoreFault::DuplicateId)) => {
                    &&& final(self).allocs@ == old(self).allocs@
                    &&& start < end
                    &&& lookup_system(old(self).systems@, system) is Some
                    &&& !outage_conflict(
                        old(self).allocs@,
                        system,
                        start as int,
                        end as int,
                        0u32,
                        false,
                    )
                    &&& old(self).id_used(id)
                },
                Err(AllocError::Conflict(e)) => {
                    &&& final(self).allocs@ == old(self).allocs@
                    &&& start < end
                    &&& lookup_system(old(self).systems@, system) is Some
                    &&& outage_conflict(
                        old(self).allocs@,
                        system,
                        start as int,
                        end as int,
                        0u32,
                        false,
                    )
                    &&& span_conflict_report(
                        old(self).allocs@,
                        system,
                        start as int,
                        end as int,
                        0u32,
                        false,
                        ConflictRule::FullOutageExclusivity,
                        e,
                    )
                },
                _ => false,
            },
    {
        if start >= end {
            return Err(AllocError::Validation(ValidationFault::EmptyInterval));
        }
        let idx = match self.system_index(system) {
            Some(j) => j,
            None => {
                proof {
                    lemma_lookup_none(self.systems@, system);
                }
                return Err(AllocError::Validation(ValidationFault::UnknownSystem));
            },
        };
        proof {
            lemma_lookup_some(self.systems@, system, idx as int);
        }
        let sysrec = self.systems[idx];
        let v = collect_conflicts_span(&self.allocs, system, start, end, 0, false);
        if v.len() > 0 {
            return Err(AllocError::Conflict(
                ConflictError { rule: ConflictRule::FullOutageExclusivity, offenders: v },
            ));
        }
        if self.id_in_use(id) {
            return Err(AllocError::Store(StoreFault::DuplicateId));
        }
        let rec = Allocation {
            id,
            system,
            kind: AllocationKind::Full,
            planned: true,
            start,
            end,
            mask: sysrec.capabilities,
        };
        proof {
            lemma_wf_after_push(self.systems@, self.allocs@, rec, sysrec);
        }
        self.allocs.push(rec);
        Ok(id)
    }

    /// Insert a planned full outage under a freshly drawn identity.
    pub fn insert_planned_outage(&mut self, system: u128, start: i64, end: i64) -> (r: Result<
        u128,
        AllocError,
    >)
        requires
            old(self).wf(),
        ensures
            final(self).wf(),
            final(self).systems@ == old(self).systems@,
            match r {
                Ok(rid) => {
                    &&& start < end
                    &&& lookup_system(old(self).systems@, system) is Some
                    &&& !old(self).id_used(rid)
                    &&& !outage_conflict(
                        old(self).allocs@,
                        system,
                        start as int,
                        end as int,
                        0u32,
                        false,
                    )
                    &&& final(self).allocs@ == old(self).allocs@.push(
                        full_outage_record(
                            rid,
                            system,
                            start,
                            end,
                            true,
                            lookup_system(old(self).systems@, system)->Some_0.capabilities,
                        ),
                    )
                },
                Err(AllocError::Validation(ValidationFault::EmptyInterval)) => {
                    &&& final(self).allocs@ == old(self).allocs@
                    &&& start >= end
                },
                Err(AllocError::Validation(ValidationFault::UnknownSystem)) => {
                    &&& final(self).allocs@ == old(self).allocs@
                    &&& start < end
                    &&& lookup_system(old(self).systems@, system) is None
                },
                Err(AllocError::Store(StoreFault::DuplicateId)) => {
                    &&& final(self).allocs@ == old(self).allocs@
                    &&& start < end
                    &&& lookup_system(old(self).systems@, system) is Some
                    &&& !outage_conflict(
                        old(self).allocs@,
                        system,
                        start as int,
                        end as int,
                        0u32,
                        false,
                    )
                    &&& old(self).allocs@.len() > 0
                },
                Err(AllocError::Conflict(e)) => {
                    &&& final(self).allocs@ == old(self).allocs@
                    &&& start < end
                    &&& lookup_system(old(self).systems@, system) is Some
                    &&& outage_conflict(
                        old(self).allocs@,
                        system,
                        start as int,
                        end as int,
                        0u32,
                        false,
                    )
                    &&& span_conflict_report(
                        old(self).allocs@,
                        system,
                        start as int,
                        end as int,
                        0u32,
                        false,
                        ConflictRule::FullOutageExclusivity,
                        e,
                    )
                },
                _ => false,
            },
    {
        let id = fresh_id();
        self.insert_planned_outage_with_id(id, system, start, end)
    }

    /// Insert an unplanned full outage under a caller-chosen identity. Only
    /// allocations overlapping the forward sliding window `[start, start +
    /// window)` are evaluated; the window must be clear, and the record's
    /// interval is the window itself.
    pub fn insert_unplanned_outage_with_id(
        &mut self,
        id: u128,
        system: u128,
        start: i64,
        window: i64,
    ) -> (r: Result<u128, AllocError>)
        requires
            old(self).wf(),
        ensures
            final(self).wf(),
            final(self).systems@ == old(self).systems@,
            match r {
                Ok(rid) => {
                    &&& rid == id
                    &&& window >= 1
                    &&& start + window <= i64::MAX
                    &&& lookup_system(old(self).systems@, system) is Some
                    &&& !old(self).id_used(id)
                    &&& !outage_conflict(
                        old(self).allocs@,
                        system,
                        start as int,
                        start + window,
                        0u32,
                        false,
                    )
                    &&& final(self).allocs@ == old(self).allocs@.push(
                        full_outage_record(
                            id,
                            system,
                            start,
                            (start + window) as i64,
                            false,
                            lookup_system(old(self).systems@, system)->Some_0.capabilities,
                        ),
                    )
                },
                Err(AllocError::Validation(ValidationFault::BadWindow)) => {
                    &&& final(self).allocs@ == old(self).allocs@
                    &&& (window < 1 || start + window > i64::MAX)
                },
                Err(AllocError::Validation(ValidationFault::UnknownSystem)) => {
                    &&& final(self).allocs@ == old(self).allocs@
                    &&& window >= 1
                    &&& start + window <= i64::MAX
                    &&& lookup_system(old(self).systems@, system) is None
                },
                Err(AllocError::Store(StoreFault::DuplicateId)) => {
                    &&& final(self).allocs@ == old(self).allocs@
                    &&& window >= 1
                    &&& start + window <= i64::MAX
                    &&& lookup_system(old(self).systems@, system) is Some
                    &&& !outage_conflict(
                        old(self).allocs@,
                        system,
                        start as int,
                        start + window,
                        0u32,
                        false,
                    )
                    &&& old(self).id_used(id)
                },
                Err(AllocError::Conflict(e)) => {
                    &&& final(self).allocs@ == old(self).allocs@
                    &&& window >= 1
                    &&& start + window <= i64::MAX
                    &&& lookup_system(old(self).systems@, system) is Some
                    &&& outage_conflict(
                        old(self).allocs@,
                        system,
                        start as int,
                        start + window,
                        0u32,
                        false,
                    )
                    &&& span_conflict_report(
                        old(self).allocs@,
                        system,
                        start as int,
                        start + window,
                        0u32,
                        false,
                        ConflictRule::SlidingWindowOccupied,
                        e,
                    )
                },
                _ => false,
            },
    {
        if window < 1 {
            return Err(AllocError::Validation(ValidationFault::BadWindow));
        }
        if start > 0 && window > i64::MAX - start {
            return Err(AllocError::Validation(ValidationFault::BadWindow));
        }
        let we = start + window;
        let idx = match self.system_index(system) {
            Some(j) => j,
            None => {
                proof {
                    lemma_lookup_none(self.systems@, system);
                }
                return Err(AllocError::Validation(ValidationFault::UnknownSystem));
            },
        };
        proof {
            lemma_lookup_some(self.systems@, system, idx as int);
        }
        let sysrec = self.systems[idx];
        let v = collect_conflicts_span(&self.allocs, system, start, we, 0, false);
        if v.len() > 0 {
            return Err(AllocError::Conflict(
                ConflictError { rule: ConflictRule::SlidingWindowOccupied, offenders: v },
            ));
        }
        if self.id_in_use(id) {
            return Err(AllocError::Store(StoreFault::DuplicateId));
        }
        let rec = Allocation {
            id,
            system,
            kind: AllocationKind::Full,
            planned: false,
            start,
            end: we,
            mask: sysrec.capabilities,
        };
        proof {
            lemma_wf_after_push(self.systems@, self.allocs@, rec, sysrec);
        }
        self.allocs.push(rec);
        Ok(id)
    }

    /// Insert an unplanned full outage under a freshly drawn identity.
    pub fn insert_unplanned_outage(&mut self, system: u128, start: i64, window: i64) -> (r: Result<
        u128,
        AllocError,
    >)
        requires
            old(self).wf(),
        ensures
            final(self).wf(),
            final(self).systems@ == old(self).systems@,
            match r {
                Ok(rid) => {
                    &&& window >= 1
                    &&& start + window <= i64::MAX
                    &&& lookup_system(old(self).systems@, system) is Some
                    &&& !old(self).id_used(rid)
                    &&& !outage_conflict(
                        old(self).allocs@,
                        system,
                        start as int,
                        start + window,
                        0u32,
                        false,
                    )
                    &&& final(self).allocs@ == old(self).allocs@.push(
                        full_outage_record(
                            rid,
                            system,
                            start,
                            (start + window) as i64,
                            false,
                            lookup_system(old(self).systems@, system)->Some_0.capabilities,
                        ),
                    )
                },
                Err(AllocError::Validation(ValidationFault::BadWindow)) => {
                    &&& final(self).allocs@ == old(self).allocs@
                    &&& (window < 1 || start + window > i64::MAX)
                },
                Err(AllocError::Validation(ValidationFault::UnknownSystem)) => {
                    &&& final(self).allocs@ == old(self).allocs@
                    &&& window >= 1
                    &&& start + window <= i64::MAX
                    &&& lookup_system(old(self).systems@, system) is None
                },
                Err(AllocError::Store(StoreFault::DuplicateId)) => {
                    &&& final(self).allocs@ == old(self).allocs@
                    &&& window >= 1
                    &&& start + window <= i64::MAX
                    &&& lookup_system(old(self).systems@, system) is Some
                    &&& !outage_conflict(
                        old(self).allocs@,
                        system,
                        start as int,
                        start + window,
                        0u32,
                        false,
                    )
                    &&& old(self).allocs@.len() > 0
                },
                Err(AllocError::Conflict(e)) => {
                    &&& final(self).allocs@ == old(self).allocs@
                    &&& window >= 1
                    &&& start + window <= i64::MAX
                    &&& lookup_system(old(self).systems@, system) is Some
                    &&& outage_conflict(
                        old(self).allocs@,
                        system,
                        start as int,
                        start + window,
                        0u32,
                        false,
                    )
                    &&& span_conflict_report(
                        old(self).allocs@,
                        system,
                        start as int,
                        start + window,
                        0u32,
                        false,
                        ConflictRule::SlidingWindowOccupied,
                        e,
                    )
                },
                _ => false,
            },
    {
        let id = fresh_id();
        self.insert_unplanned_outage_with_id(id, system, start, window)
    }

    /// Insert a planned capability outage under a caller-chosen identity.
    /// Any overlapping allocation whose mask shares a capability with the
    /// outage's mask is a conflict.
    pub fn insert_planned_capability_outage_with_id(
        &mut self,
        id: u128,
        system: u128,
        capabilities: Capabilities,
        start: i64,
        end: i64,
    ) -> (r: Result<u128, AllocError>)
        requires
            old(self).wf(),
        ensures
            final(self).wf(),
            final(self).systems@ == old(self).systems@,
            match r {
                Ok(rid) => {
                    &&& rid == id
                    &&& start < end
                    &&& lookup_system(old(self).systems@, system) is Some
                    &&& !old(self).id_used(id)
                    &&& !outage_conflict(
                        old(self).allocs@,
                        system,
                        start as int,
                        end as int,
                        capabilities.bits,
                        true,
                    )
                    &&& final(self).allocs@ == old(self).allocs@.push(
                        capability_outage_record(id, system, start, end, capabilities),
                    )
                },
                Err(AllocError::Validation(ValidationFault::EmptyInterval)) => {
                    &&& final(self).allocs@ == old(self).allocs@
                    &&& start >= end
                },
                Err(AllocError::Validation(ValidationFault::UnknownSystem)) => {
                    &&& final(self).allocs@ == old(self).allocs@
                    &&& start < end
                    &&& lookup_system(old(self).systems@, system) is None
                },
                Err(AllocError::Store(StoreFault::DuplicateId)) => {
                    &&& final(self).allocs@ == old(self).allocs@
                    &&& start < end
                    &&& lookup_system(old(self).systems@, system) is Some
                    &&& !outage_conflict(
                        old(self).allocs@,
                        system,
                        start as int,
                        end as int,
                        capabilities.bits,
                        true,
                    )
                    &&& old(self).id_used(id)
                },
                Err(AllocError::Conflict(e)) => {
                    &&& final(self).allocs@ == old(self).allocs@
                    &&& start < end
                    &&& lookup_system(old(self).systems@, system) is Some
                    &&& outage_conflict(
                        old(self).allocs@,
                        system,
                        start as int,
                        end as int,
                        capabilities.bits,
                        true,
                    )
                    &&& span_conflict_report(
                        old(self).allocs@,
                        system,
                        start as int,
                        end as int,
                        capabilities.bits,
                        true,
                        ConflictRule::CapabilityExclusivity,
                        e,
                    )
                },
                _ => false,
            },
    {
        if start >= end {
            return Err(AllocError::Validation(ValidationFault::EmptyInterval));
        }
        let idx = match self.system_index(system) {
            Some(j) => j,
            None => {
                proof {
                    lemma_lookup_none(self.systems@, system);
                }
                return Err(AllocError::Validation(ValidationFault::UnknownSystem));
            },
        };
        proof {
            lemma_lookup_some(self.systems@, system, idx as int);
        }
        let sysrec = self.systems[idx];
        let v = collect_conflicts_span(&self.allocs, system, start, end, capabilities.bits, true);
        if v.len() > 0 {
            return Err(AllocError::Conflict(
                ConflictError { rule: ConflictRule::CapabilityExclusivity, offenders: v },
            ));
        }
        if self.id_in_use(id) {
            return Err(AllocError::Store(StoreFault::DuplicateId));
        }
        let rec = Allocation {
            id,
            system,
            kind: AllocationKind::Capability,
            planned: true,
            start,
            end,
            mask: capabilities,
        };
        proof {
            lemma_wf_after_push(self.systems@, self.allocs@, rec, sysrec);
        }
        self.allocs.push(rec);
        Ok(id)
    }

    /// Insert a planned capability outage under a freshly drawn identity.
    pub fn insert_planned_capability_outage(
        &mut self,
        system: u128,
        capabilities: Capabilities,
        start: i64,
        end: i64,
    ) -> (r: Result<u128, AllocError>)
        requires
            old(self).wf(),
        ensures
            final(self).wf(),
            final(self).systems@ == old(self).systems@,
            match r {
                Ok(rid) => {
                    &&& start < end
                    &&& lookup_system(old(self).systems@, system) is Some
                    &&& !old(self).id_used(rid)
                    &&& !outage_conflict(
                        old(self).allocs@,
                        system,
                        start as int,
                        end as int,
                        capabilities.bits,
                        true,
                    )
                    &&& final(self).allocs@ == old(self).allocs@.push(
                        capability_outage_record(rid, system, start, end, capabilities),
                    )
                },
                Err(AllocError::Validation(ValidationFault::EmptyInterval)) => {
                    &&& final(self).allocs@ == old(self).allocs@
                    &&& start >= end
                },
                Err(AllocError::Validation(ValidationFault::UnknownSystem)) => {
                    &&& final(self).allocs@ == old(self).allocs@
                    &&& start < end
                    &&& lookup_system(old(self).systems@, system) is None
                },
                Err(AllocError::Store(StoreFault::DuplicateId)) => {
                    &&& final(self).allocs@ == old(self).allocs@
                    &&& start < end
                    &&& lookup_system(old(self).systems@, system) is Some
                    &&& !outage_conflict(
                        old(self).allocs@,
                        system,
                        start as int,
                        end as int,
                        capabilities.bits,
                        true,
                    )
                    &&& old(self).allocs@.len() > 0
                },
                Err(AllocError::Conflict(e)) => {
                    &&& final(self).allocs@ == old(self).allocs@
                    &&& start < end
                    &&& lookup_system(old(self).systems@, system) is Some
                    &&& outage_conflict(
                        old(self).allocs@,
                        system,
                        start as int,
                        end as int,
                        capabilities.bits,
                        true,
                    )
                    &&& span_conflict_report(
                        old(self).allocs@,
                        system,
                        start as int,
                        end as int,
                        capabilities.bits,
                        true,
                        ConflictRule::CapabilityExclusivity,
                        e,
                    )
                },
                _ => false,
            },
    {
        let id = fresh_id();
        self.insert_planned_capability_outage_with_id(id, system, capabilities, start, end)
    }
}

/// Relies on uuid::Uuid::new_v4 for a freshly drawn random version-4 UUID,
/// handed back as its 128-bit value. Nothing is promised of the value; a
/// caller checks itself that the identity is not already in use.
#[verifier::external_body]
fn fresh_id() -> u128 {
    uuid::Uuid::new_v4().as_u128()
}

} // verus!
