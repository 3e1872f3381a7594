//! The sliding-window reaper: one cycle scans every active unplanned outage
//! and forcibly evicts each planned allocation (an entry or a planned
//! outage) whose interval overlaps such an outage's sliding window. This is
//! the one place deletion bypasses caller consent. A cycle is idempotent:
//! over the survivors of a cycle, a second cycle evicts nothing.
//!
//! The recurring loop around cycles, with its start and stop, is a plain
//! scheduled task of the caller; one cycle is the whole of its logic.

use vstd::prelude::*;

use crate::model::Allocation;
use crate::model::AllocationKind;
use crate::model::entry_count_on;
use crate::model::lemma_count_push;
use crate::model::lookup_system;
use crate::model::spans_overlap;
use crate::model::unique_alloc_ids;
use crate::service::SystemAllocation;
use crate::service::alloc_wf;
use crate::service::caps_ok;

verus! {

/// An active unplanned outage; its record interval is its sliding window.
pub open spec fn is_unplanned_outage(a: Allocation) -> bool {
    a.kind == AllocationKind::Full && !a.planned
}

/// The reaper must evict `a`: it is planned and overlaps the sliding window
/// of some unplanned outage of `full` on the same system.
pub open spec fn evictable(full: Seq<Allocation>, a: Allocation) -> bool {
    a.planned && exists|i: int|
        0 <= i < full.len() && is_unplanned_outage(#[trigger] full[i]) && full[i].system == a.system
            && spans_overlap(
            a.start as int,
            a.end as int,
            full[i].start as int,
            full[i].end as int,
        )
}

/// What one reaper cycle leaves of `s`, judging each record against the
/// sliding windows recorded in `full`.
pub open spec fn survivors(s: Seq<Allocation>, full: Seq<Allocation>) -> Seq<Allocation>
    decreases s.len(),
{
    if s.len() == 0 {
        s
    } else {
        let rest = survivors(s.drop_last(), full);
        if evictable(full, s.last()) {
            rest
        } else {
            rest.push(s.last())
        }
    }
}

proof fn lemma_survivors_take_step(s: Seq<Allocation>, full: Seq<Allocation>, i: int)
    requires
        0 <= i < s.len(),
    ensures
        survivors(s.take(i + 1), full) == if evictable(full, s[i]) {
            survivors(s.take(i), full)
        } else {
            survivors(s.take(i), full).push(s[i])
        },
{
    assert(s.take(i + 1).drop_last() =~= s.take(i));
    assert(s.take(i + 1).last() == s[i]);
}

/// Every survivor is an element of the scanned sequence.
proof fn lemma_survivors_member(s: Seq<Allocation>, full: Seq<Allocation>)
    ensures
        forall|k: int|
            0 <= k < survivors(s, full).len() ==> s.contains(#[trigger] survivors(s, full)[k]),
    decreases s.len(),
{
    if s.len() > 0 {
        lemma_survivors_member(s.drop_last(), full);
        let rest = survivors(s.drop_last(), full);
        let sv = survivors(s, full);
        assert forall|k: int| 0 <= k < sv.len() implies s.contains(#[trigger] sv[k]) by {
            if k < rest.len() {
                assert(sv[k] == rest[k]);
                assert(s.drop_last().contains(rest[k]));
                let j = choose|j: int|
                    0 <= j < s.drop_last().len() && s.drop_last()[j] == rest[k];
                assert(s[j] == sv[k]);
            } else {
                assert(sv[k] == s.last());
                assert(s[s.len() - 1] == s.last());
            }
        }
    }
}

/// No survivor is evictable under the windows it was judged against.
proof fn lemma_survivors_sound(s: Seq<Allocation>, full: Seq<Allocation>)
    ensures
        forall|k: int|
            0 <= k < survivors(s, full).len() ==> !evictable(
                full,
                #[trigger] survivors(s, full)[k],
            ),
    decreases s.len(),
{
    if s.len() > 0 {
        lemma_survivors_sound(s.drop_last(), full);
        let rest = survivors(s.drop_last(), full);
        let sv = survivors(s, full);
        assert forall|k: int| 0 <= k < sv.len() implies !evictable(full, #[trigger] sv[k]) by {
            if k < rest.len() {
                assert(sv[k] == rest[k]);
            }
        }
    }
}

/// Every record that is not evictable survives.
proof fn lemma_survivors_complete(s: Seq<Allocation>, full: Seq<Allocation>)
    ensures
        forall|j: int|
            0 <= j < s.len() && !evictable(full, #[trigger] s[j]) ==> survivors(s, full).contains(
                s[j],
            ),
    decreases s.len(),
{
    if s.len() > 0 {
        lemma_survivors_complete(s.drop_last(), full);
        let rest = survivors(s.drop_last(), full);
        let sv = survivors(s, full);
        assert forall|j: int|
            0 <= j < s.len() && !evictable(full, #[trigger] s[j]) implies sv.contains(s[j]) by {
            if j < s.len() - 1 {
                assert(s.drop_last()[j] == s[j]);
                assert(rest.contains(s[j]));
                let k = choose|k: int| 0 <= k < rest.len() && rest[k] == s[j];
                if !evictable(full, s.last()) {
                    assert(sv[k] == rest[k]);
                } else {
                    assert(sv == rest);
                }
            } else {
                assert(s[j] == s.last());
                assert(!evictable(full, s.last()));
                assert(sv[rest.len() as int] == s.last());
            }
        }
    }
}

/// Distinct identities stay distinct across a cycle.
proof fn lemma_survivors_unique(s: Seq<Allocation>, full: Seq<Allocation>)
    requires
        unique_alloc_ids(s),
    ensures
        unique_alloc_ids(survivors(s, full)),
    decreases s.len(),
{
    if s.len() > 0 {
        assert(forall|i: int, j: int|
            0 <= i < j < s.drop_last().len() ==> s.drop_last()[i] == s[i] && s.drop_last()[j]
                == s[j]);
        lemma_survivors_unique(s.drop_last(), full);
        lemma_survivors_member(s.drop_last(), full);
        let rest = survivors(s.drop_last(), full);
        let sv = survivors(s, full);
        if !evictable(full, s.last()) {
            assert forall|k: int| 0 <= k < rest.len() implies rest[k].id != s.last().id by {
                assert(s.drop_last().contains(rest[k]));
                let j = choose|j: int|
                    0 <= j < s.drop_last().len() && s.drop_last()[j] == rest[k];
                assert(s[j] == rest[k]);
                assert(s[j].id != s[s.len() - 1].id);
                assert(s[s.len() - 1] == s.last());
            }
            assert forall|i: int, j: int| 0 <= i < j < sv.len() implies sv[i].id != sv[j].id by {
                if j < rest.len() {
                } else {
                    assert(sv[j] == s.last());
                    assert(sv[i] == rest[i]);
                }
            }
        }
    }
}

/// A cycle never raises an entry count.
proof fn lemma_survivors_count_le(
    s: Seq<Allocation>,
    full: Seq<Allocation>,
    sys: u128,
    t: int,
    c: u32,
)
    ensures
        entry_count_on(survivors(s, full), sys, t, c) <= entry_count_on(s, sys, t, c),
    decreases s.len(),
{
    if s.len() > 0 {
        lemma_survivors_count_le(s.drop_last(), full, sys, t, c);
        let rest = survivors(s.drop_last(), full);
        if evictable(full, s.last()) {
            assert(survivors(s, full) == rest);
        } else {
            lemma_count_push(rest, s.last(), sys, t, c);
        }
    }
}

/// A sequence with nothing evictable survives a cycle unchanged.
proof fn lemma_survivors_all_kept(s: Seq<Allocation>, full: Seq<Allocation>)
    requires
        forall|j: int| 0 <= j < s.len() ==> !evictable(full, #[trigger] s[j]),
    ensures
        survivors(s, full) == s,
    decreases s.len(),
{
    if s.len() > 0 {
        assert(forall|j: int| 0 <= j < s.drop_last().len() ==> s.drop_last()[j] == s[j]);
        lemma_survivors_all_kept(s.drop_last(), full);
        assert(s[s.len() - 1] == s.last());
        assert(!evictable(full, s.last()));
        assert(s.drop_last().push(s.last()) =~= s);
    }
}

/// A cycle keeps every unplanned outage, so the windows it enforces are the
/// same before and after: a record is evictable under the survivors exactly
/// when it was evictable under the whole sequence before the cycle.
proof fn lemma_evictable_unchanged(s: Seq<Allocation>, a: Allocation)
    ensures
        evictable(survivors(s, s), a) == evictable(s, a),
{
    lemma_survivors_member(s, s);
    lemma_survivors_complete(s, s);
    let sv = survivors(s, s);
    if evictable(sv, a) {
        let i = choose|i: int|
            0 <= i < sv.len() && is_unplanned_outage(#[trigger] sv[i]) && sv[i].system == a.system
                && spans_overlap(
                a.start as int,
                a.end as int,
                sv[i].start as int,
                sv[i].end as int,
            );
        assert(s.contains(sv[i]));
        let j = choose|j: int| 0 <= j < s.len() && s[j] == sv[i];
        assert(evictable(s, a));
    }
    if evictable(s, a) {
        let i = choose|i: int|
            0 <= i < s.len() && is_unplanned_outage(#[trigger] s[i]) && s[i].system == a.system
                && spans_overlap(
                a.start as int,
                a.end as int,
                s[i].start as int,
                s[i].end as int,
            );
        assert(!evictable(s, s[i]));
        assert(sv.contains(s[i]));
        let k = choose|k: int| 0 <= k < sv.len() && sv[k] == s[i];
        assert(evictable(sv, a));
    }
}

/// Reaper idempotence: over the survivors of one cycle, with no new
/// allocations inside any active window meanwhile, a second cycle evicts
/// nothing.
pub proof fn lemma_reaper_idempotent(s: Seq<Allocation>)
    ensures
        survivors(survivors(s, s), survivors(s, s)) == survivors(s, s),
{
    let sv = survivors(s, s);
    lemma_survivors_sound(s, s);
    assert forall|k: int| 0 <= k < sv.len() implies !evictable(sv, #[trigger] sv[k]) by {
        lemma_evictable_unchanged(s, sv[k]);
    }
    lemma_survivors_all_kept(sv, sv);
}

/// Whether the reaper must evict `a`, given the full record sequence.
pub fn is_evictable(s: &Vec<Allocation>, a: &Allocation) -> (b: bool)
    ensures
        b == evictable(s@, *a),
{
    if !a.planned {
        return false;
    }
    let mut i: usize = 0;
    while i < s.len()
        invariant
            i <= s@.len(),
            a.planned,
            forall|ii: int|
                0 <= ii < i ==> !(is_unplanned_outage(#[trigger] s@[ii]) && s@[ii].system
                    == a.system && spans_overlap(
                    a.start as int,
                    a.end as int,
                    s@[ii].start as int,
                    s@[ii].end as int,
                )),
        decreases s@.len() - i,
    {
        let u = s[i];
        if u.kind == AllocationKind::Full && !u.planned && u.system == a.system && a.start < u.end
            && u.start < a.end {
            return true;
        }
        i += 1;
    }
    false
}

impl SystemAllocation {
    /// Run one reaper cycle: forcibly delete every planned allocation that
    /// overlaps the sliding window of an active unplanned outage, and hand
    /// back how many records were evicted.
    pub fn run_cycle(&mut self) -> (n: usize)
        requires
            old(self).wf(),
        ensures
            final(self).wf(),
            final(self).systems@ == old(self).systems@,
            final(self).allocs@ == survivors(old(self).allocs@, old(self).allocs@),
            n + final(self).allocs@.len() == old(self).allocs@.len(),
    {
        let ghost orig = self.allocs@;
        let mut kept: Vec<Allocation> = Vec::new();
        let mut i: usize = 0;
        while i < self.allocs.len()
            invariant
                i <= self.allocs@.len(),
                self.allocs@ == orig,
                kept@ == survivors(orig.take(i as int), orig),
                kept@.len() <= i,
            decreases self.allocs@.len() - i,
        {
            let a = self.allocs[i];
            proof {
                lemma_survivors_take_step(orig, orig, i as int);
            }
            let ev = is_evictable(&self.allocs, &a);
            if !ev {
                kept.push(a);
            }
            i += 1;
        }
        proof {
            assert(orig.take(orig.len() as int) =~= orig);
        }
        let n = self.allocs.len() - kept.len();
        self.allocs = kept;
        proof {
            let sv = self.allocs@;
            lemma_survivors_member(orig, orig);
            lemma_survivors_unique(orig, orig);
            assert forall|k: int| 0 <= k < sv.len() implies alloc_wf(#[trigger] sv[k]) by {
                assert(orig.contains(sv[k]));
                let j = choose|j: int| 0 <= j < orig.len() && orig[j] == sv[k];
                assert(alloc_wf(orig[j]));
            }
            assert forall|k: int|
                0 <= k < sv.len() implies lookup_system(
                self.systems@,
                (#[trigger] sv[k]).system,
            ) is Some by {
                assert(orig.contains(sv[k]));
                let j = choose|j: int| 0 <= j < orig.len() && orig[j] == sv[k];
                assert(lookup_system(self.systems@, orig[j].system) is Some);
            }
            assert forall|j: int, t: int, c: u32|
                0 <= j < self.systems@.len() implies #[trigger] entry_count_on(
                sv,
                self.systems@[j].id,
                t,
                c,
            ) <= self.systems@[j].capacity by {
                lemma_survivors_count_le(orig, orig, self.systems@[j].id, t, c);
                assert(entry_count_on(orig, self.systems@[j].id, t, c)
                    <= self.systems@[j].capacity);
            }
        }
        n
    }
}

} // verus!
