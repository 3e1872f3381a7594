//! The data model: systems, allocation records, errors, and the spec-level
//! counting machinery that the conflict rules are stated over.
//!
//! All instants are absolute points on one timeline, held as `i64` values.
//! Every interval is half-open: `[start, end)`. For an unplanned full outage
//! the interval `[start, end)` is the forward sliding window.

use vstd::prelude::*;

use crate::caps::Capabilities;

verus! {

/// What an allocation record occupies.
#[derive(Clone, Copy, PartialEq, Eq, Structural, Debug)]
pub enum AllocationKind {
    /// Actual work occupying capacity on a subset of capabilities.
    Entry,
    /// An outage blocking every capability of the system.
    Full,
    /// An outage blocking only the capabilities in its mask.
    Capability,
}

/// One record occupying time on a system.
///
/// `planned` is true for entries and planned outages, false for unplanned
/// full outages. For an unplanned full outage, `end` is the end of the
/// forward sliding window, `start + window`.
#[derive(Clone, Copy, PartialEq, Eq, Structural, Debug)]
pub struct Allocation {
    pub id: u128,
    pub system: u128,
    pub kind: AllocationKind,
    pub planned: bool,
    pub start: i64,
    pub end: i64,
    pub mask: Capabilities,
}

/// A registered system: identity, capacity, and the capabilities it serves.
#[derive(Clone, Copy, PartialEq, Eq, Structural, Debug)]
pub struct SystemInfo {
    pub id: u128,
    pub capacity: i32,
    pub capabilities: Capabilities,
}

/// An input rejected before any conflict check.
#[derive(Clone, Copy, PartialEq, Eq, Structural, Debug)]
pub enum ValidationFault {
    /// An interval with `start >= end`.
    EmptyInterval,
    /// A sliding window that is not positive or runs past the end of time.
    BadWindow,
    /// A capacity below one.
    NonPositiveCapacity,
    /// An operation naming a system that was never declared.
    UnknownSystem,
}

/// Which conflict rule rejected an insertion.
#[derive(Clone, Copy, PartialEq, Eq, Structural, Debug)]
pub enum ConflictRule {
    /// An instant in the candidate interval is already held by as many
    /// entries as the system's capacity allows, on a shared capability.
    CapacityExceeded,
    /// The candidate overlaps a planned full outage, or is a full outage
    /// overlapping existing allocations.
    FullOutageExclusivity,
    /// The candidate shares a capability with an overlapping capability
    /// outage, or is a capability outage over occupied capabilities.
    CapabilityExclusivity,
    /// The candidate falls in the sliding window of an unplanned outage,
    /// or is an unplanned outage whose window is occupied.
    SlidingWindowOccupied,
}

/// A rejected insertion, carrying every offending allocation identity.
#[derive(Clone, Debug)]
pub struct ConflictError {
    pub rule: ConflictRule,
    pub offenders: Vec<u128>,
}

/// A failure of the backing record store.
#[derive(Clone, Copy, PartialEq, Eq, Structural, Debug)]
pub enum StoreFault {
    /// A record with the same identity already exists.
    DuplicateId,
}

/// Everything an insertion can fail with.
#[derive(Clone, Debug)]
pub enum AllocError {
    Validation(ValidationFault),
    Conflict(ConflictError),
    Store(StoreFault),
}

/// Two half-open intervals share at least one instant.
pub open spec fn spans_overlap(s1: int, e1: int, s2: int, e2: int) -> bool {
    s1 < e2 && s2 < e1
}

/// Bit `c` of mask `m` is set.
pub open spec fn bit_set(m: u32, c: u32) -> bool {
    c < 32 && (m >> c) & 1u32 == 1u32
}

/// The two masks share at least one capability.
pub open spec fn masks_intersect(m1: u32, m2: u32) -> bool {
    m1 & m2 != 0u32
}

/// The allocation's interval contains the instant `t`.
pub open spec fn alloc_covers(a: Allocation, t: int) -> bool {
    a.start <= t && t < a.end
}

/// The allocation is an entry on system `sys` occupying capability `c` at
/// instant `t`, and so counts toward that system's capacity there.
pub open spec fn counts_toward(a: Allocation, sys: u128, t: int, c: u32) -> bool {
    a.system == sys && a.kind == AllocationKind::Entry && alloc_covers(a, t) && bit_set(
        a.mask.bits,
        c,
    )
}

/// How many entries of `s` occupy capability `c` on system `sys` at `t`.
pub open spec fn entry_count_on(s: Seq<Allocation>, sys: u128, t: int, c: u32) -> int
    decreases s.len(),
{
    if s.len() == 0 {
        0
    } else {
        entry_count_on(s.drop_last(), sys, t, c) + (if counts_toward(s.last(), sys, t, c) {
            1int
        } else {
            0int
        })
    }
}

/// No two allocations share an identity.
pub open spec fn unique_alloc_ids(s: Seq<Allocation>) -> bool {
    forall|i: int, j: int| 0 <= i < j < s.len() ==> s[i].id != s[j].id
}

/// No two systems share an identity.
pub open spec fn unique_system_ids(ss: Seq<SystemInfo>) -> bool {
    forall|i: int, j: int| 0 <= i < j < ss.len() ==> ss[i].id != ss[j].id
}

/// The system of `ss` with identity `id`, if one was declared.
pub open spec fn lookup_system(ss: Seq<SystemInfo>, id: u128) -> Option<SystemInfo>
    decreases ss.len(),
{
    if ss.len() == 0 {
        None
    } else if ss.last().id == id {
        Some(ss.last())
    } else {
        lookup_system(ss.drop_last(), id)
    }
}

pub proof fn lemma_count_take_step(s: Seq<Allocation>, sys: u128, t: int, c: u32, i: int)
    requires
        0 <= i < s.len(),
    ensures
        entry_count_on(s.take(i + 1), sys, t, c) == entry_count_on(s.take(i), sys, t, c) + (
        if counts_toward(s[i], sys, t, c) {
            1int
        } else {
            0int
        }),
{
    assert(s.take(i + 1).drop_last() =~= s.take(i));
    assert(s.take(i + 1).last() == s[i]);
}

pub proof fn lemma_count_take_full(s: Seq<Allocation>, sys: u128, t: int, c: u32)
    ensures
        entry_count_on(s.take(s.len() as int), sys, t, c) == entry_count_on(s, sys, t, c),
{
    assert(s.take(s.len() as int) =~= s);
}

pub proof fn lemma_count_push(s: Seq<Allocation>, a: Allocation, sys: u128, t: int, c: u32)
    ensures
        entry_count_on(s.push(a), sys, t, c) == entry_count_on(s, sys, t, c) + (if counts_toward(
            a,
            sys,
            t,
            c,
        ) {
            1int
        } else {
            0int
        }),
{
    assert(s.push(a).drop_last() =~= s);
    assert(s.push(a).last() == a);
}

/// A count of at least one names a witness entry.
pub proof fn lemma_count_pos_witness(s: Seq<Allocation>, sys: u128, t: int, c: u32)
    requires
        entry_count_on(s, sys, t, c) >= 1,
    ensures
        exists|i: int| 0 <= i < s.len() && counts_toward(s[i], sys, t, c),
    decreases s.len(),
{
    if counts_toward(s.last(), sys, t, c) {
        assert(s[s.len() - 1] == s.last());
    } else {
        lemma_count_pos_witness(s.drop_last(), sys, t, c);
        let i = choose|i: int|
            0 <= i < s.drop_last().len() && counts_toward(s.drop_last()[i], sys, t, c);
        assert(s.drop_last()[i] == s[i]);
    }
}

/// If no element counts toward `(sys, t, c)`, the count there is zero.
pub proof fn lemma_count_zero(s: Seq<Allocation>, sys: u128, t: int, c: u32)
    requires
        forall|i: int| 0 <= i < s.len() ==> !counts_toward(s[i], sys, t, c),
    ensures
        entry_count_on(s, sys, t, c) == 0,
    decreases s.len(),
{
    if s.len() > 0 {
        assert(s.last() == s[s.len() - 1]);
        assert(forall|i: int|
            0 <= i < s.drop_last().len() ==> s.drop_last()[i] == s[i]
                && !counts_toward(s.drop_last()[i], sys, t, c));
        lemma_count_zero(s.drop_last(), sys, t, c);
    }
}

/// Counting is monotone between two instants when every entry occupying the
/// first also occupies the second.
pub proof fn lemma_count_mono_time(s: Seq<Allocation>, sys: u128, t1: int, t2: int, c: u32)
    requires
        forall|i: int|
            0 <= i < s.len() && counts_toward(s[i], sys, t1, c) ==> counts_toward(s[i], sys, t2, c),
    ensures
        entry_count_on(s, sys, t1, c) <= entry_count_on(s, sys, t2, c),
    decreases s.len(),
{
    if s.len() > 0 {
        assert(forall|i: int|
            0 <= i < s.drop_last().len() && counts_toward(s.drop_last()[i], sys, t1, c)
                ==> s.drop_last()[i] == s[i] && counts_toward(s.drop_last()[i], sys, t2, c));
        lemma_count_mono_time(s.drop_last(), sys, t1, t2, c);
        assert(s.last() == s[s.len() - 1]);
    }
}

pub proof fn lemma_lookup_some(ss: Seq<SystemInfo>, id: u128, j: int)
    requires
        unique_system_ids(ss),
        0 <= j < ss.len(),
        ss[j].id == id,
    ensures
        lookup_system(ss, id) == Some(ss[j]),
    decreases ss.len(),
{
    if j == ss.len() - 1 {
        assert(ss.last() == ss[j]);
    } else {
        assert(ss.last() == ss[ss.len() - 1]);
        assert(ss.last().id != id);
        assert(ss.drop_last()[j] == ss[j]);
        assert(forall|i1: int, i2: int|
            0 <= i1 < i2 < ss.drop_last().len() ==> ss.drop_last()[i1] == ss[i1]
                && ss.drop_last()[i2] == ss[i2]);
        lemma_lookup_some(ss.drop_last(), id, j);
    }
}

pub proof fn lemma_lookup_none(ss: Seq<SystemInfo>, id: u128)
    requires
        forall|j: int| 0 <= j < ss.len() ==> ss[j].id != id,
    ensures
        lookup_system(ss, id) == None::<SystemInfo>,
    decreases ss.len(),
{
    if ss.len() > 0 {
        assert(ss.last() == ss[ss.len() - 1]);
        assert(forall|j: int| 0 <= j < ss.drop_last().len() ==> ss.drop_last()[j] == ss[j]);
        lemma_lookup_none(ss.drop_last(), id);
    }
}

/// A found system is an element of the sequence.
pub proof fn lemma_lookup_member(ss: Seq<SystemInfo>, id: u128)
    requires
        lookup_system(ss, id) is Some,
    ensures
        exists|j: int|
            0 <= j < ss.len() && ss[j] == lookup_system(ss, id)->Some_0 && ss[j].id == id,
    decreases ss.len(),
{
    if ss.len() > 0 {
        if ss.last().id == id {
            assert(ss[ss.len() - 1] == ss.last());
        } else {
            lemma_lookup_member(ss.drop_last(), id);
            let j = choose|j: int|
                0 <= j < ss.drop_last().len() && ss.drop_last()[j] == lookup_system(
                    ss.drop_last(),
                    id,
                )->Some_0 && ss.drop_last()[j].id == id;
            assert(ss.drop_last()[j] == ss[j]);
        }
    }
}

} // verus!
