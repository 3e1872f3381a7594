//! The conflict evaluator: pure logic deciding whether a candidate interval
//! may be inserted against a system's capacity and its existing allocations.
//!
//! For an entry candidate the capacity rule is checked by an interval sweep:
//! within the candidate interval, the per-capability count of overlapping
//! entries can only reach its maximum at the candidate's start or at the
//! start of some overlapping entry (an "anchor"), because moving an instant
//! left to the latest such start below it loses no covering entry. So it is
//! enough to count at the anchors.
//!
//! On conflict the evaluator names the exact set of offending allocation
//! identities, never a bare boolean.

use vstd::prelude::*;

use crate::model::Allocation;
use crate::model::AllocationKind;
use crate::model::ConflictError;
use crate::model::ConflictRule;
use crate::model::bit_set;
use crate::model::counts_toward;
use crate::model::entry_count_on;
use crate::model::lemma_count_pos_witness;
use crate::model::lemma_count_mono_time;
use crate::model::lemma_count_take_full;
use crate::model::lemma_count_take_step;
use crate::model::lemma_count_zero;
use crate::model::masks_intersect;
use crate::model::spans_overlap;
use crate::model::unique_alloc_ids;

verus! {

/// An existing allocation blocks an entry candidate `[cs, ce)` with mask `m`
/// on system `sys` outright: a planned full outage overlapping it, an
/// unplanned outage whose sliding window holds the candidate's start, or a
/// capability outage overlapping it on a shared capability.
pub open spec fn entry_blocked(a: Allocation, sys: u128, cs: int, ce: int, m: u32) -> bool {
    a.system == sys && ((a.kind == AllocationKind::Full && a.planned && spans_overlap(
        a.start as int,
        a.end as int,
        cs,
        ce,
    )) || (a.kind == AllocationKind::Full && !a.planned && a.start <= cs && cs < a.end) || (a.kind
        == AllocationKind::Capability && spans_overlap(a.start as int, a.end as int, cs, ce)
        && masks_intersect(a.mask.bits, m)))
}

/// At instant `t` and capability `c`, the entry `s[i]` takes part in filling
/// system `sys` to capacity `cap` against a candidate with mask `m`.
pub open spec fn cap_hit(
    s: Seq<Allocation>,
    i: int,
    sys: u128,
    cap: int,
    t: int,
    c: u32,
    m: u32,
) -> bool {
    bit_set(m, c) && counts_toward(s[i], sys, t, c) && entry_count_on(s, sys, t, c) >= cap
}

/// The entry `s[i]` takes part in a capacity conflict somewhere in `[cs, ce)`.
pub open spec fn entry_cap_blames(
    s: Seq<Allocation>,
    i: int,
    sys: u128,
    cap: int,
    cs: int,
    ce: int,
    m: u32,
) -> bool {
    exists|t: int, c: u32| cs <= t < ce && cap_hit(s, i, sys, cap, t, c, m)
}

/// The allocation `s[i]` is an offender against the entry candidate.
pub open spec fn entry_blames(
    s: Seq<Allocation>,
    i: int,
    sys: u128,
    cap: int,
    cs: int,
    ce: int,
    m: u32,
) -> bool {
    entry_blocked(s[i], sys, cs, ce, m) || entry_cap_blames(s, i, sys, cap, cs, ce, m)
}

/// Some instant of `[cs, ce)` is already held by `cap` entries on a
/// capability of the candidate mask.
pub open spec fn entry_capacity_conflict(
    s: Seq<Allocation>,
    sys: u128,
    cap: int,
    cs: int,
    ce: int,
    m: u32,
) -> bool {
    exists|t: int, c: u32| cs <= t < ce && bit_set(m, c) && entry_count_on(s, sys, t, c) >= cap
}

/// Some existing outage blocks the entry candidate outright.
pub open spec fn entry_outage_conflict(
    s: Seq<Allocation>,
    sys: u128,
    cs: int,
    ce: int,
    m: u32,
) -> bool {
    exists|i: int| 0 <= i < s.len() && entry_blocked(s[i], sys, cs, ce, m)
}

/// The entry candidate `[cs, ce)` with mask `m` may not be inserted.
pub open spec fn entry_conflict(
    s: Seq<Allocation>,
    sys: u128,
    cap: int,
    cs: int,
    ce: int,
    m: u32,
) -> bool {
    entry_outage_conflict(s, sys, cs, ce, m) || entry_capacity_conflict(s, sys, cap, cs, ce, m)
}

/// The allocation offends an outage candidate over the span `[ws, we)` on
/// system `sys`: it overlaps the span, and, when `use_mask` is set, shares a
/// capability with `m`.
pub open spec fn span_blames(
    a: Allocation,
    sys: u128,
    ws: int,
    we: int,
    m: u32,
    use_mask: bool,
) -> bool {
    a.system == sys && spans_overlap(a.start as int, a.end as int, ws, we) && (use_mask
        ==> masks_intersect(a.mask.bits, m))
}

/// Some existing allocation offends the outage candidate.
pub open spec fn outage_conflict(
    s: Seq<Allocation>,
    sys: u128,
    ws: int,
    we: int,
    m: u32,
    use_mask: bool,
) -> bool {
    exists|i: int| 0 <= i < s.len() && span_blames(s[i], sys, ws, we, m, use_mask)
}

/// A sound and complete conflict report for an entry candidate: the
/// offenders are exactly the identities of the blamed allocations, free of
/// duplicates, and the named rule did fail.
pub open spec fn entry_conflict_report(
    s: Seq<Allocation>,
    sys: u128,
    cap: int,
    cs: int,
    ce: int,
    m: u32,
    e: ConflictError,
) -> bool {
    &&& e.offenders@.len() > 0
    &&& e.offenders@.no_duplicates()
    &&& forall|id: u128|
        e.offenders@.contains(id) <==> exists|i: int|
            0 <= i < s.len() && entry_blames(s, i, sys, cap, cs, ce, m) && s[i].id == id
    &&& entry_rule_holds(s, sys, cap, cs, ce, m, e.rule)
}

/// A sound and complete conflict report for an outage candidate over the
/// span `[ws, we)`: the offenders are exactly the identities of the
/// allocations that offend the span, free of duplicates, under the given
/// rule.
pub open spec fn span_conflict_report(
    s: Seq<Allocation>,
    sys: u128,
    ws: int,
    we: int,
    m: u32,
    use_mask: bool,
    rule: ConflictRule,
    e: ConflictError,
) -> bool {
    &&& e.rule == rule
    &&& e.offenders@.len() > 0
    &&& e.offenders@.no_duplicates()
    &&& forall|id: u128|
        e.offenders@.contains(id) <==> exists|i: int|
            0 <= i < s.len() && span_blames(s[i], sys, ws, we, m, use_mask) && s[i].id == id
}

/// Which conflict the reported rule claims, for an entry candidate.
pub open spec fn entry_rule_holds(
    s: Seq<Allocation>,
    sys: u128,
    cap: int,
    cs: int,
    ce: int,
    m: u32,
    rule: ConflictRule,
) -> bool {
    match rule {
        ConflictRule::SlidingWindowOccupied => exists|i: int|
            0 <= i < s.len() && s[i].system == sys && s[i].kind == AllocationKind::Full
                && !s[i].planned && s[i].start <= cs && cs < s[i].end,
        ConflictRule::FullOutageExclusivity => exists|i: int|
            0 <= i < s.len() && s[i].system == sys && s[i].kind == AllocationKind::Full
                && s[i].planned && spans_overlap(s[i].start as int, s[i].end as int, cs, ce),
        ConflictRule::CapabilityExclusivity => exists|i: int|
            0 <= i < s.len() && s[i].system == sys && s[i].kind == AllocationKind::Capability
                && spans_overlap(s[i].start as int, s[i].end as int, cs, ce) && masks_intersect(
                s[i].mask.bits,
                m,
            ),
        ConflictRule::CapacityExceeded => entry_capacity_conflict(s, sys, cap, cs, ce, m),
    }
}

/// The latest start, at most `t`, among entries of `s` on `sys` that occupy
/// capability `c` at `t`; `lo` when no such entry starts after `lo`.
pub open spec fn best_start(s: Seq<Allocation>, sys: u128, t: int, c: u32, lo: int) -> int
    decreases s.len(),
{
    if s.len() == 0 {
        lo
    } else {
        let rest = best_start(s.drop_last(), sys, t, c, lo);
        if counts_toward(s.last(), sys, t, c) && s.last().start > rest {
            s.last().start as int
        } else {
            rest
        }
    }
}

proof fn lemma_best_start(s: Seq<Allocation>, sys: u128, t: int, c: u32, lo: int)
    requires
        lo <= t,
    ensures
        lo <= best_start(s, sys, t, c, lo),
        best_start(s, sys, t, c, lo) <= t,
        forall|i: int|
            0 <= i < s.len() && counts_toward(s[i], sys, t, c) ==> s[i].start <= best_start(
                s,
                sys,
                t,
                c,
                lo,
            ),
        best_start(s, sys, t, c, lo) == lo || exists|i: int|
            0 <= i < s.len() && counts_toward(s[i], sys, t, c) && s[i].start == best_start(
                s,
                sys,
                t,
                c,
                lo,
            ),
    decreases s.len(),
{
    if s.len() > 0 {
        lemma_best_start(s.drop_last(), sys, t, c, lo);
        let rest = best_start(s.drop_last(), sys, t, c, lo);
        let best = best_start(s, sys, t, c, lo);
        assert(s.last() == s[s.len() - 1]);
        assert(forall|i: int| 0 <= i < s.len() - 1 ==> s.drop_last()[i] == s[i]);
        if counts_toward(s.last(), sys, t, c) && s.last().start > rest {
            assert(best == s.last().start);
        } else {
            assert(best == rest);
            if rest != lo {
                let i = choose|i: int|
                    0 <= i < s.drop_last().len() && counts_toward(s.drop_last()[i], sys, t, c)
                        && s.drop_last()[i].start == rest;
                assert(s[i] == s.drop_last()[i]);
            }
        }
    }
}

/// Any saturated instant inside the candidate interval can be moved left to
/// an anchor (the candidate start or the start of a participating entry)
/// without losing any of the entries covering it.
proof fn lemma_saturation_at_anchor(s: Seq<Allocation>, sys: u128, cs: int, ce: int, t: int, c: u32)
    requires
        cs <= t < ce,
    ensures
        ({
            let t2 = best_start(s, sys, t, c, cs);
            &&& cs <= t2 <= t
            &&& t2 < ce
            &&& entry_count_on(s, sys, t, c) <= entry_count_on(s, sys, t2, c)
            &&& forall|i: int|
                0 <= i < s.len() && counts_toward(s[i], sys, t, c) ==> counts_toward(
                    s[i],
                    sys,
                    t2,
                    c,
                )
            &&& (t2 == cs || exists|i: int|
                0 <= i < s.len() && counts_toward(s[i], sys, t, c) && s[i].start == t2)
        }),
{
    lemma_best_start(s, sys, t, c, cs);
    let t2 = best_start(s, sys, t, c, cs);
    assert forall|i: int|
        0 <= i < s.len() && counts_toward(s[i], sys, t, c) implies counts_toward(
        s[i],
        sys,
        t2,
        c,
    ) by {
        assert(s[i].start <= t2);
        assert(t2 <= t < s[i].end);
    }
    lemma_count_mono_time(s, sys, t, t2, c);
}

/// Every conflict names at least one offender.
proof fn lemma_conflict_has_blamed(
    s: Seq<Allocation>,
    sys: u128,
    cap: int,
    cs: int,
    ce: int,
    m: u32,
)
    requires
        cap >= 1,
        entry_conflict(s, sys, cap, cs, ce, m),
    ensures
        exists|i: int| 0 <= i < s.len() && entry_blames(s, i, sys, cap, cs, ce, m),
{
    if entry_outage_conflict(s, sys, cs, ce, m) {
        let i = choose|i: int| 0 <= i < s.len() && entry_blocked(s[i], sys, cs, ce, m);
        assert(entry_blames(s, i, sys, cap, cs, ce, m));
    } else {
        let (t, c) = choose|t: int, c: u32|
            cs <= t < ce && bit_set(m, c) && entry_count_on(s, sys, t, c) >= cap;
        lemma_count_pos_witness(s, sys, t, c);
        let k = choose|k: int| 0 <= k < s.len() && counts_toward(s[k], sys, t, c);
        assert(cap_hit(s, k, sys, cap, t, c, m));
        assert(entry_cap_blames(s, k, sys, cap, cs, ce, m));
        assert(entry_blames(s, k, sys, cap, cs, ce, m));
    }
}

/// Every offender witnesses a conflict.
proof fn lemma_blamed_implies_conflict(
    s: Seq<Allocation>,
    sys: u128,
    cap: int,
    cs: int,
    ce: int,
    m: u32,
    i: int,
)
    requires
        0 <= i < s.len(),
        entry_blames(s, i, sys, cap, cs, ce, m),
    ensures
        entry_conflict(s, sys, cap, cs, ce, m),
{
    if entry_blocked(s[i], sys, cs, ce, m) {
        assert(entry_outage_conflict(s, sys, cs, ce, m));
    } else {
        let (t, c) = choose|t: int, c: u32| cs <= t < ce && cap_hit(s, i, sys, cap, t, c, m);
        assert(entry_capacity_conflict(s, sys, cap, cs, ce, m));
    }
}

proof fn lemma_nodup_push(s: Seq<u128>, x: u128)
    requires
        s.no_duplicates(),
        !s.contains(x),
    ensures
        s.push(x).no_duplicates(),
{
    assert forall|i: int, j: int|
        0 <= i < s.push(x).len() && 0 <= j < s.push(x).len() && i != j implies s.push(x)[i]
        != s.push(x)[j] by {
        if i < s.len() && j < s.len() {
        } else if i < s.len() {
            assert(s.push(x)[i] == s[i]);
            assert(s[i] != x) by {
                if s[i] == x {
                    assert(s.contains(x));
                }
            }
        } else {
            assert(s.push(x)[j] == s[j]);
            assert(s[j] != x) by {
                if s[j] == x {
                    assert(s.contains(x));
                }
            }
        }
    }
}

/// The anchors of the sweep: the candidate start, and the start of every
/// entry of `s` on `sys` that begins strictly inside `(cs, ce)`.
fn collect_anchors(s: &Vec<Allocation>, sys: u128, cs: i64, ce: i64) -> (av: Vec<i64>)
    requires
        cs < ce,
    ensures
        av@.contains(cs),
        forall|i: int|
            0 <= i < s@.len() && s@[i].system == sys && s@[i].kind == AllocationKind::Entry && cs
                < s@[i].start && s@[i].start < ce ==> av@.contains(s@[i].start),
        forall|j: int| 0 <= j < av@.len() ==> cs <= #[trigger] av@[j] < ce,
{
    let mut av: Vec<i64> = Vec::new();
    av.push(cs);
    assert(av@[0] == cs);
    let mut i: usize = 0;
    while i < s.len()
        invariant
            cs < ce,
            i <= s@.len(),
            av@.contains(cs),
            forall|k: int|
                0 <= k < i && s@[k].system == sys && s@[k].kind == AllocationKind::Entry && cs
                    < s@[k].start && s@[k].start < ce ==> av@.contains(s@[k].start),
            forall|j: int| 0 <= j < av@.len() ==> cs <= #[trigger] av@[j] < ce,
        decreases s@.len() - i,
    {
        let a = s[i];
        if a.system == sys && a.kind == AllocationKind::Entry && cs < a.start && a.start < ce {
            let ghost prev = av@;
            av.push(a.start);
            assert(av@ == prev.push(a.start));
            assert(av@[prev.len() as int] == a.start);
            assert(forall|j: int| 0 <= j < prev.len() ==> av@[j] == prev[j]);
        }
        i += 1;
    }
    av
}

/// How many entries of `s` occupy capability `c` on system `sys` at `t`.
pub fn count_entries_at(s: &Vec<Allocation>, sys: u128, t: i64, c: u32) -> (n: usize)
    requires
        c < 32,
    ensures
        n as int == entry_count_on(s@, sys, t as int, c),
{
    let mut n: usize = 0;
    let mut i: usize = 0;
    while i < s.len()
        invariant
            c < 32,
            i <= s@.len(),
            n <= i,
            n as int == entry_count_on(s@.take(i as int), sys, t as int, c),
        decreases s@.len() - i,
    {
        let a = s[i];
        proof {
            lemma_count_take_step(s@, sys, t as int, c, i as int);
        }
        if a.system == sys && a.kind == AllocationKind::Entry && a.start <= t && t < a.end && (
        a.mask.bits >> c) & 1 == 1 {
            n += 1;
        }
        i += 1;
    }
    proof {
        lemma_count_take_full(s@, sys, t as int, c);
    }
    n
}

/// Whether `s[i]` takes part in a capacity conflict with the entry candidate,
/// decided by counting at the anchors only.
fn entry_cap_blamed(
    s: &Vec<Allocation>,
    i: usize,
    sys: u128,
    capacity: i32,
    cs: i64,
    ce: i64,
    m: u32,
    anchors: &Vec<i64>,
) -> (b: bool)
    requires
        capacity >= 1,
        cs < ce,
        i < s@.len(),
        anchors@.contains(cs),
        forall|k: int|
            0 <= k < s@.len() && s@[k].system == sys && s@[k].kind == AllocationKind::Entry && cs
                < s@[k].start && s@[k].start < ce ==> anchors@.contains(s@[k].start),
        forall|j: int| 0 <= j < anchors@.len() ==> cs <= #[trigger] anchors@[j] < ce,
    ensures
        b == entry_cap_blames(s@, i as int, sys, capacity as int, cs as int, ce as int, m),
{
    let a = s[i];
    if !(a.system == sys && a.kind == AllocationKind::Entry) {
        proof {
            if entry_cap_blames(s@, i as int, sys, capacity as int, cs as int, ce as int, m) {
                let (t, c) = choose|t: int, c: u32|
                    cs as int <= t < ce as int && cap_hit(
                        s@,
                        i as int,
                        sys,
                        capacity as int,
                        t,
                        c,
                        m,
                    );
                assert(counts_toward(s@[i as int], sys, t, c));
            }
        }
        return false;
    }
    let mut j: usize = 0;
    while j < anchors.len()
        invariant
            capacity >= 1,
            cs < ce,
            i < s@.len(),
            a == s@[i as int],
            a.system == sys,
            a.kind == AllocationKind::Entry,
            j <= anchors@.len(),
            forall|jj: int, cc: u32|
                0 <= jj < j && cc < 32 ==> !cap_hit(
                    s@,
                    i as int,
                    sys,
                    capacity as int,
                    anchors@[jj] as int,
                    cc,
                    m,
                ),
            forall|jjj: int| 0 <= jjj < anchors@.len() ==> cs <= #[trigger] anchors@[jjj] < ce,
        decreases anchors@.len() - j,
    {
        let t = anchors[j];
        if a.start <= t && t < a.end {
            let mut c: u32 = 0;
            while c < 32
                invariant
                    capacity >= 1,
                    i < s@.len(),
                    a == s@[i as int],
                    j < anchors@.len(),
                    t == anchors@[j as int],
                    c <= 32,
                    forall|cc: u32|
                        cc < c ==> !cap_hit(
                            s@,
                            i as int,
                            sys,
                            capacity as int,
                            t as int,
                            cc,
                            m,
                        ),
                    cs <= t < ce,
                    a.system == sys,
                    a.kind == AllocationKind::Entry,
                    a.start <= t && t < a.end,
                decreases 32 - c,
            {
                if (m >> c) & 1 == 1 && (a.mask.bits >> c) & 1 == 1 {
                    let n = count_entries_at(s, sys, t, c);
                    if n >= capacity as usize {
                        proof {
                            assert(cap_hit(s@, i as int, sys, capacity as int, t as int, c, m));
                        }
                        return true;
                    }
                }
                c += 1;
            }
        } else {
            proof {
                assert forall|cc: u32|
                    cc < 32 implies !cap_hit(
                    s@,
                    i as int,
                    sys,
                    capacity as int,
                    t as int,
                    cc,
                    m,
                ) by {
                    assert(!(a.start <= t && t < a.end));
                }
            }
        }
        j += 1;
    }
    proof {
        if entry_cap_blames(s@, i as int, sys, capacity as int, cs as int, ce as int, m) {
            let (t, c) = choose|t: int, c: u32|
                cs as int <= t < ce as int && cap_hit(s@, i as int, sys, capacity as int, t, c, m);
            lemma_saturation_at_anchor(s@, sys, cs as int, ce as int, t, c);
            let t2 = best_start(s@, sys, t, c, cs as int);
            assert(counts_toward(s@[i as int], sys, t2, c));
            assert(entry_count_on(s@, sys, t2, c) >= capacity as int);
            assert(cap_hit(s@, i as int, sys, capacity as int, t2, c, m));
            if t2 == cs as int {
                assert(anchors@.contains(cs));
                let jj = choose|jj: int| 0 <= jj < anchors@.len() && anchors@[jj] == cs;
                assert(!cap_hit(
                    s@,
                    i as int,
                    sys,
                    capacity as int,
                    anchors@[jj] as int,
                    c,
                    m,
                ));
            } else {
                let k = choose|k: int|
                    0 <= k < s@.len() && counts_toward(s@[k], sys, t, c) && s@[k].start == t2;
                assert(cs < s@[k].start && s@[k].start < ce);
                assert(anchors@.contains(s@[k].start));
                let jj = choose|jj: int|
                    0 <= jj < anchors@.len() && anchors@[jj] == s@[k].start;
                assert(!cap_hit(
                    s@,
                    i as int,
                    sys,
                    capacity as int,
                    anchors@[jj] as int,
                    c,
                    m,
                ));
            }
        }
    }
    false
}

/// Decide an entry candidate `[cs, ce)` with mask `m` against system `sys`
/// of capacity `capacity`. On conflict, the error carries the exact set of
/// offending allocation identities and a rule that did fail.
pub fn evaluate_entry(
    s: &Vec<Allocation>,
    sys: u128,
    capacity: i32,
    cs: i64,
    ce: i64,
    m: u32,
) -> (r: Result<(), ConflictError>)
    requires
        capacity >= 1,
        cs < ce,
        unique_alloc_ids(s@),
    ensures
        match r {
            Ok(_) => !entry_conflict(s@, sys, capacity as int, cs as int, ce as int, m),
            Err(e) => {
                &&& entry_conflict(s@, sys, capacity as int, cs as int, ce as int, m)
                &&& entry_conflict_report(s@, sys, capacity as int, cs as int, ce as int, m, e)
            },
        },
{
    let anchors = collect_anchors(s, sys, cs, ce);
    let mut offenders: Vec<u128> = Vec::new();
    let mut saw_window = false;
    let mut saw_full = false;
    let mut saw_capmask = false;
    let mut i: usize = 0;
    while i < s.len()
        invariant
            capacity >= 1,
            cs < ce,
            unique_alloc_ids(s@),
            i <= s@.len(),
            anchors@.contains(cs),
            forall|k: int|
                0 <= k < s@.len() && s@[k].system == sys && s@[k].kind == AllocationKind::Entry
                    && cs < s@[k].start && s@[k].start < ce ==> anchors@.contains(s@[k].start),
            forall|j: int| 0 <= j < anchors@.len() ==> cs <= #[trigger] anchors@[j] < ce,
            offenders@.no_duplicates(),
            forall|id: u128|
                offenders@.contains(id) <==> exists|ii: int|
                    0 <= ii < i && entry_blames(
                        s@,
                        ii,
                        sys,
                        capacity as int,
                        cs as int,
                        ce as int,
                        m,
                    ) && s@[ii].id == id,
            saw_window == exists|ii: int|
                0 <= ii < i && s@[ii].system == sys && s@[ii].kind == AllocationKind::Full
                    && !s@[ii].planned && s@[ii].start <= cs && cs < s@[ii].end,
            saw_full == exists|ii: int|
                0 <= ii < i && s@[ii].system == sys && s@[ii].kind == AllocationKind::Full
                    && s@[ii].planned && spans_overlap(
                    s@[ii].start as int,
                    s@[ii].end as int,
                    cs as int,
                    ce as int,
                ),
            saw_capmask == exists|ii: int|
                0 <= ii < i && s@[ii].system == sys && s@[ii].kind == AllocationKind::Capability
                    && spans_overlap(s@[ii].start as int, s@[ii].end as int, cs as int, ce as int)
                    && masks_intersect(s@[ii].mask.bits, m),
        decreases s@.len() - i,
    {
        let a = s[i];
        let hit_window = a.system == sys && a.kind == AllocationKind::Full && !a.planned
            && a.start <= cs && cs < a.end;
        let hit_full = a.system == sys && a.kind == AllocationKind::Full && a.planned && a.start
            < ce && cs < a.end;
        let hit_capmask = a.system == sys && a.kind == AllocationKind::Capability && a.start < ce
            && cs < a.end && (a.mask.bits & m) != 0;
        let hit_capacity = entry_cap_blamed(s, i, sys, capacity, cs, ce, m, &anchors);
        let blamed = hit_window || hit_full || hit_capmask || hit_capacity;
        assert(blamed == entry_blames(s@, i as int, sys, capacity as int, cs as int, ce as int, m));
        if blamed {
            proof {
                if offenders@.contains(a.id) {
                    let ii = choose|ii: int|
                        0 <= ii < i && entry_blames(
                            s@,
                            ii,
                            sys,
                            capacity as int,
                            cs as int,
                            ce as int,
                            m,
                        ) && s@[ii].id == a.id;
                    assert(s@[ii].id != s@[i as int].id);
                }
                lemma_nodup_push(offenders@, a.id);
            }
            let ghost prev = offenders@;
            offenders.push(a.id);
            assert(forall|j: int| 0 <= j < prev.len() ==> offenders@[j] == prev[j]);
            assert(offenders@[prev.len() as int] == a.id);
            assert forall|id: u128| offenders@.contains(id) implies exists|ii: int|
                0 <= ii < i + 1 && entry_blames(
                    s@,
                    ii,
                    sys,
                    capacity as int,
                    cs as int,
                    ce as int,
                    m,
                ) && s@[ii].id == id by {
                let j = choose|j: int| 0 <= j < offenders@.len() && offenders@[j] == id;
                if j < prev.len() {
                    assert(prev.contains(id));
                }
            }
            assert forall|id: u128|
                (exists|ii: int|
                    0 <= ii < i + 1 && entry_blames(
                        s@,
                        ii,
                        sys,
                        capacity as int,
                        cs as int,
                        ce as int,
                        m,
                    ) && s@[ii].id == id) implies offenders@.contains(id) by {
                let ii = choose|ii: int|
                    0 <= ii < i + 1 && entry_blames(
                        s@,
                        ii,
                        sys,
                        capacity as int,
                        cs as int,
                        ce as int,
                        m,
                    ) && s@[ii].id == id;
                if ii < i {
                    assert(prev.contains(id));
                    let j = choose|j: int| 0 <= j < prev.len() && prev[j] == id;
                    assert(offenders@[j] == id);
                } else {
                    assert(offenders@[prev.len() as int] == id);
                }
            }
        } else {
            assert forall|id: u128| offenders@.contains(id) implies exists|ii: int|
                0 <= ii < i + 1 && entry_blames(
                    s@,
                    ii,
                    sys,
                    capacity as int,
                    cs as int,
                    ce as int,
                    m,
                ) && s@[ii].id == id by {}
            assert forall|id: u128|
                (exists|ii: int|
                    0 <= ii < i + 1 && entry_blames(
                        s@,
                        ii,
                        sys,
                        capacity as int,
                        cs as int,
                        ce as int,
                        m,
                    ) && s@[ii].id == id) implies offenders@.contains(id) by {
                let ii = choose|ii: int|
                    0 <= ii < i + 1 && entry_blames(
                        s@,
                        ii,
                        sys,
                        capacity as int,
                        cs as int,
                        ce as int,
                        m,
                    ) && s@[ii].id == id;
                assert(ii < i);
            }
        }
        if saw_window || hit_window {
            saw_window = true;
        }
        if saw_full || hit_full {
            saw_full = true;
        }
        if saw_capmask || hit_capmask {
            saw_capmask = true;
        }
        i += 1;
    }
    if offenders.len() == 0 {
        proof {
            if entry_conflict(s@, sys, capacity as int, cs as int, ce as int, m) {
                lemma_conflict_has_blamed(s@, sys, capacity as int, cs as int, ce as int, m);
                let ii = choose|ii: int|
                    0 <= ii < s@.len() && entry_blames(
                        s@,
                        ii,
                        sys,
                        capacity as int,
                        cs as int,
                        ce as int,
                        m,
                    );
                assert(offenders@.contains(s@[ii].id));
            }
        }
        Ok(())
    } else {
        let rule = if saw_window {
            ConflictRule::SlidingWindowOccupied
        } else if saw_full {
            ConflictRule::FullOutageExclusivity
        } else if saw_capmask {
            ConflictRule::CapabilityExclusivity
        } else {
            ConflictRule::CapacityExceeded
        };
        proof {
            let id0 = offenders@[0];
            assert(offenders@.contains(id0));
            let ii = choose|ii: int|
                0 <= ii < s@.len() && entry_blames(
                    s@,
                    ii,
                    sys,
                    capacity as int,
                    cs as int,
                    ce as int,
                    m,
                ) && s@[ii].id == id0;
            lemma_blamed_implies_conflict(
                s@,
                sys,
                capacity as int,
                cs as int,
                ce as int,
                m,
                ii,
            );
            if !saw_window && !saw_full && !saw_capmask {
                if entry_blocked(s@[ii], sys, cs as int, ce as int, m) {
                    assert(false);
                } else {
                    let (t, c) = choose|t: int, c: u32|
                        cs as int <= t < ce as int && cap_hit(
                            s@,
                            ii,
                            sys,
                            capacity as int,
                            t,
                            c,
                            m,
                        );
                    assert(entry_capacity_conflict(
                        s@,
                        sys,
                        capacity as int,
                        cs as int,
                        ce as int,
                        m,
                    ));
                }
            }
        }
        Err(ConflictError { rule, offenders })
    }
}

/// Collect the identities of every allocation of `s` on `sys` that overlaps
/// `[ws, we)` and, when `use_mask` is set, shares a capability with `m`.
/// This decides the three outage candidates and answers overlap queries.
pub fn collect_conflicts_span(
    s: &Vec<Allocation>,
    sys: u128,
    ws: i64,
    we: i64,
    m: u32,
    use_mask: bool,
) -> (v: Vec<u128>)
    requires
        unique_alloc_ids(s@),
    ensures
        v@.no_duplicates(),
        forall|id: u128|
            v@.contains(id) <==> exists|i: int|
                0 <= i < s@.len() && span_blames(s@[i], sys, ws as int, we as int, m, use_mask)
                    && s@[i].id == id,
        (v@.len() > 0) == outage_conflict(s@, sys, ws as int, we as int, m, use_mask),
{
    let mut v: Vec<u128> = Vec::new();
    let mut i: usize = 0;
    while i < s.len()
        invariant
            unique_alloc_ids(s@),
            i <= s@.len(),
            v@.no_duplicates(),
            forall|id: u128|
                v@.contains(id) <==> exists|ii: int|
                    0 <= ii < i && span_blames(s@[ii], sys, ws as int, we as int, m, use_mask)
                        && s@[ii].id == id,
            (v@.len() > 0) == exists|ii: int|
                0 <= ii < i && span_blames(s@[ii], sys, ws as int, we as int, m, use_mask),
        decreases s@.len() - i,
    {
        let a = s[i];
        let hit = a.system == sys && a.start < we && ws < a.end && (!use_mask || (a.mask.bits & m)
            != 0);
        assert(hit == span_blames(s@[i as int], sys, ws as int, we as int, m, use_mask));
        if hit {
            proof {
                if v@.contains(a.id) {
                    let ii = choose|ii: int|
                        0 <= ii < i && span_blames(s@[ii], sys, ws as int, we as int, m, use_mask)
                            && s@[ii].id == a.id;
                    assert(s@[ii].id != s@[i as int].id);
                }
                lemma_nodup_push(v@, a.id);
            }
            let ghost prev = v@;
            v.push(a.id);
            assert(forall|j: int| 0 <= j < prev.len() ==> v@[j] == prev[j]);
            assert(v@[prev.len() as int] == a.id);
            assert forall|id: u128| v@.contains(id) implies exists|ii: int|
                0 <= ii < i + 1 && span_blames(s@[ii], sys, ws as int, we as int, m, use_mask)
                    && s@[ii].id == id by {
                let j = choose|j: int| 0 <= j < v@.len() && v@[j] == id;
                if j < prev.len() {
                    assert(prev.contains(id));
                }
            }
            assert forall|id: u128|
                (exists|ii: int|
                    0 <= ii < i + 1 && span_blames(s@[ii], sys, ws as int, we as int, m, use_mask)
                        && s@[ii].id == id) implies v@.contains(id) by {
                let ii = choose|ii: int|
                    0 <= ii < i + 1 && span_blames(s@[ii], sys, ws as int, we as int, m, use_mask)
                        && s@[ii].id == id;
                if ii < i {
                    assert(prev.contains(id));
                    let j = choose|j: int| 0 <= j < prev.len() && prev[j] == id;
                    assert(v@[j] == id);
                } else {
                    assert(v@[prev.len() as int] == id);
                }
            }
        } else {
            assert forall|id: u128|
                (exists|ii: int|
                    0 <= ii < i + 1 && span_blames(s@[ii], sys, ws as int, we as int, m, use_mask)
                        && s@[ii].id == id) implies v@.contains(id) by {
                let ii = choose|ii: int|
                    0 <= ii < i + 1 && span_blames(s@[ii], sys, ws as int, we as int, m, use_mask)
                        && s@[ii].id == id;
                assert(ii < i);
            }
        }
        i += 1;
    }
    v
}

/// Capacity law: when some instant of the candidate interval is already
/// covered by as many entries as the capacity allows, on a capability of the
/// candidate mask, a further overlapping entry conflicts.
pub proof fn lemma_capacity_saturation(
    s: Seq<Allocation>,
    sys: u128,
    cap: int,
    cs: int,
    ce: int,
    m: u32,
    t: int,
    c: u32,
)
    requires
        cs <= t < ce,
        bit_set(m, c),
        entry_count_on(s, sys, t, c) >= cap,
    ensures
        entry_conflict(s, sys, cap, cs, ce, m),
{
    assert(entry_capacity_conflict(s, sys, cap, cs, ce, m));
}

/// Admission law: an entry candidate that no outage blocks and whose
/// interval stays below capacity on every capability of its mask never
/// conflicts.
pub proof fn lemma_entry_admissible(
    s: Seq<Allocation>,
    sys: u128,
    cap: int,
    cs: int,
    ce: int,
    m: u32,
)
    requires
        forall|i: int| 0 <= i < s.len() ==> !entry_blocked(#[trigger] s[i], sys, cs, ce, m),
        forall|t: int, c: u32|
            cs <= t < ce && bit_set(m, c) ==> #[trigger] entry_count_on(s, sys, t, c) < cap,
    ensures
        !entry_conflict(s, sys, cap, cs, ce, m),
{
    if entry_capacity_conflict(s, sys, cap, cs, ce, m) {
        let (t, c) = choose|t: int, c: u32|
            cs <= t < ce && bit_set(m, c) && entry_count_on(s, sys, t, c) >= cap;
        assert(entry_count_on(s, sys, t, c) < cap);
    }
}

/// Boundary law: entries that share at most a boundary instant with the
/// candidate interval (ending exactly when it starts, or starting exactly
/// when it ends) never conflict with it.
pub proof fn lemma_boundary_touch_no_conflict(
    s: Seq<Allocation>,
    sys: u128,
    cap: int,
    cs: int,
    ce: int,
    m: u32,
)
    requires
        cap >= 1,
        cs < ce,
        forall|i: int| 0 <= i < s.len() ==> (#[trigger] s[i]).kind == AllocationKind::Entry,
        forall|i: int|
            0 <= i < s.len() && (#[trigger] s[i]).system == sys ==> (s[i].end <= cs || ce
                <= s[i].start),
    ensures
        !entry_conflict(s, sys, cap, cs, ce, m),
{
    assert forall|i: int| 0 <= i < s.len() implies !entry_blocked(#[trigger] s[i], sys, cs, ce, m)
        by {
        assert(s[i].kind == AllocationKind::Entry);
    }
    if entry_capacity_conflict(s, sys, cap, cs, ce, m) {
        let (t, c) = choose|t: int, c: u32|
            cs <= t < ce && bit_set(m, c) && entry_count_on(s, sys, t, c) >= cap;
        assert forall|i: int| 0 <= i < s.len() implies !counts_toward(s[i], sys, t, c) by {
            if s[i].system == sys {
                assert(s[i].end <= cs || ce <= s[i].start);
            }
        }
        lemma_count_zero(s, sys, t, c);
    }
}

/// Disjoint-mask law: a capability outage never conflicts on a system whose
/// allocations all carry masks disjoint from the outage's mask.
pub proof fn lemma_disjoint_mask_no_conflict(
    s: Seq<Allocation>,
    sys: u128,
    ws: int,
    we: int,
    m: u32,
)
    requires
        forall|i: int|
            0 <= i < s.len() && (#[trigger] s[i]).system == sys ==> s[i].mask.bits & m == 0u32,
    ensures
        !outage_conflict(s, sys, ws, we, m, true),
{
    if outage_conflict(s, sys, ws, we, m, true) {
        let i = choose|i: int| 0 <= i < s.len() && span_blames(s[i], sys, ws, we, m, true);
        assert(s[i].mask.bits & m == 0u32);
    }
}

/// Sliding-window law: an unplanned outage blocks exactly the entry
/// candidates whose start instant lies inside its window; one starting
/// before the window, or at or after its end, is unaffected by that outage
/// alone.
pub proof fn lemma_window_scope(a: Allocation, sys: u128, cs: int, ce: int, m: u32)
    requires
        a.kind == AllocationKind::Full,
        !a.planned,
        a.system == sys,
    ensures
        entry_blocked(a, sys, cs, ce, m) == (a.start <= cs && cs < a.end),
{
}

/// Boundary law for outage candidates: an allocation that ends exactly when
/// the candidate span starts, or starts exactly when it ends, never offends
/// it.
pub proof fn lemma_span_boundary_touch(
    a: Allocation,
    sys: u128,
    ws: int,
    we: int,
    m: u32,
    use_mask: bool,
)
    requires
        a.end <= ws || we <= a.start,
    ensures
        !span_blames(a, sys, ws, we, m, use_mask),
{
}

} // verus!
