//! Scenario tests for the stated allocation laws, the validation and
//! conflict error variants, and the reaper cycle.

use allocation_poc::AllocError;
use allocation_poc::Allocation;
use allocation_poc::AllocationKind;
use allocation_poc::Capabilities;
use allocation_poc::ConflictRule;
use allocation_poc::StoreFault;
use allocation_poc::SystemAllocation;
use allocation_poc::ValidationFault;
use allocation_poc::count_entries_at;
use allocation_poc::evaluate_entry;
use allocation_poc::is_evictable;

const MINUTE: i64 = 60_000;
const HOUR: i64 = 3_600_000;
const T: i64 = 1_700_000_000_000;

fn conflict_of(r: Result<u128, AllocError>) -> (ConflictRule, Vec<u128>) {
    match r {
        Err(AllocError::Conflict(e)) => (e.rule, e.offenders),
        _ => panic!("expected a conflict error"),
    }
}

#[test]
fn capacity_fills_at_common_instant() {
    let mut planner = SystemAllocation::new();
    let system = 1u128;
    planner
        .declare_system(system, 3, Capabilities::all())
        .unwrap();

    let mut ids = Vec::new();
    for k in 0..3i64 {
        // three entries, all covering the instant T + 9 minutes
        let id = planner
            .insert_entry(
                system,
                T + k * MINUTE,
                T + 10 * MINUTE + k * MINUTE,
                Capabilities::a(),
            )
            .unwrap();
        ids.push(id);
    }

    // a fourth entry overlapping that instant on the same capability fails,
    // blaming exactly the three saturating entries
    let r = planner.insert_entry(system, T + 5 * MINUTE, T + 20 * MINUTE, Capabilities::a());
    let (rule, mut offenders) = conflict_of(r);
    assert_eq!(rule, ConflictRule::CapacityExceeded);
    offenders.sort();
    ids.sort();
    assert_eq!(offenders, ids);

    // the same interval on a disjoint capability is admitted
    planner
        .insert_entry(system, T + 5 * MINUTE, T + 20 * MINUTE, Capabilities::b())
        .unwrap();
}

#[test]
fn boundary_touch_never_conflicts() {
    let mut planner = SystemAllocation::new();
    let system = 2u128;
    planner
        .declare_system(system, 1, Capabilities::all())
        .unwrap();

    planner
        .insert_entry(system, T, T + 15 * MINUTE, Capabilities::a())
        .unwrap();
    // one entry ends exactly when the next starts: no conflict
    planner
        .insert_entry(system, T + 15 * MINUTE, T + 30 * MINUTE, Capabilities::a())
        .unwrap();
    // and one that ends exactly when the first starts
    planner
        .insert_entry(system, T - 15 * MINUTE, T, Capabilities::a())
        .unwrap();
}

#[test]
fn planned_outage_fails_closed() {
    let mut planner = SystemAllocation::new();
    let system = 3u128;
    planner
        .declare_system(system, 5, Capabilities::all())
        .unwrap();

    let entry = planner
        .insert_entry(system, T, T + HOUR, Capabilities::a())
        .unwrap();

    // a full outage overlapping any allocation fails, naming it
    let r = planner.insert_planned_outage(system, T + 30 * MINUTE, T + 2 * HOUR);
    let (rule, offenders) = conflict_of(r);
    assert_eq!(rule, ConflictRule::FullOutageExclusivity);
    assert_eq!(offenders, vec![entry]);

    // in empty space it succeeds; exactly abutting the entry is empty space
    planner
        .insert_planned_outage(system, T + HOUR, T + 2 * HOUR)
        .unwrap();
}

#[test]
fn unplanned_outage_window() {
    let mut planner = SystemAllocation::new();
    let system = 4u128;
    planner
        .declare_system(system, 5, Capabilities::all())
        .unwrap();

    // an entry beyond the window does not block the outage
    planner
        .insert_entry(system, T + 2 * HOUR, T + 3 * HOUR, Capabilities::a())
        .unwrap();
    planner.insert_unplanned_outage(system, T, HOUR).unwrap();

    // an entry starting inside [T, T + 1h) is rejected by the window rule
    let r = planner.insert_entry(system, T + 30 * MINUTE, T + 40 * MINUTE, Capabilities::a());
    let (rule, _) = conflict_of(r);
    assert_eq!(rule, ConflictRule::SlidingWindowOccupied);

    // an entry starting before the window is unaffected by the outage alone
    planner
        .insert_entry(system, T - 10 * MINUTE, T + 5 * MINUTE, Capabilities::a())
        .unwrap();

    // an entry starting exactly at the window end is unaffected as well
    planner
        .insert_entry(system, T + HOUR, T + 90 * MINUTE, Capabilities::a())
        .unwrap();

    // an occupied window blocks the outage itself
    let r = planner.insert_unplanned_outage(system, T + 2 * HOUR, HOUR);
    let (rule, _) = conflict_of(r);
    assert_eq!(rule, ConflictRule::SlidingWindowOccupied);
}

#[test]
fn capability_outage_masks() {
    let mut planner = SystemAllocation::new();
    let system = 5u128;
    planner
        .declare_system(system, 10, Capabilities::all())
        .unwrap();

    planner
        .insert_entry(system, T, T + HOUR, Capabilities::b())
        .unwrap();

    // disjoint masks never conflict
    planner
        .insert_planned_capability_outage(system, Capabilities::a(), T, T + HOUR)
        .unwrap();

    // a shared capability over the same interval conflicts
    let r = planner.insert_planned_capability_outage(
        system,
        Capabilities::b().union(Capabilities::c()),
        T,
        T + HOUR,
    );
    let (rule, offenders) = conflict_of(r);
    assert_eq!(rule, ConflictRule::CapabilityExclusivity);
    assert_eq!(offenders.len(), 1);
}

#[test]
fn reaper_cycle_is_idempotent() {
    let mut planner = SystemAllocation::new();
    let system = 6u128;
    planner
        .declare_system(system, 5, Capabilities::all())
        .unwrap();

    planner.insert_unplanned_outage(system, T, HOUR).unwrap();

    // an entry starting before the window but overlapping it is admitted,
    // and it is exactly what the reaper must evict
    planner
        .insert_entry(system, T - 10 * MINUTE, T + 5 * MINUTE, Capabilities::a())
        .unwrap();
    // one safely beyond the window stays
    planner
        .insert_entry(system, T + 2 * HOUR, T + 3 * HOUR, Capabilities::a())
        .unwrap();

    assert_eq!(planner.allocs.len(), 3);
    let evicted = planner.run_cycle();
    assert_eq!(evicted, 1);
    assert_eq!(planner.allocs.len(), 2);

    // a second cycle with no new allocations evicts nothing
    let evicted = planner.run_cycle();
    assert_eq!(evicted, 0);
    assert_eq!(planner.allocs.len(), 2);
}

#[test]
fn validation_faults() {
    let mut planner = SystemAllocation::new();
    let system = 7u128;

    assert!(matches!(
        planner.declare_system(system, 0, Capabilities::all()),
        Err(AllocError::Validation(ValidationFault::NonPositiveCapacity))
    ));
    planner
        .declare_system(system, 1, Capabilities::all())
        .unwrap();
    assert!(matches!(
        planner.declare_system(system, 2, Capabilities::all()),
        Err(AllocError::Store(StoreFault::DuplicateId))
    ));

    // an empty interval is rejected before anything else
    assert!(matches!(
        planner.insert_entry(system, T, T, Capabilities::a()),
        Err(AllocError::Validation(ValidationFault::EmptyInterval))
    ));
    assert!(matches!(
        planner.insert_planned_outage(system, T + 1, T),
        Err(AllocError::Validation(ValidationFault::EmptyInterval))
    ));

    // an operation on a system never declared is rejected
    assert!(matches!(
        planner.insert_entry(999u128, T, T + 1, Capabilities::a()),
        Err(AllocError::Validation(ValidationFault::UnknownSystem))
    ));

    // a sliding window must be positive and must not run past the end of time
    assert!(matches!(
        planner.insert_unplanned_outage(system, T, 0),
        Err(AllocError::Validation(ValidationFault::BadWindow))
    ));
    assert!(matches!(
        planner.insert_unplanned_outage(system, T, i64::MAX),
        Err(AllocError::Validation(ValidationFault::BadWindow))
    ));
}

#[test]
fn caller_chosen_identities() {
    let mut planner = SystemAllocation::new();
    let system = 8u128;
    planner
        .declare_system(system, 2, Capabilities::all())
        .unwrap();

    let id = planner
        .insert_entry_with_id(42u128, system, T, T + HOUR, Capabilities::a())
        .unwrap();
    assert_eq!(id, 42u128);

    // the same identity cannot be written twice
    assert!(matches!(
        planner.insert_entry_with_id(42u128, system, T + 2 * HOUR, T + 3 * HOUR, Capabilities::a()),
        Err(AllocError::Store(StoreFault::DuplicateId))
    ));

    // freshly drawn identities differ from each other and from the taken one
    let a = planner
        .insert_entry(system, T + 4 * HOUR, T + 5 * HOUR, Capabilities::a())
        .unwrap();
    let b = planner
        .insert_entry(system, T + 6 * HOUR, T + 7 * HOUR, Capabilities::a())
        .unwrap();
    assert_ne!(a, b);
    assert_ne!(a, 42u128);

    // conflicts are evaluated before the identity check, so a candidate that
    // both conflicts and reuses an identity reports the conflict
    planner
        .insert_entry(system, T, T + HOUR, Capabilities::a())
        .unwrap();
    assert!(matches!(
        planner.insert_entry_with_id(42u128, system, T, T + HOUR, Capabilities::a()),
        Err(AllocError::Conflict(_))
    ));
}

#[test]
fn store_queries() {
    let mut planner = SystemAllocation::new();
    let system = 9u128;
    planner
        .declare_system(system, 4, Capabilities::b())
        .unwrap();

    let info = planner.system_info(system).unwrap();
    assert_eq!(info.0, 4);
    assert_eq!(info.1, Capabilities::b());
    assert!(planner.system_info(10u128).is_none());

    let inside = planner
        .insert_entry(system, T, T + HOUR, Capabilities::b())
        .unwrap();
    planner
        .insert_entry(system, T + 2 * HOUR, T + 3 * HOUR, Capabilities::b())
        .unwrap();

    let hits = planner.overlapping(system, T, T + 90 * MINUTE);
    assert_eq!(hits.len(), 1);
    assert_eq!(hits[0].id, inside);
    assert_eq!(hits[0].kind, AllocationKind::Entry);
}

#[test]
fn counting_entries_at_an_instant() {
    let records = vec![
        Allocation {
            id: 1,
            system: 11u128,
            kind: AllocationKind::Entry,
            planned: true,
            start: T,
            end: T + HOUR,
            mask: Capabilities::a(),
        },
        Allocation {
            id: 2,
            system: 11u128,
            kind: AllocationKind::Entry,
            planned: true,
            start: T + 30 * MINUTE,
            end: T + 2 * HOUR,
            mask: Capabilities::a().union(Capabilities::b()),
        },
        Allocation {
            id: 3,
            system: 12u128,
            kind: AllocationKind::Entry,
            planned: true,
            start: T,
            end: T + HOUR,
            mask: Capabilities::a(),
        },
    ];
    // capability bit 0 at T + 45 minutes: both entries of the system cover it
    assert_eq!(count_entries_at(&records, 11u128, T + 45 * MINUTE, 0), 2);
    // bit 1 is only carried by the second entry
    assert_eq!(count_entries_at(&records, 11u128, T + 45 * MINUTE, 1), 1);
    // before the second entry starts, only the first counts
    assert_eq!(count_entries_at(&records, 11u128, T + 15 * MINUTE, 0), 1);
    // the third record is on another system
    assert_eq!(count_entries_at(&records, 12u128, T + 15 * MINUTE, 0), 1);
}

#[test]
fn evaluating_candidates_directly() {
    let sys = 13u128;
    let records = vec![
        Allocation {
            id: 1,
            system: sys,
            kind: AllocationKind::Entry,
            planned: true,
            start: T,
            end: T + HOUR,
            mask: Capabilities::a(),
        },
        Allocation {
            id: 2,
            system: sys,
            kind: AllocationKind::Full,
            planned: false,
            start: T + 3 * HOUR,
            end: T + 4 * HOUR,
            mask: Capabilities::all(),
        },
    ];

    // capacity one, shared capability, overlapping interval: the entry is blamed
    let e = evaluate_entry(&records, sys, 1, T + 30 * MINUTE, T + 2 * HOUR, 0x1).unwrap_err();
    assert_eq!(e.rule, ConflictRule::CapacityExceeded);
    assert_eq!(e.offenders, vec![1]);

    // a start inside the sliding window is blamed on the unplanned outage
    let e = evaluate_entry(&records, sys, 1, T + 3 * HOUR + MINUTE, T + 5 * HOUR, 0x1).unwrap_err();
    assert_eq!(e.rule, ConflictRule::SlidingWindowOccupied);
    assert_eq!(e.offenders, vec![2]);

    // with capacity two and a start clear of the window, the candidate passes
    assert!(evaluate_entry(&records, sys, 2, T + 30 * MINUTE, T + 2 * HOUR, 0x1).is_ok());

    // the entry ends before the window opens, so the reaper leaves it
    assert!(!is_evictable(&records, &records[0]));
    // the outage itself is never evicted
    assert!(!is_evictable(&records, &records[1]));
}

#[test]
fn capability_set_operations() {
    assert_eq!(Capabilities::none().bits, 0);
    assert_eq!(Capabilities::all().bits, 0x7);
    assert_eq!(Capabilities::a().union(Capabilities::b()).bits, 0x3);
    assert_eq!(
        Capabilities::all().intersection(Capabilities::c()),
        Capabilities::c()
    );
    assert!(Capabilities::a().intersects(Capabilities::all()));
    assert!(!Capabilities::a().intersects(Capabilities::b()));
    assert!(Capabilities::all().contains(Capabilities::b()));
    assert!(!Capabilities::b().contains(Capabilities::all()));
    assert_eq!(Capabilities::from_bits(0x5).bits, 0x5);
}
