//! The end-to-end allocation scenarios, driven through the in-memory
//! allocation service.

use allocation_poc::Capabilities;
use allocation_poc::SystemAllocation;

use chrono::Utc;
use rand::Rng;
use uuid::Uuid;

const MINUTE: i64 = 60_000;
const HOUR: i64 = 3_600_000;
const SECOND: i64 = 1_000;

#[test]
fn planned_outage() {
    let mut planner = SystemAllocation::new();

    let system = Uuid::new_v4().as_u128();
    planner
        .declare_system(system, 1, Capabilities::all())
        .unwrap();

    let start = Utc::now().timestamp_millis();
    let end = start + 6 * HOUR;
    planner.insert_planned_outage(system, start, end).unwrap();

    // Adding with overlap should fail
    let result = planner.insert_planned_outage(system, start + 2 * HOUR, end + 2 * HOUR);
    assert!(result.is_err());

    // Adding new outage on same timestamp as previous ended should be ok
    planner
        .insert_planned_outage(system, end, end + 2 * HOUR)
        .unwrap();

    // Adding new outage on same timestamp as previous started should be ok
    planner
        .insert_planned_outage(system, start - 2 * HOUR, start)
        .unwrap();

    // Adding one that overlaps with all three now should also fail
    let result = planner.insert_planned_outage(system, start - HOUR, end + HOUR);
    assert!(result.is_err());
}

#[test]
fn unplanned_outage() {
    let mut planner = SystemAllocation::new();

    let system = Uuid::new_v4().as_u128();
    planner
        .declare_system(system, 1, Capabilities::all())
        .unwrap();

    let window = 24 * HOUR;
    let start = Utc::now().timestamp_millis();

    // Add fixture entry to be in the way
    planner
        .insert_entry(
            system,
            start + window,
            start + window + 15 * MINUTE,
            Capabilities::a(),
        )
        .unwrap();

    // Attempting to insert unplanned outage in conflict within specified window
    // is not allowed.
    let result = planner.insert_unplanned_outage(system, start, window + 5 * MINUTE);
    assert!(result.is_err());

    // Inserting the unplanned outage with the window prior to, or at the boundary, is ok.
    planner.insert_unplanned_outage(system, start, window).unwrap();

    // inserting any entry now, regardless of prior to window or after window, is denied.
    let result = planner.insert_entry(system, start, start + 15 * MINUTE, Capabilities::a());
    assert!(result.is_err());

    let result = planner.insert_entry(
        system,
        start + window + SECOND,
        start + window + 15 * MINUTE,
        Capabilities::a(),
    );
    assert!(result.is_err());
}

#[test]
fn planned_capability_outage() {
    let mut planner = SystemAllocation::new();

    let system = Uuid::new_v4().as_u128();
    planner
        .declare_system(system, 10, Capabilities::all())
        .unwrap();

    let start = Utc::now().timestamp_millis();
    let end = start + 6 * HOUR;

    // Inserting fixture entry with capability A
    planner
        .insert_entry(system, start, end, Capabilities::a())
        .unwrap();

    // Adding overlapping outage for capability A over existing entry should fail
    let result = planner.insert_planned_capability_outage(system, Capabilities::a(), start, end);
    assert!(result.is_err());

    // Adding overlapping outage for capability B should succeed
    planner
        .insert_planned_capability_outage(system, Capabilities::b(), start, end + 24 * HOUR)
        .unwrap();

    // Adding overlapping entry with same capabilities over existing capability outage should fail
    let offset = HOUR;
    let result = planner.insert_entry(
        system,
        start + offset,
        end + offset,
        Capabilities::a().union(Capabilities::b()),
    );
    assert!(result.is_err());

    // Adding overlapping entry with different capabilities over existing capability outage
    planner
        .insert_entry(system, start + offset, end + offset, Capabilities::a())
        .unwrap();
}

#[test]
fn entries_single_capacity_system() {
    let mut planner = SystemAllocation::new();

    let system = Uuid::new_v4().as_u128();
    planner
        .declare_system(system, 1, Capabilities::all())
        .unwrap();

    let start = Utc::now().timestamp_millis();
    let end = start + 15 * MINUTE;

    planner
        .insert_entry(system, start, end, Capabilities::a())
        .unwrap();
    // Exact overlap is an error
    assert!(planner
        .insert_entry(system, start, end, Capabilities::a())
        .is_err());
    // Partial overlap is an error
    assert!(planner
        .insert_entry(
            system,
            start + 10 * MINUTE,
            end + 10 * MINUTE,
            Capabilities::a()
        )
        .is_err());
}

#[test]
fn entries_multiple_capacity_system() {
    let mut planner = SystemAllocation::new();

    let capacity = 6;
    let system = Uuid::new_v4().as_u128();
    planner
        .declare_system(system, capacity, Capabilities::all())
        .unwrap();

    let start = Utc::now().timestamp_millis();
    let end = start + 15 * MINUTE;

    let mut rng = rand::thread_rng();
    for _ in 0..capacity {
        // Pick a random offset of 14 minutes
        let offset = MINUTE * rng.gen_range(0..15);
        planner
            .insert_entry(system, start + offset, end + offset, Capabilities::a())
            .unwrap();
    }

    // This entire range should now be filled
    // - it should be impossible to fit anything around the end mark
    let result = planner.insert_entry(
        system,
        end - 30 * SECOND,
        end + 2 * MINUTE,
        Capabilities::a(),
    );
    assert!(result.is_err());
}
