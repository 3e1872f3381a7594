//! A multi-capacity timeslot allocation engine with capability-scoped outages.
//!
//! Systems have a fixed capacity (how many entries may overlap a single
//! instant) and a set of capabilities. Entries occupy a half-open interval
//! `[start, end)` on a subset of capabilities. Three outage kinds block time:
//! a planned full outage, an unplanned full outage with a forward sliding
//! window, and a planned per-capability outage. A reaper cycle forcibly
//! evicts planned allocations that overlap an active sliding window.

mod caps;
mod conflict;
mod model;
mod reaper;
mod service;

pub use caps::Capabilities;
pub use conflict::collect_conflicts_span;
pub use conflict::count_entries_at;
pub use conflict::evaluate_entry;
pub use model::Allocation;
pub use model::AllocationKind;
pub use model::SystemInfo;
pub use model::ValidationFault;
pub use model::ConflictRule;
pub use model::ConflictError;
pub use model::StoreFault;
pub use model::AllocError;
pub use reaper::is_evictable;
pub use service::SystemAllocation;
