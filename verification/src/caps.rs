//! A fixed-width set of named capabilities.
//!
//! A system serves up to 32 named capabilities, one bit each. Entries and
//! capability outages are scoped to a subset of them. Three capabilities are
//! named here; the mask operations work on the full 32-bit width.

use vstd::prelude::*;

verus! {

/// The bits of the named capabilities that are currently defined.
pub const ALL_CAPABILITY_BITS: u32 = 0x7;

/// A set of capabilities, one bit per named capability.
#[derive(Clone, Copy, PartialEq, Eq, Structural, Debug)]
pub struct Capabilities {
    pub bits: u32,
}

impl Capabilities {
    /// The empty capability set.
    pub fn none() -> (r: Self)
        ensures
            r.bits == 0u32,
    {
        Capabilities { bits: 0 }
    }

    /// Every named capability.
    pub fn all() -> (r: Self)
        ensures
            r.bits == ALL_CAPABILITY_BITS,
    {
        Capabilities { bits: ALL_CAPABILITY_BITS }
    }

    /// The first named capability.
    pub fn a() -> (r: Self)
        ensures
            r.bits == 0x1u32,
    {
        Capabilities { bits: 0x1 }
    }

    /// The second named capability.
    pub fn b() -> (r: Self)
        ensures
            r.bits == 0x2u32,
    {
        Capabilities { bits: 0x2 }
    }

    /// The third named capability.
    pub fn c() -> (r: Self)
        ensures
            r.bits == 0x4u32,
    {
        Capabilities { bits: 0x4 }
    }

    /// A capability set from a raw bit mask.
    pub fn from_bits(bits: u32) -> (r: Self)
        ensures
            r.bits == bits,
    {
        Capabilities { bits }
    }

    /// The union of two capability sets.
    pub fn union(self, other: Self) -> (r: Self)
        ensures
            r.bits == self.bits | other.bits,
    {
        Capabilities { bits: self.bits | other.bits }
    }

    /// The intersection of two capability sets.
    pub fn intersection(self, other: Self) -> (r: Self)
        ensures
            r.bits == self.bits & other.bits,
    {
        Capabilities { bits: self.bits & other.bits }
    }

    /// Whether the two sets share any capability.
    pub fn intersects(self, other: Self) -> (r: bool)
        ensures
            r == (self.bits & other.bits != 0u32),
    {
        self.bits & other.bits != 0
    }

    /// Whether every capability of `other` is also in `self`.
    pub fn contains(self, other: Self) -> (r: bool)
        ensures
            r == (self.bits & other.bits == other.bits),
    {
        self.bits & other.bits == other.bits
    }
}

} // verus!
