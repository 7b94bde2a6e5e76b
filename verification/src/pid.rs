//! Process identifiers and the monotone counter that hands them out.

use vstd::prelude::*;

verus! {

/// A process identifier. Identifiers are unique for the whole run: the
/// allocator below never hands the same number out twice (modulo `u16`
/// wrap-around, which the process table's capacity bound rules out).
#[derive(Clone, Copy, Debug, PartialEq, Eq, Structural)]
pub struct ProcessId(pub u16);

impl ProcessId {
    /// The raw numeric value of this identifier.
    pub fn get(&self) -> (r: u16)
        ensures
            r == self.0,
    {
        self.0
    }
}

/// A small unique-identifier handle, kept distinct from `ProcessId` so that
/// plain resources can be numbered without implying a process exists.
#[derive(Clone, Copy, Debug, PartialEq, Eq, Structural)]
pub struct UniqueId(pub u16);

impl UniqueId {
    /// The raw numeric value of this identifier.
    pub fn get(&self) -> (r: u16)
        ensures
            r == self.0,
    {
        self.0
    }
}

/// The state of a unique-identifier allocator: the next number to hand out.
/// Two consecutive draws always differ, since the counter moves by one
/// (wrapping) between them.
pub struct UniqueIdAllocator {
    next: u16,
}

impl UniqueIdAllocator {
    /// A fresh allocator, starting at zero.
    pub fn new() -> (r: UniqueIdAllocator)
        ensures
            r.next_value() == 0,
    {
        UniqueIdAllocator { next: 0 }
    }

    /// The number the next draw will return.
    pub closed spec fn next_value(&self) -> u16 {
        self.next
    }

    /// Draw the next identifier and advance the counter by one, wrapping at
    /// the type's maximum. The drawn identifier always differs from the one
    /// the next draw will produce.
    pub fn draw(&mut self) -> (r: UniqueId)
        ensures
            r.0 == old(self).next_value(),
            final(self).next_value() != r.0,
            final(self).next_value() == (if old(self).next_value() == u16::MAX {
                0u16
            } else {
                (old(self).next_value() + 1) as u16
            }),
    {
        let id = UniqueId(self.next);
        self.next = if self.next == u16::MAX { 0 } else { self.next + 1 };
        id
    }
}

} // verus!
