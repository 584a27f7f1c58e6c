//! Identifier generation: a counter that hands out each value once.

use vstd::prelude::*;

verus! {

/// `start` moved forward by `count`, going round from `u64::MAX` to zero:
/// how a counter of events or of costs moves, which may go round.
pub open spec fn advance(start: u64, count: nat) -> u64 {
    ((start as nat + count) % 0x1_0000_0000_0000_0000) as u64
}

/// A source of identifiers. It starts at one and counts upwards, and hands
/// out no value twice: when only `u64::MAX` is left, it has no identifier
/// to give.
#[derive(Debug)]
pub struct IdGenerator {
    pub next: u64,
}

impl IdGenerator {
    /// A generator whose first identifier is one.
    pub fn new() -> (ids: IdGenerator)
        ensures
            ids.next == 1,
    {
        IdGenerator { next: 1 }
    }

    /// Whether the generator has an identifier to give.
    pub open spec fn has_next(self) -> bool {
        self.next < u64::MAX
    }

    /// The generator as it is after `count` more identifiers were taken.
    pub open spec fn after(self, count: nat) -> IdGenerator
        recommends
            self.next + count <= u64::MAX,
    {
        IdGenerator { next: (self.next + count) as u64 }
    }

    /// Whether the generator has an identifier to give.
    pub fn can_allocate(&self) -> (can: bool)
        ensures
            can == self.has_next(),
    {
        self.next < u64::MAX
    }

    /// Takes the next identifier, which is larger than every identifier
    /// taken before.
    pub fn allocate(&mut self) -> (raw: u64)
        requires
            old(self).has_next(),
        ensures
            raw == old(self).next,
            final(self).next == old(self).next + 1,
            *final(self) == old(self).after(1),
    {
        let raw: u64 = self.next;
        self.next = raw + 1;
        raw
    }
}

} // verus!
