//! The counter that hands out row identifiers.
use vstd::prelude::*;

verus! {

/// Largest identifier the counter can reach.
pub const COUNTER_MAX: i64 = 0x7fff_ffff_ffff_ffff;

/// A monotonic identifier allocator with rollback; it never goes below zero.
#[derive(Debug)]
pub struct AutoIndex {
    counter: i64,
}

impl View for AutoIndex {
    type V = int;

    closed spec fn view(&self) -> int {
        self.counter as int
    }
}

impl AutoIndex {
    /// A counter at zero.
    pub fn new() -> (r: Self)
        ensures
            r@ == 0,
    {
        AutoIndex { counter: 0 }
    }

    /// The counter as it was persisted; a missing or negative value gives a
    /// fresh counter at zero.
    pub fn from_persisted(persisted: Option<i64>) -> (r: Self)
        ensures
            r@ == match persisted {
                Some(n) => if n >= 0 { n as int } else { 0 },
                None => 0,
            },
    {
        match persisted {
            Some(n) => if n >= 0 {
                AutoIndex { counter: n }
            } else {
                AutoIndex::new()
            },
            None => AutoIndex::new(),
        }
    }

    /// Advances the counter and returns its new value.
    pub fn next(&mut self) -> (r: i64)
        requires
            old(self)@ < COUNTER_MAX,
        ensures
            final(self)@ == old(self)@ + 1,
            r == final(self)@,
    {
        self.counter += 1;
        self.counter
    }

    /// Takes back the last identifier handed out.
    pub fn rollback(&mut self)
        requires
            old(self)@ > 0,
        ensures
            final(self)@ == old(self)@ - 1,
    {
        self.counter -= 1;
    }

    pub fn counter(&self) -> (r: i64)
        ensures
            r == self@,
    {
        self.counter
    }
}

} // verus!
