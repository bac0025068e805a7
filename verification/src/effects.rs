//! Floating damage numbers: each one lives for a fixed time and is then removed.

use crate::timers::{no_timers, running_out, still_running, table_contents, TimerTable};
use vstd::prelude::*;

verus! {

/// Nanoseconds a damage number stays on screen (0.4 seconds).
pub const DAMAGE_NUMBER_LIFETIME: u64 = 400_000_000;

/// The damage numbers on screen, each with the nanoseconds it has left.
pub struct ActiveDamageEffects(pub TimerTable);

impl View for ActiveDamageEffects {
    type V = Map<u64, u64>;

    open spec fn view(&self) -> Map<u64, u64> {
        table_contents(self.0)
    }
}

impl ActiveDamageEffects {
    /// No damage number on screen.
    pub fn new() -> (effects: ActiveDamageEffects)
        ensures
            effects@ == no_timers(),
    {
        ActiveDamageEffects(TimerTable::empty())
    }

    /// A damage number was just spawned as `entity`: it gets the full lifetime.
    pub fn track(&mut self, entity: u64)
        ensures
            final(self)@ == old(self)@.insert(entity, DAMAGE_NUMBER_LIFETIME),
    {
        self.0.set(entity, DAMAGE_NUMBER_LIFETIME);
    }

    /// Whether `entity` is a damage number still on screen.
    pub fn is_active(&self, entity: u64) -> (b: bool)
        ensures
            b == self@.dom().contains(entity),
    {
        self.0.has(entity)
    }

    /// Counts every damage number down by `elapsed` nanoseconds; those whose time ran out
    /// are forgotten and returned, each once, to be despawned.
    pub fn remove_expired(&mut self, elapsed: u64) -> (expired: Vec<u64>)
        ensures
            final(self)@ == still_running(old(self)@, elapsed),
            expired@.no_duplicates(),
            expired@.to_set() == running_out(old(self)@, elapsed),
    {
        self.0.drain_expired(elapsed)
    }
}

} // verus!
