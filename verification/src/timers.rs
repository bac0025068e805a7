//! Per-entity countdowns kept in the engine's hash map.

use bevy::utils::HashMap;
use vstd::prelude::*;

verus! {

/// What a countdown holds after `elapsed` nanoseconds have passed: it never goes below zero.
pub open spec fn countdown_after(remaining: u64, elapsed: u64) -> u64 {
    if remaining <= elapsed {
        0
    } else {
        (remaining - elapsed) as u64
    }
}

/// The countdowns still running after `elapsed` nanoseconds: those that had more than `elapsed` left,
/// each shortened by `elapsed`.
pub open spec fn still_running(m: Map<u64, u64>, elapsed: u64) -> Map<u64, u64> {
    Map::new(
        |k: u64| m.dom().contains(k) && m[k] > elapsed,
        |k: u64| countdown_after(m[k], elapsed),
    )
}

/// The keys whose countdown runs out within `elapsed` nanoseconds.
pub open spec fn running_out(m: Map<u64, u64>, elapsed: u64) -> Set<u64> {
    Set::new(|k: u64| m.dom().contains(k) && m[k] <= elapsed)
}

/// A table with no countdowns.
pub open spec fn no_timers() -> Map<u64, u64> {
    Map::empty()
}

/// Advances one countdown by `elapsed` nanoseconds; true when it has run out.
pub fn count_down(remaining: &mut u64, elapsed: u64) -> (expired: bool)
    ensures
        *final(remaining) == countdown_after(*old(remaining), elapsed),
        expired == (*old(remaining) <= elapsed),
{
    if *remaining <= elapsed {
        *remaining = 0;
        true
    } else {
        *remaining = *remaining - elapsed;
        false
    }
}

/// Counting down by `a` and then by `b` is counting down by `a + b`: the same countdowns keep
/// running with the same time left, and those that run out over the two steps are those
/// that run out in one.
pub proof fn lemma_count_down_composes(m: Map<u64, u64>, a: u64, b: u64)
    requires
        a + b <= u64::MAX,
    ensures
        still_running(still_running(m, a), b) == still_running(m, (a + b) as u64),
        running_out(m, a) + running_out(still_running(m, a), b) == running_out(m, (a + b) as u64),
{
    assert(still_running(still_running(m, a), b) =~= still_running(m, (a + b) as u64));
    assert(running_out(m, a) + running_out(still_running(m, a), b) =~= running_out(m, (a + b) as u64));
}

/// A countdown step splits the keys: each key either keeps running, with time left and
/// shortened by exactly `elapsed`, or runs out, never both; and no key appears from nowhere.
pub proof fn lemma_count_down_partitions(m: Map<u64, u64>, elapsed: u64)
    ensures
        still_running(m, elapsed).dom() + running_out(m, elapsed) == m.dom(),
        still_running(m, elapsed).dom().disjoint(running_out(m, elapsed)),
        forall|k: u64| #[trigger] still_running(m, elapsed).dom().contains(k) ==>
            still_running(m, elapsed)[k] > 0 && still_running(m, elapsed)[k] + elapsed == m[k],
{
    assert(still_running(m, elapsed).dom() + running_out(m, elapsed) =~= m.dom());
}

/// Exactly what one countdown step keeps and drops: a key keeps running exactly when it had
/// more than `elapsed` left, with `elapsed` less; it runs out exactly when it had at most `elapsed` left.
pub proof fn lemma_count_down_exact(m: Map<u64, u64>, elapsed: u64, k: u64)
    ensures
        still_running(m, elapsed).dom().contains(k) <==> (m.dom().contains(k) && m[k] > elapsed),
        still_running(m, elapsed).dom().contains(k) ==> still_running(m, elapsed)[k] == m[k] - elapsed,
        running_out(m, elapsed).contains(k) <==> (m.dom().contains(k) && m[k] <= elapsed),
{
}

/// A table from entity id to the nanoseconds left on that entity's countdown,
/// held in the engine's `HashMap`.
#[verifier::external_body]
pub struct TimerTable {
    inner: HashMap<u64, u64>,
}

/// What a `TimerTable` holds: entity id to nanoseconds left.
pub uninterp spec fn table_contents(t: TimerTable) -> Map<u64, u64>;

impl TimerTable {
    /// `HashMap::default`: a map with no entries.
    #[verifier::external_body]
    pub(crate) fn empty() -> (table: TimerTable)
        ensures
            table_contents(table) == no_timers(),
    {
        TimerTable { inner: HashMap::default() }
    }

    /// `HashMap::contains_key`: whether the key has an entry.
    #[verifier::external_body]
    pub(crate) fn has(&self, key: u64) -> (b: bool)
        ensures
            b == table_contents(*self).dom().contains(key),
    {
        self.inner.contains_key(&key)
    }

    /// `HashMap::get`, the value copied out: the nanoseconds left for the key, if it has an entry.
    #[verifier::external_body]
    pub(crate) fn left(&self, key: u64) -> (r: Option<u64>)
        ensures
            r == (if table_contents(*self).dom().contains(key) {
                Some(table_contents(*self)[key])
            } else {
                None
            }),
    {
        self.inner.get(&key).copied()
    }

    /// `HashMap::insert`: the key now maps to `value`, replacing any earlier entry.
    #[verifier::external_body]
    pub(crate) fn set(&mut self, key: u64, value: u64)
        ensures
            table_contents(*final(self)) == table_contents(*old(self)).insert(key, value),
    {
        self.inner.insert(key, value);
    }

    /// `HashMap::drain_filter` with `count_down` as the predicate, drained to the end:
    /// every value is counted down by `elapsed`; the entries that ran out leave the map
    /// and their keys are returned, each once, in the map's iteration order.
    #[verifier::external_body]
    pub(crate) fn drain_expired(&mut self, elapsed: u64) -> (gone: Vec<u64>)
        ensures
            table_contents(*final(self)) == still_running(table_contents(*old(self)), elapsed),
            gone@.no_duplicates(),
            gone@.to_set() == running_out(table_contents(*old(self)), elapsed),
    {
        self.inner.drain_filter(|_key, left| count_down(left, elapsed)).map(|(key, _)| key).collect()
    }
}

} // verus!
