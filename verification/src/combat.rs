//! What the physics contacts of one frame do: enemies hurt the player (once per cooldown),
//! a fireball kills the first enemy it overlaps, and the player collects the gems it touches.

use crate::player::{PlayerStats, ENEMY_DAMAGE, GEM_EXP};
use crate::timers::{no_timers, still_running, table_contents, TimerTable};
use vstd::prelude::*;

verus! {

broadcast use vstd::seq_lib::seq_to_set_is_finite;

/// Nanoseconds during which an enemy that hurt the player cannot hurt it again (half a second).
pub const ENEMY_DAMAGE_COOLDOWN: u64 = 500_000_000;

/// The collider of a pair that is not `me`: the second when the first is `me`, else the first.
pub open spec fn other_collider(first: u64, second: u64, me: u64) -> u64 {
    if first == me {
        second
    } else {
        first
    }
}

/// The collider of a pair that is not `me`.
pub fn other_of(first: u64, second: u64, me: u64) -> (other: u64)
    ensures
        other == other_collider(first, second, me),
{
    if first == me {
        second
    } else {
        first
    }
}

/// Whether `x` occurs in `items`.
fn list_contains(items: &Vec<u64>, x: u64) -> (found: bool)
    ensures
        found == items@.contains(x),
{
    let mut i: usize = 0;
    while i < items.len()
        invariant
            i <= items.len(),
            forall|j: int| 0 <= j < i ==> items@[j] != x,
        decreases items.len() - i,
    {
        if items[i] == x {
            return true;
        }
        i = i + 1;
    }
    false
}

/// For each contact pair, the collider that touches `me`.
pub open spec fn contact_others(contacts: Seq<(u64, u64)>, me: u64) -> Seq<u64> {
    contacts.map_values(|c: (u64, u64)| other_collider(c.0, c.1, me))
}

/// The enemies among `touching` that are not cooling down: each of them hurts the player once,
/// however many contacts it has.
pub open spec fn enemies_hurting(touching: Seq<u64>, enemies: Seq<u64>, cooling: Set<u64>) -> Set<u64> {
    touching.to_set().filter(|e: u64| enemies.contains(e) && !cooling.contains(e))
}

/// The cooldowns after a frame's hits: those still running, and a full cooldown for each enemy that hit.
pub open spec fn with_fresh_cooldowns(running: Map<u64, u64>, hit: Set<u64>) -> Map<u64, u64> {
    running.union_prefer_right(Map::new(|e: u64| hit.contains(e), |e: u64| ENEMY_DAMAGE_COOLDOWN))
}

/// The enemies that hurt the player in a frame: those it touches whose cooldown has run out
/// once `elapsed` nanoseconds are counted off.
pub open spec fn frame_hits(
    cooldowns: Map<u64, u64>,
    contacts: Seq<(u64, u64)>,
    player_entity: u64,
    enemies: Seq<u64>,
    elapsed: u64,
) -> Set<u64> {
    enemies_hurting(
        contact_others(contacts, player_entity),
        enemies,
        still_running(cooldowns, elapsed).dom(),
    )
}

/// The cooldowns after a frame: those still running once `elapsed` nanoseconds are counted off,
/// and a full cooldown for each enemy that hurt the player in the frame.
pub open spec fn next_cooldowns(
    cooldowns: Map<u64, u64>,
    contacts: Seq<(u64, u64)>,
    player_entity: u64,
    enemies: Seq<u64>,
    elapsed: u64,
) -> Map<u64, u64> {
    with_fresh_cooldowns(
        still_running(cooldowns, elapsed),
        frame_hits(cooldowns, contacts, player_entity, enemies, elapsed),
    )
}

/// The cooldowns before frame `n` of a run of frames that starts from `start`; frame `t`
/// brings the contacts `contacts[t]`, the live enemies `enemies[t]` and `elapsed[t]` nanoseconds.
pub open spec fn cooldowns_before(
    start: Map<u64, u64>,
    player_entity: u64,
    contacts: Seq<Seq<(u64, u64)>>,
    enemies: Seq<Seq<u64>>,
    elapsed: Seq<u64>,
    n: nat,
) -> Map<u64, u64>
    decreases n,
{
    if n == 0 {
        start
    } else {
        let t = (n - 1) as nat;
        next_cooldowns(
            cooldowns_before(start, player_entity, contacts, enemies, elapsed, t),
            contacts[t as int],
            player_entity,
            enemies[t as int],
            elapsed[t as int],
        )
    }
}

/// The enemies that hurt the player in frame `t` of a run of frames.
pub open spec fn hits_in_frame(
    start: Map<u64, u64>,
    player_entity: u64,
    contacts: Seq<Seq<(u64, u64)>>,
    enemies: Seq<Seq<u64>>,
    elapsed: Seq<u64>,
    t: nat,
) -> Set<u64> {
    frame_hits(
        cooldowns_before(start, player_entity, contacts, enemies, elapsed, t),
        contacts[t as int],
        player_entity,
        enemies[t as int],
        elapsed[t as int],
    )
}

/// The nanoseconds counted off over frames `from` up to, not including, `to`.
pub open spec fn time_between(elapsed: Seq<u64>, from: nat, to: nat) -> int
    decreases to - from,
{
    if to <= from {
        0
    } else {
        time_between(elapsed, from, (to - 1) as nat) + elapsed[to - 1]
    }
}

/// Counted-off time only grows as the span of frames grows.
proof fn lemma_time_between_grows(elapsed: Seq<u64>, from: nat, mid: nat, to: nat)
    requires
        from <= mid <= to,
    ensures
        time_between(elapsed, from, mid) <= time_between(elapsed, from, to),
    decreases to - mid,
{
    if mid < to {
        lemma_time_between_grows(elapsed, from, mid, (to - 1) as nat);
    }
}

/// After an enemy hurts the player in frame `k`, as long as it does not hurt again, either a whole
/// cooldown has been counted off since, or it is still cooling with exactly the rest left.
proof fn lemma_cooldown_runs_down(
    start: Map<u64, u64>,
    player_entity: u64,
    contacts: Seq<Seq<(u64, u64)>>,
    enemies: Seq<Seq<u64>>,
    elapsed: Seq<u64>,
    enemy: u64,
    k: nat,
    t: nat,
)
    requires
        contacts.len() == enemies.len() == elapsed.len(),
        k < t <= elapsed.len(),
        hits_in_frame(start, player_entity, contacts, enemies, elapsed, k).contains(enemy),
        forall|s: nat| k < s < t ==> !#[trigger] hits_in_frame(start, player_entity, contacts, enemies, elapsed, s).contains(enemy),
    ensures
        time_between(elapsed, k + 1, t) >= ENEMY_DAMAGE_COOLDOWN || {
            let m = cooldowns_before(start, player_entity, contacts, enemies, elapsed, t);
            &&& m.dom().contains(enemy)
            &&& m[enemy] == ENEMY_DAMAGE_COOLDOWN - time_between(elapsed, k + 1, t)
        },
    decreases t,
{
    if t == k + 1 {
        assert(time_between(elapsed, k + 1, t) == 0);
    } else {
        let u = (t - 1) as nat;
        lemma_cooldown_runs_down(start, player_entity, contacts, enemies, elapsed, enemy, k, u);
        assert(!hits_in_frame(start, player_entity, contacts, enemies, elapsed, u).contains(enemy));
        assert(time_between(elapsed, k + 1, t) == time_between(elapsed, k + 1, u) + elapsed[u as int]);
    }
}

/// One enemy hurts the player at most once per cooldown: when an enemy hurts the player in frame
/// `k` and again in a later frame `j`, the frames after `k` up to and including `j` count off at
/// least `ENEMY_DAMAGE_COOLDOWN` nanoseconds. Within one frame an enemy hurts at most once,
/// since the hits of a frame are a set.
pub proof fn lemma_one_hit_per_cooldown(
    start: Map<u64, u64>,
    player_entity: u64,
    contacts: Seq<Seq<(u64, u64)>>,
    enemies: Seq<Seq<u64>>,
    elapsed: Seq<u64>,
    enemy: u64,
    k: nat,
    j: nat,
)
    requires
        contacts.len() == enemies.len() == elapsed.len(),
        k < j < elapsed.len(),
        hits_in_frame(start, player_entity, contacts, enemies, elapsed, k).contains(enemy),
        hits_in_frame(start, player_entity, contacts, enemies, elapsed, j).contains(enemy),
    ensures
        time_between(elapsed, k + 1, j + 1) >= ENEMY_DAMAGE_COOLDOWN,
    decreases j,
{
    if exists|s: nat| k < s < j && #[trigger] hits_in_frame(start, player_entity, contacts, enemies, elapsed, s).contains(enemy) {
        let s = choose|s: nat| k < s < j && #[trigger] hits_in_frame(start, player_entity, contacts, enemies, elapsed, s).contains(enemy);
        lemma_one_hit_per_cooldown(start, player_entity, contacts, enemies, elapsed, enemy, k, s);
        lemma_time_between_grows(elapsed, k + 1, s + 1, j + 1);
    } else {
        lemma_cooldown_runs_down(start, player_entity, contacts, enemies, elapsed, enemy, k, j);
        assert(time_between(elapsed, k + 1, j + 1) == time_between(elapsed, k + 1, j) + elapsed[j as int]);
    }
}

/// The enemies that recently hurt the player, each with the nanoseconds left before it can again.
pub struct PlayerHitCooldown(pub TimerTable);

impl View for PlayerHitCooldown {
    type V = Map<u64, u64>;

    open spec fn view(&self) -> Map<u64, u64> {
        table_contents(self.0)
    }
}

impl PlayerHitCooldown {
    /// No enemy is cooling down.
    pub fn new() -> (c: PlayerHitCooldown)
        ensures
            c@ == no_timers(),
    {
        PlayerHitCooldown(TimerTable::empty())
    }

    /// Whether `enemy` is cooling down.
    pub fn is_cooling(&self, enemy: u64) -> (b: bool)
        ensures
            b == self@.dom().contains(enemy),
    {
        self.0.has(enemy)
    }

    /// How many enemies would hurt the player in this frame, without changing anything: the
    /// touching enemies, counted once each, whose cooldown runs out within `elapsed` nanoseconds
    /// or that are not cooling down.
    pub fn hits_this_frame(
        &self,
        player_entity: u64,
        contacts: &Vec<(u64, u64)>,
        enemies: &Vec<u64>,
        elapsed: u64,
    ) -> (n: usize)
        ensures
            n == frame_hits(self@, contacts@, player_entity, enemies@, elapsed).len(),
    {
        let ghost running = still_running(self@, elapsed);
        let ghost others = contact_others(contacts@, player_entity);
        let mut seen: Vec<u64> = Vec::new();
        proof {
            assert(enemies_hurting(others.take(0), enemies@, running.dom()) =~= Set::empty());
            assert(seen@.to_set() =~= Set::empty());
        }
        let mut i: usize = 0;
        while i < contacts.len()
            invariant
                i <= contacts.len(),
                running == still_running(self@, elapsed),
                others == contact_others(contacts@, player_entity),
                seen@.no_duplicates(),
                seen@.len() <= i,
                seen@.to_set() == enemies_hurting(others.take(i as int), enemies@, running.dom()),
            decreases contacts.len() - i,
        {
            let (first, second) = contacts[i];
            let other = other_of(first, second, player_entity);
            let ghost pre = others.take(i as int);
            let ghost pre_next = others.take(i + 1);
            let ghost before = enemies_hurting(pre, enemies@, running.dom());
            let ghost after = enemies_hurting(pre_next, enemies@, running.dom());
            proof {
                assert(others[i as int] == other);
                assert(pre_next.to_set() =~= pre.to_set().insert(other)) by {
                    assert forall|x: u64| pre_next.to_set().contains(x) implies
                        pre.to_set().insert(other).contains(x) by {
                        let j = choose|j: int| 0 <= j < pre_next.len() && pre_next[j] == x;
                        if j < i {
                            assert(pre[j] == x);
                        }
                    }
                    assert forall|x: u64| pre.to_set().insert(other).contains(x) implies
                        pre_next.to_set().contains(x) by {
                        if x == other {
                            assert(pre_next[i as int] == x);
                        } else {
                            let j = choose|j: int| 0 <= j < pre.len() && pre[j] == x;
                            assert(pre_next[j] == x);
                        }
                    }
                }
            }
            let cooling = match self.0.left(other) {
                Some(remaining) => remaining > elapsed,
                None => false,
            };
            if list_contains(enemies, other) && !cooling && !list_contains(&seen, other) {
                proof {
                    assert(!running.dom().contains(other));
                    assert(after =~= before.insert(other));
                    assert(!seen@.contains(other));
                }
                let ghost seen_before = seen@;
                seen.push(other);
                proof {
                    assert(seen@ =~= seen_before.push(other));
                    assert forall|x: u64| seen@.to_set().contains(x) implies after.contains(x) by {
                        let j = choose|j: int| 0 <= j < seen@.len() && seen@[j] == x;
                        if j < seen_before.len() {
                            assert(seen_before[j] == x);
                            assert(seen_before.to_set().contains(x));
                        }
                    }
                    assert forall|x: u64| after.contains(x) implies seen@.to_set().contains(x) by {
                        if x == other {
                            assert(seen@[seen_before.len() as int] == x);
                        } else {
                            assert(before.contains(x));
                            assert(seen_before.to_set().contains(x));
                            let j = choose|j: int| 0 <= j < seen_before.len() && seen_before[j] == x;
                            assert(seen@[j] == x);
                        }
                    }
                    assert(seen@.to_set() =~= after);
                }
            } else {
                proof {
                    if enemies@.contains(other) && !running.dom().contains(other) {
                        assert(seen@.to_set().contains(other));
                    }
                    assert(after =~= before);
                }
            }
            i = i + 1;
        }
        proof {
            assert(others.take(contacts.len() as int) =~= others);
            seen@.unique_seq_to_set();
        }
        seen.len()
    }

    /// One frame of enemy contacts: the cooldowns are counted down by `elapsed` nanoseconds
    /// and those that ran out are dropped; then each contact of the player with an enemy that
    /// is not cooling down costs `ENEMY_DAMAGE` health and starts that enemy's cooldown.
    pub fn player_enemy_collisions(
        &mut self,
        player: &mut PlayerStats,
        player_entity: u64,
        contacts: &Vec<(u64, u64)>,
        enemies: &Vec<u64>,
        elapsed: u64,
    )
        requires
            old(player).hp - ENEMY_DAMAGE * frame_hits(old(self)@, contacts@, player_entity, enemies@, elapsed).len()
                >= i32::MIN,
        ensures
            final(self)@ == next_cooldowns(old(self)@, contacts@, player_entity, enemies@, elapsed),
            final(player).hp == old(player).hp - ENEMY_DAMAGE * frame_hits(
                old(self)@,
                contacts@,
                player_entity,
                enemies@,
                elapsed,
            ).len(),
            final(player).lvl == old(player).lvl,
            final(player).curr_exp == old(player).curr_exp,
            final(player).next_exp == old(player).next_exp,
            final(player).max_hp == old(player).max_hp,
            old(player).well_formed() ==> final(player).well_formed(),
    {
        let _ = self.0.drain_expired(elapsed);
        let ghost running = self@;
        let ghost others = contact_others(contacts@, player_entity);
        let ghost all_hits = enemies_hurting(others, enemies@, running.dom());
        proof {
            assert(all_hits.finite()) by {
                vstd::set_lib::lemma_len_subset(all_hits, others.to_set());
            }
            assert(enemies_hurting(others.take(0), enemies@, running.dom()) =~= Set::empty());
            assert(self@ =~= with_fresh_cooldowns(running, Set::empty()));
        }
        let mut i: usize = 0;
        while i < contacts.len()
            invariant
                i <= contacts.len(),
                others == contact_others(contacts@, player_entity),
                all_hits == enemies_hurting(others, enemies@, running.dom()),
                all_hits.finite(),
                old(player).hp - ENEMY_DAMAGE * all_hits.len() >= i32::MIN,
                self@ == with_fresh_cooldowns(
                    running,
                    enemies_hurting(others.take(i as int), enemies@, running.dom()),
                ),
                player.hp == old(player).hp - ENEMY_DAMAGE * enemies_hurting(
                    others.take(i as int),
                    enemies@,
                    running.dom(),
                ).len(),
                player.lvl == old(player).lvl,
                player.curr_exp == old(player).curr_exp,
                player.next_exp == old(player).next_exp,
                player.max_hp == old(player).max_hp,
            decreases contacts.len() - i,
        {
            let (first, second) = contacts[i];
            let other = other_of(first, second, player_entity);
            let ghost before = enemies_hurting(others.take(i as int), enemies@, running.dom());
            let ghost after = enemies_hurting(others.take(i + 1), enemies@, running.dom());
            let ghost pre = others.take(i as int);
            let ghost pre_next = others.take(i + 1);
            proof {
                assert(others[i as int] == other);
                assert(pre_next.to_set() =~= pre.to_set().insert(other)) by {
                    assert forall|x: u64| pre_next.to_set().contains(x) implies
                        pre.to_set().insert(other).contains(x) by {
                        let j = choose|j: int| 0 <= j < pre_next.len() && pre_next[j] == x;
                        if j < i {
                            assert(pre[j] == x);
                        }
                    }
                    assert forall|x: u64| pre.to_set().insert(other).contains(x) implies
                        pre_next.to_set().contains(x) by {
                        if x == other {
                            assert(pre_next[i as int] == x);
                        } else {
                            let j = choose|j: int| 0 <= j < pre.len() && pre[j] == x;
                            assert(pre_next[j] == x);
                        }
                    }
                }
                assert(after.subset_of(all_hits)) by {
                    assert forall|x: u64| after.contains(x) implies all_hits.contains(x) by {
                        let j = choose|j: int| 0 <= j < pre_next.len() && pre_next[j] == x;
                        assert(others[j] == x);
                    }
                }
                vstd::set_lib::lemma_len_subset(after, all_hits);
                assert(before.subset_of(after));
                vstd::set_lib::lemma_len_subset(before, after);
            }
            if list_contains(enemies, other) && !self.0.has(other) {
                proof {
                    assert(!running.dom().contains(other));
                    assert(!before.contains(other));
                    assert(after =~= before.insert(other));
                }
                player.hp = player.hp - ENEMY_DAMAGE;
                self.0.set(other, ENEMY_DAMAGE_COOLDOWN);
                proof {
                    assert(self@ =~= with_fresh_cooldowns(running, after));
                }
            } else {
                proof {
                    assert(after =~= before);
                }
            }
            i = i + 1;
        }
        proof {
            assert(others.take(contacts.len() as int) =~= others);
        }
    }
}

/// An enemy whose cooldown is still running after the frame's time is counted off does not
/// hurt the player, and an enemy that hurts the player is one it touches.
pub proof fn lemma_cooling_enemy_spared(
    cooldowns: Map<u64, u64>,
    contacts: Seq<(u64, u64)>,
    player_entity: u64,
    enemies: Seq<u64>,
    elapsed: u64,
    enemy: u64,
)
    ensures
        still_running(cooldowns, elapsed).dom().contains(enemy) ==> !frame_hits(
            cooldowns,
            contacts,
            player_entity,
            enemies,
            elapsed,
        ).contains(enemy),
        frame_hits(cooldowns, contacts, player_entity, enemies, elapsed).contains(enemy) ==> {
            &&& contact_others(contacts, player_entity).contains(enemy)
            &&& enemies.contains(enemy)
        },
{
}

/// A frame costs the player at most `ENEMY_DAMAGE` per contact: an enemy with several
/// contacts hurts once.
pub proof fn lemma_damage_bounded_by_contacts(
    cooldowns: Map<u64, u64>,
    contacts: Seq<(u64, u64)>,
    player_entity: u64,
    enemies: Seq<u64>,
    elapsed: u64,
)
    ensures
        frame_hits(cooldowns, contacts, player_entity, enemies, elapsed).finite(),
        frame_hits(cooldowns, contacts, player_entity, enemies, elapsed).len() <= contacts.len(),
{
    let others = contact_others(contacts, player_entity);
    let hits = frame_hits(cooldowns, contacts, player_entity, enemies, elapsed);
    vstd::set_lib::lemma_len_subset(hits, others.to_set());
    others.lemma_cardinality_of_set();
}

/// A fireball meeting an enemy: a gem drops where `enemy` stood, and both colliders of the
/// overlapping pair are despawned.
pub struct AttackHit {
    pub enemy: u64,
    pub first: u64,
    pub second: u64,
}

/// What an attack does with the pairs it overlaps, taken in order: only the first intersecting
/// pair counts; when its other collider is an enemy, that enemy is hit, and otherwise nothing happens.
pub open spec fn attack_outcome(attack: u64, pairs: Seq<(u64, u64, bool)>, enemies: Seq<u64>) -> Option<AttackHit>
    decreases pairs.len(),
{
    if pairs.len() == 0 {
        None
    } else if pairs[0].2 {
        let other = other_collider(pairs[0].0, pairs[0].1, attack);
        if enemies.contains(other) {
            Some(AttackHit { enemy: other, first: pairs[0].0, second: pairs[0].1 })
        } else {
            None
        }
    } else {
        attack_outcome(attack, pairs.drop_first(), enemies)
    }
}

/// The hit, if any, of one attack entity given the pairs it overlaps this frame
/// (first collider, second collider, whether they intersect) and the live enemies.
pub fn attack_hit(attack: u64, pairs: &Vec<(u64, u64, bool)>, enemies: &Vec<u64>) -> (hit: Option<AttackHit>)
    ensures
        hit == attack_outcome(attack, pairs@, enemies@),
        hit matches Some(h) ==> {
            &&& h.enemy == (if h.first == attack { h.second } else { h.first })
            &&& enemies@.contains(h.enemy)
            &&& pairs@.contains((h.first, h.second, true))
        },
{
    proof {
        lemma_attack_outcome_exact(attack, pairs@, enemies@);
    }
    let mut i: usize = 0;
    proof {
        assert(pairs@.skip(0) =~= pairs@);
    }
    while i < pairs.len()
        invariant
            i <= pairs.len(),
            attack_outcome(attack, pairs@, enemies@) == attack_outcome(attack, pairs@.skip(i as int), enemies@),
        decreases pairs.len() - i,
    {
        let (first, second, intersecting) = pairs[i];
        proof {
            assert(pairs@.skip(i as int)[0] == pairs@[i as int]);
            assert(pairs@.skip(i as int).drop_first() =~= pairs@.skip(i + 1));
        }
        if intersecting {
            let other = other_of(first, second, attack);
            if list_contains(enemies, other) {
                return Some(AttackHit { enemy: other, first, second });
            } else {
                return None;
            }
        }
        i = i + 1;
    }
    proof {
        assert(pairs@.skip(pairs.len() as int).len() == 0);
    }
    None
}

/// The gems the player collects from the pairs it overlaps, in order: the other collider of
/// every intersecting pair.
pub open spec fn gems_collected(pairs: Seq<(u64, u64, bool)>, player_entity: u64) -> Seq<u64>
    decreases pairs.len(),
{
    if pairs.len() == 0 {
        Seq::empty()
    } else {
        let rest = gems_collected(pairs.drop_last(), player_entity);
        let last = pairs.last();
        if last.2 {
            rest.push(other_collider(last.0, last.1, player_entity))
        } else {
            rest
        }
    }
}

/// Collects the gems the player overlaps: each is returned, to be despawned, and is worth
/// `GEM_EXP` experience.
pub fn pickup_gems(player: &mut PlayerStats, player_entity: u64, pairs: &Vec<(u64, u64, bool)>) -> (gems: Vec<u64>)
    requires
        old(player).curr_exp + GEM_EXP * gems_collected(pairs@, player_entity).len() <= i32::MAX,
    ensures
        gems@ == gems_collected(pairs@, player_entity),
        gems@.len() == pairs@.filter(|q: (u64, u64, bool)| q.2).len(),
        final(player).curr_exp == old(player).curr_exp + GEM_EXP * gems@.len(),
        final(player).lvl == old(player).lvl,
        final(player).next_exp == old(player).next_exp,
        final(player).max_hp == old(player).max_hp,
        final(player).hp == old(player).hp,
        old(player).well_formed() ==> final(player).well_formed(),
{
    let mut gems: Vec<u64> = Vec::new();
    let mut i: usize = 0;
    proof {
        assert(pairs@.take(0) =~= Seq::<(u64, u64, bool)>::empty());
    }
    while i < pairs.len()
        invariant
            i <= pairs.len(),
            gems@ == gems_collected(pairs@.take(i as int), player_entity),
            gems_collected(pairs@, player_entity).len() >= gems@.len(),
            old(player).curr_exp + GEM_EXP * gems_collected(pairs@, player_entity).len() <= i32::MAX,
            player.curr_exp == old(player).curr_exp + GEM_EXP * gems@.len(),
            player.lvl == old(player).lvl,
            player.next_exp == old(player).next_exp,
            player.max_hp == old(player).max_hp,
            player.hp == old(player).hp,
        decreases pairs.len() - i,
    {
        let (first, second, intersecting) = pairs[i];
        proof {
            assert(pairs@.take(i + 1).drop_last() =~= pairs@.take(i as int));
            assert(pairs@.take(i + 1).last() == pairs@[i as int]);
            lemma_gems_collected_prefix(pairs@, player_entity, i + 1);
        }
        if intersecting {
            let gem = other_of(first, second, player_entity);
            gems.push(gem);
            player.curr_exp = player.curr_exp + GEM_EXP;
        }
        i = i + 1;
    }
    proof {
        assert(pairs@.take(pairs.len() as int) =~= pairs@);
        lemma_gems_collected_exact(pairs@, player_entity);
    }
    gems
}

/// A prefix of the pairs collects no more gems than all of them.
proof fn lemma_gems_collected_prefix(pairs: Seq<(u64, u64, bool)>, player_entity: u64, n: int)
    requires
        0 <= n <= pairs.len(),
    ensures
        gems_collected(pairs.take(n), player_entity).len() <= gems_collected(pairs, player_entity).len(),
    decreases pairs.len() - n,
{
    if n < pairs.len() {
        lemma_gems_collected_prefix(pairs, player_entity, n + 1);
        assert(pairs.take(n + 1).drop_last() =~= pairs.take(n));
    } else {
        assert(pairs.take(n) =~= pairs);
    }
}

/// Exactly which enemies hurt the player in a frame: `e` hurts exactly when some contact pair
/// touches the player with `e` as its other collider, `e` is a live enemy, and `e` is not still
/// cooling, that is, it has no cooldown or one of at most `elapsed` nanoseconds. Every such
/// contact counts, wherever it stands among the contacts.
pub proof fn lemma_frame_hits_exact(
    cooldowns: Map<u64, u64>,
    contacts: Seq<(u64, u64)>,
    player_entity: u64,
    enemies: Seq<u64>,
    elapsed: u64,
    e: u64,
)
    ensures
        frame_hits(cooldowns, contacts, player_entity, enemies, elapsed).contains(e) <==> {
            &&& exists|i: int| 0 <= i < contacts.len() && #[trigger] contacts[i] == contacts[i] && (if contacts[i].0
                == player_entity {
                contacts[i].1
            } else {
                contacts[i].0
            }) == e
            &&& enemies.contains(e)
            &&& !(cooldowns.dom().contains(e) && cooldowns[e] > elapsed)
        },
{
    let others = contact_others(contacts, player_entity);
    if frame_hits(cooldowns, contacts, player_entity, enemies, elapsed).contains(e) {
        let i = choose|i: int| 0 <= i < others.len() && others[i] == e;
        assert(contacts[i] == contacts[i]);
    }
    if exists|i: int| 0 <= i < contacts.len() && #[trigger] contacts[i] == contacts[i] && (if contacts[i].0
        == player_entity {
        contacts[i].1
    } else {
        contacts[i].0
    }) == e {
        let i = choose|i: int| 0 <= i < contacts.len() && #[trigger] contacts[i] == contacts[i] && (if contacts[i].0
            == player_entity {
            contacts[i].1
        } else {
            contacts[i].0
        }) == e;
        assert(others[i] == e);
        assert(others.to_set().contains(e));
    }
}

/// Exactly the cooldowns after a frame: an enemy that hurt the player has a full
/// `ENEMY_DAMAGE_COOLDOWN`; any other key keeps its cooldown shortened by `elapsed` when more
/// than `elapsed` was left, and is gone otherwise; nothing else appears.
pub proof fn lemma_next_cooldowns_exact(
    cooldowns: Map<u64, u64>,
    contacts: Seq<(u64, u64)>,
    player_entity: u64,
    enemies: Seq<u64>,
    elapsed: u64,
    e: u64,
)
    ensures
        frame_hits(cooldowns, contacts, player_entity, enemies, elapsed).contains(e) ==> {
            &&& next_cooldowns(cooldowns, contacts, player_entity, enemies, elapsed).dom().contains(e)
            &&& next_cooldowns(cooldowns, contacts, player_entity, enemies, elapsed)[e] == ENEMY_DAMAGE_COOLDOWN
        },
        !frame_hits(cooldowns, contacts, player_entity, enemies, elapsed).contains(e) ==> {
            &&& next_cooldowns(cooldowns, contacts, player_entity, enemies, elapsed).dom().contains(e)
                <==> (cooldowns.dom().contains(e) && cooldowns[e] > elapsed)
            &&& (cooldowns.dom().contains(e) && cooldowns[e] > elapsed) ==> next_cooldowns(
                cooldowns,
                contacts,
                player_entity,
                enemies,
                elapsed,
            )[e] == cooldowns[e] - elapsed
        },
{
}

/// Exactly what an attack does: when pair `i` is the first intersecting pair, the attack hits
/// the collider of that pair that is not the attack if it is a live enemy, with both colliders of
/// the pair as they stand, and hits nothing otherwise; with no intersecting pair it hits nothing.
pub proof fn lemma_attack_outcome_exact(attack: u64, pairs: Seq<(u64, u64, bool)>, enemies: Seq<u64>)
    ensures
        forall|i: int|
            0 <= i < pairs.len() && #[trigger] pairs[i].2 && (forall|j: int| 0 <= j < i ==> !pairs[j].2) ==> {
                let o = if pairs[i].0 == attack {
                    pairs[i].1
                } else {
                    pairs[i].0
                };
                attack_outcome(attack, pairs, enemies) == if enemies.contains(o) {
                    Some(AttackHit { enemy: o, first: pairs[i].0, second: pairs[i].1 })
                } else {
                    None
                }
            },
        (forall|j: int| 0 <= j < pairs.len() ==> !pairs[j].2) ==> attack_outcome(attack, pairs, enemies) is None,
        attack_outcome(attack, pairs, enemies) matches Some(h) ==> {
            &&& h.enemy == (if h.first == attack { h.second } else { h.first })
            &&& enemies.contains(h.enemy)
            &&& pairs.contains((h.first, h.second, true))
        },
    decreases pairs.len(),
{
    if pairs.len() > 0 {
        let rest = pairs.drop_first();
        lemma_attack_outcome_exact(attack, rest, enemies);
        assert forall|i: int|
            0 <= i < pairs.len() && #[trigger] pairs[i].2 && (forall|j: int| 0 <= j < i ==> !pairs[j].2) implies {
                let o = if pairs[i].0 == attack {
                    pairs[i].1
                } else {
                    pairs[i].0
                };
                attack_outcome(attack, pairs, enemies) == if enemies.contains(o) {
                    Some(AttackHit { enemy: o, first: pairs[i].0, second: pairs[i].1 })
                } else {
                    None
                }
            } by {
            if i > 0 {
                assert(!pairs[0].2);
                assert(rest[i - 1] == pairs[i]);
                assert(rest[i - 1].2);
                assert forall|j: int| 0 <= j < i - 1 implies !rest[j].2 by {
                    assert(rest[j] == pairs[j + 1]);
                }
            }
        }
        if forall|j: int| 0 <= j < pairs.len() ==> !pairs[j].2 {
            assert(!pairs[0].2);
            assert forall|j: int| 0 <= j < rest.len() implies !rest[j].2 by {
                assert(rest[j] == pairs[j + 1]);
            }
        }
        if attack_outcome(attack, pairs, enemies) is Some && !pairs[0].2 {
            let h = attack_outcome(attack, pairs, enemies)->0;
            let k = choose|k: int| 0 <= k < rest.len() && rest[k] == (h.first, h.second, true);
            assert(pairs[k + 1] == (h.first, h.second, true));
        }
        if attack_outcome(attack, pairs, enemies) is Some && pairs[0].2 {
            assert(pairs[0] == (pairs[0].0, pairs[0].1, true));
        }
    }
}

/// Every intersecting pair yields its gem, whatever came before: adding one more pair adds
/// the collider of it that is not the player exactly when it intersects.
pub proof fn lemma_gems_collected_push(pairs: Seq<(u64, u64, bool)>, player_entity: u64, pair: (u64, u64, bool))
    ensures
        gems_collected(pairs.push(pair), player_entity) == if pair.2 {
            gems_collected(pairs, player_entity).push(
                if pair.0 == player_entity {
                    pair.1
                } else {
                    pair.0
                },
            )
        } else {
            gems_collected(pairs, player_entity)
        },
        gems_collected(Seq::empty(), player_entity) == Seq::<u64>::empty(),
{
    assert(pairs.push(pair).drop_last() =~= pairs);
}

/// The gems collected are, in order, the other collider of each intersecting pair, one per
/// intersecting pair.
pub proof fn lemma_gems_collected_exact(pairs: Seq<(u64, u64, bool)>, player_entity: u64)
    ensures
        gems_collected(pairs, player_entity) == pairs.filter(|q: (u64, u64, bool)| q.2).map_values(
            |q: (u64, u64, bool)|
                if q.0 == player_entity {
                    q.1
                } else {
                    q.0
                },
        ),
        gems_collected(pairs, player_entity).len() == pairs.filter(|q: (u64, u64, bool)| q.2).len(),
    decreases pairs.len(),
{
    let pred = |q: (u64, u64, bool)| q.2;
    let f = |q: (u64, u64, bool)|
        if q.0 == player_entity {
            q.1
        } else {
            q.0
        };
    reveal_with_fuel(Seq::<(u64, u64, bool)>::filter, 1);
    if pairs.len() > 0 {
        lemma_gems_collected_exact(pairs.drop_last(), player_entity);
        let sub = pairs.drop_last().filter(pred);
        assert(pairs.filter(pred) == (if pred(pairs.last()) { sub.push(pairs.last()) } else { sub }));
        assert(gems_collected(pairs.drop_last(), player_entity) == sub.map_values(f));
        if pairs.last().2 {
            assert(sub.push(pairs.last()).map_values(f) =~= sub.map_values(f).push(f(pairs.last())));
        }
    } else {
        assert(pairs.filter(pred) =~= Seq::<(u64, u64, bool)>::empty());
    }
    assert(gems_collected(pairs, player_entity) =~= pairs.filter(pred).map_values(f));
}

} // verus!
