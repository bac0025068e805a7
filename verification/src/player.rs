//! The player's level, experience and health.

use vstd::prelude::*;

verus! {

/// Health lost per enemy contact.
pub const ENEMY_DAMAGE: i32 = 5;

/// Experience gained per gem picked up.
pub const GEM_EXP: i32 = 40;

/// The player's progression and health.
pub struct PlayerStats {
    pub lvl: i32,
    pub curr_exp: i32,
    pub next_exp: i32,
    pub max_hp: i32,
    pub hp: i32,
}

impl PlayerStats {
    /// What every operation keeps: a level of at least one, experience that never goes
    /// negative, a positive threshold for the next level and a positive health maximum.
    /// Health itself may drop below zero.
    pub open spec fn well_formed(&self) -> bool {
        &&& self.lvl >= 1
        &&& self.curr_exp >= 0
        &&& self.next_exp > 0
        &&& self.max_hp > 0
    }

    /// Whether the experience gathered reaches the next level's threshold.
    pub open spec fn ready_to_level(&self) -> bool {
        self.curr_exp >= self.next_exp
    }

    /// Whether a player may level up depends on experience alone: it is ready exactly when the
    /// experience gathered reaches the threshold, whatever its level or health.
    pub proof fn lemma_ready_to_level_exact(p: PlayerStats)
        ensures
            p.ready_to_level() <==> p.curr_exp >= p.next_exp,
            forall|q: PlayerStats|
                q.curr_exp == p.curr_exp && q.next_exp == p.next_exp ==> (#[trigger] q.ready_to_level()
                    == p.ready_to_level()),
    {
    }

    /// A fresh player: level 1, no experience, 100 experience to the next level, 100 of 100 health.
    pub fn new() -> (p: PlayerStats)
        ensures
            p.lvl == 1,
            p.curr_exp == 0,
            p.next_exp == 100,
            p.max_hp == 100,
            p.hp == 100,
            p.well_formed(),
    {
        PlayerStats { lvl: 1, curr_exp: 0, next_exp: 100, max_hp: 100, hp: 100 }
    }

    /// Levels up once when the experience reaches the threshold: the threshold is spent,
    /// the level rises by one and `next_exp` becomes the threshold of the new level.
    /// Otherwise nothing changes. Returns whether the level rose.
    /// The threshold of a level is a floating-point formula of it, so the caller computes it.
    pub fn level_up(&mut self, next_exp: i32) -> (leveled: bool)
        requires
            old(self).ready_to_level() ==> {
                &&& old(self).lvl < i32::MAX
                &&& i32::MIN <= old(self).curr_exp - old(self).next_exp <= i32::MAX
            },
        ensures
            leveled == old(self).ready_to_level(),
            leveled == (old(self).curr_exp >= old(self).next_exp),
            old(self).well_formed() && next_exp > 0 ==> final(self).well_formed(),
            final(self).max_hp == old(self).max_hp,
            final(self).hp == old(self).hp,
            leveled ==> {
                &&& final(self).lvl == old(self).lvl + 1
                &&& final(self).curr_exp == old(self).curr_exp - old(self).next_exp
                &&& final(self).next_exp == next_exp
            },
            !leveled ==> *final(self) == *old(self),
    {
        if self.curr_exp >= self.next_exp {
            self.curr_exp = self.curr_exp - self.next_exp;
            self.lvl = self.lvl + 1;
            self.next_exp = next_exp;
            true
        } else {
            false
        }
    }
}

} // verus!
