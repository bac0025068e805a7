use monster_survivors::animation::{next_frame, steer, Steer};
use monster_survivors::combat::{attack_hit, other_of, pickup_gems, PlayerHitCooldown, ENEMY_DAMAGE_COOLDOWN};
use monster_survivors::effects::{ActiveDamageEffects, DAMAGE_NUMBER_LIFETIME};
use monster_survivors::game_flow::{respond, BgmPlayback, CatWeaponSpawner, FlowEvent, GameState};
use monster_survivors::player::{PlayerStats, ENEMY_DAMAGE, GEM_EXP};
use monster_survivors::timers::count_down;

const PLAYER: u64 = 1;

#[test]
fn fresh_player_stats() {
    let p = PlayerStats::new();
    assert_eq!((p.lvl, p.curr_exp, p.next_exp, p.max_hp, p.hp), (1, 0, 100, 100, 100));
}

#[test]
fn level_up_spends_threshold() {
    let mut p = PlayerStats::new();
    p.curr_exp = 130;
    assert!(p.level_up(230));
    assert_eq!((p.lvl, p.curr_exp, p.next_exp), (2, 30, 230));
    assert_eq!((p.max_hp, p.hp), (100, 100));
}

#[test]
fn level_up_at_exact_threshold() {
    let mut p = PlayerStats::new();
    p.curr_exp = 100;
    assert!(p.level_up(230));
    assert_eq!((p.lvl, p.curr_exp), (2, 0));
}

#[test]
fn level_up_below_threshold_changes_nothing() {
    let mut p = PlayerStats::new();
    p.curr_exp = 99;
    assert!(!p.level_up(230));
    assert_eq!((p.lvl, p.curr_exp, p.next_exp), (1, 99, 100));
}

#[test]
fn level_up_once_per_call() {
    let mut p = PlayerStats::new();
    p.curr_exp = 1000;
    assert!(p.level_up(230));
    assert_eq!((p.lvl, p.curr_exp, p.next_exp), (2, 900, 230));
    assert!(p.level_up(347));
    assert_eq!((p.lvl, p.curr_exp, p.next_exp), (3, 670, 347));
}

#[test]
fn gems_give_experience_and_are_returned() {
    let mut p = PlayerStats::new();
    let pairs = vec![(PLAYER, 9, true), (3, PLAYER, false), (4, PLAYER, true)];
    let gems = pickup_gems(&mut p, PLAYER, &pairs);
    assert_eq!(gems, vec![9, 4]);
    assert_eq!(p.curr_exp, 2 * GEM_EXP);
    assert_eq!(p.hp, 100);
}

#[test]
fn no_intersection_no_gem() {
    let mut p = PlayerStats::new();
    let gems = pickup_gems(&mut p, PLAYER, &vec![(PLAYER, 9, false)]);
    assert!(gems.is_empty());
    assert_eq!(p.curr_exp, 0);
}

#[test]
fn other_collider_of_pair() {
    assert_eq!(other_of(PLAYER, 5, PLAYER), 5);
    assert_eq!(other_of(5, PLAYER, PLAYER), 5);
}

#[test]
fn enemy_contact_hurts_once_per_cooldown() {
    let mut cd = PlayerHitCooldown::new();
    let mut p = PlayerStats::new();
    let enemies = vec![7, 8];
    let contacts = vec![(PLAYER, 7), (7, PLAYER), (PLAYER, 6)];
    cd.player_enemy_collisions(&mut p, PLAYER, &contacts, &enemies, 16_000_000);
    assert_eq!(p.hp, 100 - ENEMY_DAMAGE);
    assert!(cd.is_cooling(7));
    assert!(!cd.is_cooling(6));
    assert!(!cd.is_cooling(8));
    // still cooling a moment later
    cd.player_enemy_collisions(&mut p, PLAYER, &contacts, &enemies, 100_000_000);
    assert_eq!(p.hp, 95);
    assert!(cd.is_cooling(7));
    // the rest of the half second passes: the enemy hurts again
    cd.player_enemy_collisions(&mut p, PLAYER, &contacts, &enemies, 400_000_000);
    assert_eq!(p.hp, 90);
    assert!(cd.is_cooling(7));
}

#[test]
fn two_enemies_hurt_in_one_frame() {
    let mut cd = PlayerHitCooldown::new();
    let mut p = PlayerStats::new();
    cd.player_enemy_collisions(&mut p, PLAYER, &vec![(7, PLAYER), (PLAYER, 8)], &vec![7, 8], 0);
    assert_eq!(p.hp, 90);
    assert!(cd.is_cooling(7) && cd.is_cooling(8));
    assert_eq!((p.lvl, p.curr_exp, p.next_exp, p.max_hp), (1, 0, 100, 100));
}

#[test]
fn cooldown_expires_without_contact() {
    let mut cd = PlayerHitCooldown::new();
    let mut p = PlayerStats::new();
    cd.player_enemy_collisions(&mut p, PLAYER, &vec![(PLAYER, 7)], &vec![7], 0);
    assert!(cd.is_cooling(7));
    cd.player_enemy_collisions(&mut p, PLAYER, &vec![], &vec![7], ENEMY_DAMAGE_COOLDOWN - 1);
    assert!(cd.is_cooling(7));
    cd.player_enemy_collisions(&mut p, PLAYER, &vec![], &vec![7], 1);
    assert!(!cd.is_cooling(7));
    assert_eq!(p.hp, 95);
}

#[test]
fn fireball_kills_first_intersecting_enemy() {
    let enemies = vec![20, 21];
    let pairs = vec![(10, 20, false), (21, 10, true), (10, 20, true)];
    let hit = attack_hit(10, &pairs, &enemies).expect("a hit");
    assert_eq!((hit.enemy, hit.first, hit.second), (21, 21, 10));
}

#[test]
fn fireball_first_contact_not_enemy_does_nothing() {
    let enemies = vec![20];
    let pairs = vec![(10, 30, true), (10, 20, true)];
    assert!(attack_hit(10, &pairs, &enemies).is_none());
}

#[test]
fn fireball_without_intersection_does_nothing() {
    assert!(attack_hit(10, &vec![(10, 20, false)], &vec![20]).is_none());
    assert!(attack_hit(10, &vec![], &vec![20]).is_none());
}

#[test]
fn damage_numbers_expire_after_lifetime() {
    let mut effects = ActiveDamageEffects::new();
    effects.track(3);
    effects.track(4);
    assert!(effects.is_active(3));
    let gone = effects.remove_expired(100_000_000);
    assert!(gone.is_empty());
    assert!(effects.is_active(3) && effects.is_active(4));
    effects.track(5);
    let mut gone = effects.remove_expired(DAMAGE_NUMBER_LIFETIME - 100_000_000);
    gone.sort();
    assert_eq!(gone, vec![3, 4]);
    assert!(!effects.is_active(3) && !effects.is_active(4));
    assert!(effects.is_active(5));
    let gone = effects.remove_expired(DAMAGE_NUMBER_LIFETIME);
    assert_eq!(gone, vec![5]);
    assert!(!effects.is_active(5));
}

#[test]
fn countdown_in_two_steps_equals_one() {
    let mut a = ActiveDamageEffects::new();
    let mut b = ActiveDamageEffects::new();
    a.track(1);
    b.track(1);
    assert!(a.remove_expired(250_000_000).is_empty());
    assert_eq!(a.remove_expired(150_000_000), vec![1]);
    assert_eq!(b.remove_expired(400_000_000), vec![1]);
}

#[test]
fn count_down_step() {
    let mut left = 10;
    assert!(!count_down(&mut left, 3));
    assert_eq!(left, 7);
    assert!(count_down(&mut left, 7));
    assert_eq!(left, 0);
    let mut left = 5;
    assert!(count_down(&mut left, 9));
    assert_eq!(left, 0);
}

#[test]
fn animation_frames_loop() {
    assert_eq!(next_frame(0, 4), 1);
    assert_eq!(next_frame(3, 4), 0);
    let mut f = 2;
    for _ in 0..4 {
        f = next_frame(f, 4);
    }
    assert_eq!(f, 2);
}

#[test]
fn steering_negative_key_wins() {
    assert_eq!(steer(true, true), Steer::Negative);
    assert_eq!(steer(true, false), Steer::Negative);
    assert_eq!(steer(false, true), Steer::Positive);
    assert_eq!(steer(false, false), Steer::Rest);
}

#[test]
fn space_pauses_and_resumes() {
    let t = respond(GameState::Playing, FlowEvent::SpacePressed);
    assert_eq!(t.next, GameState::Paused);
    assert!(!t.physics_active && t.consume_space && !t.grant_cat_weapon);
    let u = respond(t.next, FlowEvent::SpacePressed);
    assert_eq!(u.next, GameState::Playing);
    assert!(u.physics_active && u.consume_space && !u.grant_cat_weapon);
}

#[test]
fn item_choice_resumes_with_cat_weapon() {
    for s in [GameState::Playing, GameState::Paused] {
        let t = respond(s, FlowEvent::ItemChosen);
        assert_eq!(t.next, GameState::Playing);
        assert!(t.physics_active && t.consume_space && t.grant_cat_weapon);
    }
}

#[test]
fn music_starts_once() {
    let mut bgm = BgmPlayback::new();
    assert!(bgm.should_start());
    assert!(!bgm.should_start());
    assert!(!bgm.should_start());
}

#[test]
fn cat_weapon_spawns_once() {
    let mut s = CatWeaponSpawner::new();
    assert!(!s.should_spawn(false, true));
    assert!(!s.should_spawn(true, false));
    assert!(!s.has_spawned);
    assert!(s.should_spawn(true, true));
    assert!(s.has_spawned);
    assert!(!s.should_spawn(true, true));
}

#[test]
fn hit_again_only_after_full_cooldown() {
    let mut cd = PlayerHitCooldown::new();
    let mut p = PlayerStats::new();
    let contacts = vec![(PLAYER, 7)];
    let enemies = vec![7];
    cd.player_enemy_collisions(&mut p, PLAYER, &contacts, &enemies, 0);
    assert_eq!(p.hp, 95);
    cd.player_enemy_collisions(&mut p, PLAYER, &contacts, &enemies, 100_000_000);
    cd.player_enemy_collisions(&mut p, PLAYER, &contacts, &enemies, ENEMY_DAMAGE_COOLDOWN - 100_000_001);
    assert_eq!(p.hp, 95);
    cd.player_enemy_collisions(&mut p, PLAYER, &contacts, &enemies, 1);
    assert_eq!(p.hp, 90);
}

#[test]
fn hits_this_frame_counts_without_changing() {
    let mut cd = PlayerHitCooldown::new();
    let mut p = PlayerStats::new();
    let enemies = vec![7, 8];
    let contacts = vec![(PLAYER, 7), (7, PLAYER), (PLAYER, 8), (PLAYER, 6)];
    assert_eq!(cd.hits_this_frame(PLAYER, &contacts, &enemies, 0), 2);
    cd.player_enemy_collisions(&mut p, PLAYER, &vec![(PLAYER, 7)], &enemies, 0);
    assert_eq!(cd.hits_this_frame(PLAYER, &contacts, &enemies, 0), 1);
    assert_eq!(cd.hits_this_frame(PLAYER, &contacts, &enemies, ENEMY_DAMAGE_COOLDOWN - 1), 1);
    assert_eq!(cd.hits_this_frame(PLAYER, &contacts, &enemies, ENEMY_DAMAGE_COOLDOWN), 2);
    assert!(cd.is_cooling(7));
    assert_eq!(p.hp, 95);
}
