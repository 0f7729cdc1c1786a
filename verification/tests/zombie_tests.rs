use pvz::projectile::DamageType;
use pvz::units::{FRAME_W, FREEZE_MS};
use pvz::zombie::{valide_zombie_id, zombie_from_id, Zombie, ZombieTier};

#[test]
fn known_zombie_ids() {
    assert!(valide_zombie_id(0));
    assert!(valide_zombie_id(1));
    assert!(!valide_zombie_id(2));
    assert!(!valide_zombie_id(255));
}

#[test]
fn fresh_zombies_start_at_the_right_edge() {
    let z = zombie_from_id(0);
    assert_eq!(z.x, FRAME_W);
    assert_eq!(z.health, 200);
    assert_eq!(z.freeze, 0);
    let z = zombie_from_id(1);
    assert_eq!(z.health, 640);
}

#[test]
fn normal_hit_subtracts_exactly_its_damage() {
    let mut z = zombie_from_id(0);
    let r = z.hit(20, DamageType::Normal, false);
    assert_eq!(r, (false, false));
    assert_eq!(z.health, 180);
    let r = z.hit(30, DamageType::Normal, true);
    assert_eq!(r, (false, false));
    assert_eq!(z.health, 150);
}

#[test]
fn hits_never_increase_health() {
    let mut z = zombie_from_id(1);
    let mut last = z.health;
    let kinds = [DamageType::Normal, DamageType::Fire, DamageType::Ice];
    for i in 0..12 {
        z.hit(20, kinds[i % 3], i % 2 == 0);
        assert!(z.health <= last);
        last = z.health;
    }
}

#[test]
fn a_lethal_hit_reports_death() {
    let mut z = zombie_from_id(0);
    let r = z.hit(200, DamageType::Normal, false);
    assert_eq!(r, (true, false));
}

#[test]
fn fire_thaws_and_asks_to_propagate() {
    let mut z = zombie_from_id(0);
    z.hit(0, DamageType::Ice, true);
    assert_eq!(z.freeze, FREEZE_MS);
    let r = z.hit(20, DamageType::Fire, false);
    assert_eq!(r, (false, true));
    assert_eq!(z.freeze, 0);
    assert_eq!(z.health, 180);
    let r = z.hit(20, DamageType::Fire, true);
    assert_eq!(r, (false, false));
    assert_eq!(z.health, 160);
}

#[test]
fn original_ice_hit_freezes_without_damage() {
    let mut z = zombie_from_id(0);
    let before = z.health;
    let r = z.hit(20, DamageType::Ice, false);
    assert_eq!(r, (false, true));
    assert_eq!(z.health, before);
    assert_eq!(z.freeze, FREEZE_MS);
}

#[test]
fn propagated_ice_hit_applies_damage_normally() {
    let mut z = zombie_from_id(0);
    let r = z.hit(20, DamageType::Ice, true);
    assert_eq!(r, (false, false));
    assert_eq!(z.health, 180);
    assert_eq!(z.freeze, FREEZE_MS);
}

#[test]
fn walking_advances_at_full_speed_and_half_while_frozen() {
    let mut z = zombie_from_id(0);
    z.update(1000);
    assert_eq!(z.x, FRAME_W - 17_000);
    z.hit(0, DamageType::Ice, false);
    z.update(1000);
    assert_eq!(z.x, FRAME_W - 17_000 - 8_500);
    assert_eq!(z.freeze, FREEZE_MS - 1000);
}

#[test]
fn freeze_timer_clamps_at_zero() {
    let mut z = zombie_from_id(0);
    z.hit(0, DamageType::Ice, false);
    z.update(2 * FREEZE_MS as u32);
    assert_eq!(z.freeze, 0);
}

#[test]
fn health_tiers_follow_the_pool() {
    let mut z = zombie_from_id(1);
    assert!(matches!(z.tier(), ZombieTier::Cone));
    z.health = 421;
    assert!(matches!(z.tier(), ZombieTier::Cone));
    z.health = 420;
    assert!(matches!(z.tier(), ZombieTier::HalfCone));
    z.health = 201;
    assert!(matches!(z.tier(), ZombieTier::HalfCone));
    z.health = 200;
    assert!(matches!(z.tier(), ZombieTier::Normal));
    z.health = 101;
    assert!(matches!(z.tier(), ZombieTier::Normal));
    z.health = 100;
    assert!(matches!(z.tier(), ZombieTier::MissingHead));
}

#[test]
fn set_x_moves_only_the_position() {
    let mut z = zombie_from_id(0);
    z.set_x(5_000);
    assert_eq!(z.x, 5_000);
    assert_eq!(z.health, 200);
}

#[test]
fn freezed_reflects_the_timer() {
    let mut z = Zombie { x: 0, health: 10, freeze: 0 };
    assert!(!z.freezed());
    z.freeze = 1;
    assert!(z.freezed());
}
