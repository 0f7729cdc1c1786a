use pvz::plants::{Nenuphar, PeaShooter, Plant, PlantTriple, Sunflower};
use pvz::projectile::DamageType;
use pvz::units::{PEA_X_OFF, SHOOT_INTERVAL_MS, SUNFLOWER_INTERVAL_MS, SUN_SPAWN_OFF};
use pvz::zombie::zombie_from_id;
use pvz::zombie::Zombie;

fn rows_with_zombie(rows: usize, busy: usize) -> Vec<Vec<Zombie>> {
    let mut v: Vec<Vec<Zombie>> = Vec::new();
    for r in 0..rows {
        if r == busy {
            v.push(vec![zombie_from_id(0)]);
        } else {
            v.push(Vec::new());
        }
    }
    v
}

fn empty_rows(rows: usize) -> Vec<Vec<Zombie>> {
    let mut v: Vec<Vec<Zombie>> = Vec::new();
    for _ in 0..rows {
        v.push(Vec::new());
    }
    v
}

#[test]
fn plant_costs_follow_the_table() {
    assert_eq!(Plant::Nenuphar(Nenuphar::new()).cost(), 25);
    assert_eq!(Plant::Sunflower(Sunflower::new()).cost(), 50);
    assert_eq!(Plant::PeaShooter(PeaShooter::new(DamageType::Normal)).cost(), 100);
    assert_eq!(Plant::PeaShooter(PeaShooter::new(DamageType::Fire)).cost(), 175);
    assert_eq!(Plant::PeaShooter(PeaShooter::new(DamageType::Ice)).cost(), 175);
    assert_eq!(Plant::PlantTriple(PlantTriple::new()).cost(), 325);
}

#[test]
fn only_the_lily_pad_goes_in_water() {
    assert!(Plant::Nenuphar(Nenuphar::new()).can_go_in_water());
    assert!(Plant::Nenuphar(Nenuphar::new()).is_nenuphar());
    assert!(!Plant::Sunflower(Sunflower::new()).can_go_in_water());
    assert!(!Plant::PeaShooter(PeaShooter::new(DamageType::Normal)).is_nenuphar());
}

#[test]
fn a_charged_shooter_fires_into_its_own_row() {
    let zombies = rows_with_zombie(3, 1);
    let mut p = Plant::PeaShooter(PeaShooter::new(DamageType::Ice));
    p.update(SHOOT_INTERVAL_MS as u32);
    let (suns, peas) = p.should_spawn(200_000, 100_000, 1, 2, &zombies);
    assert_eq!(suns.len(), 0);
    assert_eq!(peas.len(), 1);
    assert_eq!(peas[0].0, 1);
    assert_eq!(peas[0].1.x, 200_000 - PEA_X_OFF);
    assert!(matches!(peas[0].1.damage_type, DamageType::Ice));
    // The shot interval was consumed; a second query does not fire.
    let (_, peas) = p.should_spawn(200_000, 100_000, 1, 2, &zombies);
    assert_eq!(peas.len(), 0);
}

#[test]
fn an_idle_shooter_cannot_bank_charge() {
    let zombies = empty_rows(3);
    let mut p = Plant::PeaShooter(PeaShooter::new(DamageType::Normal));
    p.update(10 * SHOOT_INTERVAL_MS as u32);
    // The row is clear: no shot, and the charge is clamped to one interval.
    let (_, peas) = p.should_spawn(200_000, 100_000, 1, 2, &zombies);
    assert_eq!(peas.len(), 0);
    // A zombie shows up: the clamped charge buys exactly one immediate shot.
    let zombies = rows_with_zombie(3, 1);
    let (_, peas) = p.should_spawn(200_000, 100_000, 1, 2, &zombies);
    assert_eq!(peas.len(), 1);
    let (_, peas) = p.should_spawn(200_000, 100_000, 1, 2, &zombies);
    assert_eq!(peas.len(), 0);
}

#[test]
fn the_triple_shooter_covers_existing_adjacent_rows() {
    let zombies = rows_with_zombie(3, 0);
    let mut p = Plant::PlantTriple(PlantTriple::new());
    p.update(SHOOT_INTERVAL_MS as u32);
    let (_, peas) = p.should_spawn(200_000, 100_000, 1, 2, &zombies);
    assert_eq!(peas.len(), 3);
    assert_eq!(peas[0].0, 0);
    assert_eq!(peas[1].0, 1);
    assert_eq!(peas[2].0, 2);

    let mut p = Plant::PlantTriple(PlantTriple::new());
    p.update(SHOOT_INTERVAL_MS as u32);
    let (_, peas) = p.should_spawn(200_000, 100_000, 0, 2, &zombies);
    assert_eq!(peas.len(), 2);
    assert_eq!(peas[0].0, 0);
    assert_eq!(peas[1].0, 1);

    let zombies = rows_with_zombie(3, 2);
    let mut p = Plant::PlantTriple(PlantTriple::new());
    p.update(SHOOT_INTERVAL_MS as u32);
    let (_, peas) = p.should_spawn(200_000, 100_000, 2, 2, &zombies);
    assert_eq!(peas.len(), 2);
    assert_eq!(peas[0].0, 1);
    assert_eq!(peas[1].0, 2);
}

#[test]
fn the_triple_shooter_idles_only_when_all_watched_rows_are_clear() {
    // A zombie two rows away does not concern a shooter in row 0.
    let zombies = rows_with_zombie(3, 2);
    let mut p = Plant::PlantTriple(PlantTriple::new());
    p.update(10 * SHOOT_INTERVAL_MS as u32);
    let (_, peas) = p.should_spawn(200_000, 100_000, 0, 2, &zombies);
    assert_eq!(peas.len(), 0);
    // One row away does: the banked charge was clamped while idle.
    let (_, peas) = p.should_spawn(200_000, 100_000, 1, 2, &zombies);
    assert_eq!(peas.len(), 3);
}

#[test]
fn the_sunflower_emits_a_sun_on_its_interval() {
    let zombies = empty_rows(1);
    let mut p = Plant::Sunflower(Sunflower::new());
    // It starts almost charged; one early query yields nothing.
    let (suns, _) = p.should_spawn(200_000, 100_000, 0, 0, &zombies);
    assert_eq!(suns.len(), 0);
    p.update(SUNFLOWER_INTERVAL_MS as u32);
    let (suns, peas) = p.should_spawn(200_000, 100_000, 0, 0, &zombies);
    assert_eq!(peas.len(), 0);
    assert_eq!(suns.len(), 1);
    assert_eq!(suns[0].x, 200_000);
    assert_eq!(suns[0].y, 100_000 - SUN_SPAWN_OFF);
    assert_eq!(suns[0].dist, 100_000 + SUN_SPAWN_OFF);
}

#[test]
fn the_lily_pad_never_emits() {
    let zombies = rows_with_zombie(1, 0);
    let mut p = Plant::Nenuphar(Nenuphar::new());
    p.update(1_000_000);
    let (suns, peas) = p.should_spawn(200_000, 100_000, 0, 0, &zombies);
    assert_eq!(suns.len(), 0);
    assert_eq!(peas.len(), 0);
}

#[test]
fn eating_goes_through_the_health_pool() {
    let mut p = Plant::Sunflower(Sunflower::new());
    assert_eq!(p.health(), 3_000);
    p.set_health(1_200);
    assert_eq!(p.health(), 1_200);
}
