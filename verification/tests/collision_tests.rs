use pvz::collision::{hit_zombie, remove_dead, resolve_projectile, resolve_row, select_target};
use pvz::projectile::{DamageType, Pea};
use pvz::units::FREEZE_MS;
use pvz::zombie::Zombie;

fn zombie_at(x: i64, health: u32) -> Zombie {
    Zombie { x, health, freeze: 0 }
}

#[test]
fn the_closest_overlapping_zombie_is_the_target() {
    // Hit-boxes cover [x + 16_000, x + 55_000]; the pea covers [x, x + 50_000].
    let row = vec![zombie_at(500_000, 200), zombie_at(470_000, 200), zombie_at(900_000, 200)];
    let pea = Pea { x: 460_000, damage_type: DamageType::Normal };
    // Both of the first two overlap; the one closer to the defended edge wins.
    assert_eq!(select_target(&row, &pea), Some(1));
}

#[test]
fn ties_go_to_the_earlier_zombie() {
    let row = vec![zombie_at(500_000, 200), zombie_at(500_000, 640)];
    let pea = Pea { x: 490_000, damage_type: DamageType::Normal };
    assert_eq!(select_target(&row, &pea), Some(0));
}

#[test]
fn no_overlap_means_no_target() {
    let row = vec![zombie_at(900_000, 200)];
    let pea = Pea { x: 100_000, damage_type: DamageType::Normal };
    assert_eq!(select_target(&row, &pea), None);
}

#[test]
fn a_normal_pea_damages_only_its_target() {
    let mut row = vec![zombie_at(500_000, 200), zombie_at(510_000, 200)];
    let pea = Pea { x: 490_000, damage_type: DamageType::Normal };
    let hit = resolve_projectile(&mut row, &pea);
    assert!(hit);
    assert_eq!(row.len(), 2);
    assert_eq!(row[0].health, 180);
    assert_eq!(row[1].health, 200);
}

#[test]
fn a_fire_pea_splashes_to_overlapping_neighbors() {
    // Two zombies overlapping the target's hit-box, one far away.
    let mut row = vec![zombie_at(500_000, 200), zombie_at(520_000, 200), zombie_at(900_000, 200)];
    let pea = Pea { x: 490_000, damage_type: DamageType::Fire };
    let hit = resolve_projectile(&mut row, &pea);
    assert!(hit);
    assert_eq!(row[0].health, 180);
    assert_eq!(row[1].health, 180);
    assert_eq!(row[2].health, 200);
}

#[test]
fn an_ice_pea_freezes_its_target_and_damages_only_neighbors() {
    let mut row = vec![zombie_at(500_000, 200), zombie_at(520_000, 200)];
    let pea = Pea { x: 490_000, damage_type: DamageType::Ice };
    let hit = resolve_projectile(&mut row, &pea);
    assert!(hit);
    // The original ice hit froze the target without damage.
    assert_eq!(row[0].health, 200);
    assert_eq!(row[0].freeze, FREEZE_MS);
    // The propagated ice hit damaged (and froze) the neighbor.
    assert_eq!(row[1].health, 180);
    assert_eq!(row[1].freeze, FREEZE_MS);
}

#[test]
fn several_zombies_dying_at_once_all_leave_the_row() {
    // Three overlapping zombies with empty-enough pools: a fire pea kills the
    // target and both neighbors in the same landing.
    let mut row = vec![
        zombie_at(500_000, 20),
        zombie_at(505_000, 15),
        zombie_at(510_000, 10),
        zombie_at(900_000, 200),
    ];
    let pea = Pea { x: 490_000, damage_type: DamageType::Fire };
    let hit = resolve_projectile(&mut row, &pea);
    assert!(hit);
    assert_eq!(row.len(), 1);
    assert_eq!(row[0].x, 900_000);
}

#[test]
fn removal_keeps_the_survivors_in_order() {
    let mut row = vec![
        Zombie { x: 1, health: 0, freeze: 0 },
        Zombie { x: 2, health: 5, freeze: 0 },
        Zombie { x: 3, health: 0, freeze: 0 },
        Zombie { x: 4, health: 7, freeze: 0 },
    ];
    remove_dead(&mut row);
    assert_eq!(row.len(), 2);
    assert_eq!(row[0].x, 2);
    assert_eq!(row[1].x, 4);
}

#[test]
fn hit_zombie_marks_the_dead_in_place() {
    let mut row = vec![zombie_at(500_000, 20), zombie_at(505_000, 200)];
    hit_zombie(&mut row, 0, 20, DamageType::Normal);
    assert_eq!(row.len(), 2);
    assert_eq!(row[0].health, 0);
    assert_eq!(row[1].health, 200);
}

#[test]
fn a_row_of_peas_lands_in_order() {
    // Two peas on one zombie: the first kills it, the second flies on.
    let mut projs = vec![
        Pea { x: 490_000, damage_type: DamageType::Normal },
        Pea { x: 480_000, damage_type: DamageType::Normal },
    ];
    let mut row = vec![zombie_at(500_000, 20)];
    resolve_row(&mut projs, &mut row);
    assert_eq!(row.len(), 0);
    assert_eq!(projs.len(), 1);
    assert_eq!(projs[0].x, 480_000);
}
