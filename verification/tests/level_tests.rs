use pvz::board::{Board, RowType};
use pvz::level::Level;
use pvz::plants::{Nenuphar, PeaShooter, Plant, Sunflower};
use pvz::projectile::{DamageType, Pea};
use pvz::sun::Sun;
use pvz::units::{FRAME_H, FRAME_W, PEA_W, SUN_INTERVAL_MS};
use pvz::zombie::zombie_from_id;

fn grass_level(money: u32, waits: Vec<u64>, batches: Vec<Vec<(u8, u8)>>) -> Level {
    let mut rows = Vec::new();
    for _ in 0..5 {
        rows.push(RowType::Grass);
    }
    let board = Board::new(0, 100_000, FRAME_W - 100_000, FRAME_H, rows, 9).unwrap();
    Level::new(1, board, money, waits, batches).unwrap()
}

fn water_level(money: u32) -> Level {
    let rows = vec![RowType::Water, RowType::Grass];
    let board = Board::new(0, 0, FRAME_W, FRAME_H, rows, 9).unwrap();
    Level::new(2, board, money, Vec::new(), Vec::new()).unwrap()
}

fn zombie_count(level: &Level) -> usize {
    let mut n = 0;
    for row in level.zombies.iter() {
        n += row.len();
    }
    n
}

#[test]
fn placement_with_too_little_money_changes_nothing() {
    let mut level = grass_level(40, Vec::new(), Vec::new());
    let placed = level.drop_plant(100_000, 0, Plant::Sunflower(Sunflower::new()));
    assert!(!placed);
    assert_eq!(level.money(), 40);
    assert!(level.plants[0][0].is_none());
}

#[test]
fn placement_with_enough_money_pays_and_occupies_the_cell() {
    let mut level = grass_level(60, Vec::new(), Vec::new());
    let placed = level.drop_plant(100_000, 0, Plant::Sunflower(Sunflower::new()));
    assert!(placed);
    assert_eq!(level.money(), 10);
    assert!(matches!(level.plants[0][0], Some(Plant::Sunflower(_))));
    for c in 1..9 {
        assert!(level.plants[0][c].is_none());
    }
    // The cell is taken now: a second drop is rejected and costs nothing.
    let placed = level.drop_plant(100_000, 0, Plant::Nenuphar(Nenuphar::new()));
    assert!(!placed);
    assert_eq!(level.money(), 10);
}

#[test]
fn placement_outside_the_board_is_rejected() {
    let mut level = grass_level(1000, Vec::new(), Vec::new());
    assert!(!level.drop_plant(99_999, 0, Plant::Sunflower(Sunflower::new())));
    assert!(!level.drop_plant(100_000, FRAME_H, Plant::Sunflower(Sunflower::new())));
    assert_eq!(level.money(), 1000);
}

#[test]
fn water_rows_take_only_the_lily_pad_and_plants_on_pads() {
    let mut level = water_level(1000);
    // A land plant cannot stand on open water.
    assert!(!level.drop_plant(0, 0, Plant::Sunflower(Sunflower::new())));
    // The lily pad can.
    assert!(level.drop_plant(0, 0, Plant::Nenuphar(Nenuphar::new())));
    assert_eq!(level.money(), 975);
    // A land plant takes the pad's place.
    assert!(level.drop_plant(0, 0, Plant::PeaShooter(PeaShooter::new(DamageType::Normal))));
    assert_eq!(level.money(), 875);
    assert!(matches!(level.plants[0][0], Some(Plant::PeaShooter(_))));
    // And nothing can be dropped onto the shooter now.
    assert!(!level.drop_plant(0, 0, Plant::Nenuphar(Nenuphar::new())));
    // The lily pad never goes on grass.
    assert!(!level.drop_plant(0, level.board.pos_to_coord_y(1), Plant::Nenuphar(Nenuphar::new())));
}

#[test]
fn a_paused_level_never_changes() {
    let mut level = grass_level(100, vec![0], vec![vec![(0, 1)]]);
    level.update(1_000_000);
    assert_eq!(level.end, None);
    assert_eq!(zombie_count(&level), 0);
    assert_eq!(level.spawn_waits[0], 0);
    assert_eq!(level.next_sun, SUN_INTERVAL_MS);
}

#[test]
fn an_empty_board_with_no_waves_is_won() {
    let mut level = grass_level(100, Vec::new(), Vec::new());
    level.start();
    level.update(16);
    assert_eq!(level.end, Some(true));
}

#[test]
fn terminal_state_is_stable() {
    let mut level = grass_level(100, Vec::new(), Vec::new());
    level.start();
    level.update(16);
    assert_eq!(level.end, Some(true));
    // Put things on the board; a terminal update must not touch them.
    level.zombies[0].push(zombie_from_id(0));
    level.suns.push(Sun::new(10_000, 0, 300_000));
    for _ in 0..5 {
        level.update(100_000);
    }
    assert_eq!(level.end, Some(true));
    assert_eq!(level.money(), 100);
    assert_eq!(zombie_count(&level), 1);
    assert_eq!(level.zombies[0][0].x, FRAME_W);
    assert_eq!(level.suns.len(), 1);
    assert_eq!(level.suns[0].y, 0);
    assert_eq!(level.next_sun, SUN_INTERVAL_MS);
}

#[test]
fn one_wave_spawns_exactly_its_zombie_and_then_loses() {
    // One wave, no wait, one zombie of the basic type; nothing on the board.
    let mut level = grass_level(50, vec![0], vec![vec![(0, 1)]]);
    level.start();
    level.update(0);
    assert_eq!(level.end, None);
    assert_eq!(zombie_count(&level), 1);
    assert_eq!(level.spawn_waits.len(), 0);
    assert_eq!(level.spawn_zombies.len(), 0);
    let mut found = 0;
    for row in level.zombies.iter() {
        for z in row.iter() {
            assert_eq!(z.health, 200);
            assert!(z.x >= FRAME_W);
            found += 1;
        }
    }
    assert_eq!(found, 1);
    // A huge tick walks it past the defended edge: lost, and the rest of the
    // tick is frozen (the sun countdown did not advance).
    level.update(1_000_000);
    assert_eq!(level.end, Some(false));
    assert_eq!(level.next_sun, SUN_INTERVAL_MS);
    // And terminal for good.
    let x_after = level.zombies.iter().flatten().next().unwrap().x;
    level.update(1_000_000);
    assert_eq!(level.end, Some(false));
    assert_eq!(level.zombies.iter().flatten().next().unwrap().x, x_after);
}

#[test]
fn no_zombie_spawns_before_its_wait_elapses() {
    let mut level = grass_level(50, vec![3_000], vec![vec![(0, 2)]]);
    level.start();
    level.update(1_000);
    assert_eq!(zombie_count(&level), 0);
    assert_eq!(level.spawn_waits[0], 2_000);
    level.update(1_999);
    assert_eq!(zombie_count(&level), 0);
    assert_eq!(level.spawn_waits[0], 1);
    level.update(1);
    assert_eq!(zombie_count(&level), 2);
    assert_eq!(level.spawn_waits.len(), 0);
}

#[test]
fn a_batch_spawns_its_full_count_at_staggered_offsets() {
    let mut level = grass_level(50, vec![0], vec![vec![(0, 2), (1, 3)]]);
    level.start();
    level.update(0);
    assert_eq!(zombie_count(&level), 5);
    let mut normals = 0;
    let mut cones = 0;
    for row in level.zombies.iter() {
        for a in 0..row.len() {
            match row[a].health {
                200 => normals += 1,
                640 => cones += 1,
                other => panic!("unexpected health pool {}", other),
            }
            for b in 0..a {
                assert_ne!(row[a].x, row[b].x);
            }
        }
    }
    assert_eq!(normals, 2);
    assert_eq!(cones, 3);
}

#[test]
fn the_wave_overshoot_carries_into_the_next_wait() {
    let mut level = grass_level(50, vec![1_000, 5_000], vec![vec![(0, 1)], vec![(1, 1)]]);
    level.start();
    level.update(1_300);
    assert_eq!(zombie_count(&level), 1);
    assert_eq!(level.spawn_waits.len(), 1);
    assert_eq!(level.spawn_waits[0], 4_700);
}

#[test]
fn an_expired_pea_is_removed_whatever_zombies_remain() {
    let mut level = grass_level(50, Vec::new(), Vec::new());
    level.zombies[2].push(zombie_from_id(0));
    // One tick of flight carries the first pea at least its own width past the
    // frame; the second stays in flight.
    level.projectiles[2].push(Pea { x: FRAME_W - 10_000, damage_type: DamageType::Normal });
    level.projectiles[2].push(Pea { x: 200_000, damage_type: DamageType::Normal });
    level.update_projectiles(300);
    assert_eq!(level.projectiles[2].len(), 1);
    assert_eq!(level.projectiles[2][0].x, 260_000);
    assert_eq!(zombie_count(&level), 1);
}

#[test]
fn a_pea_expires_exactly_at_its_own_width_past_the_frame() {
    let pea = Pea { x: FRAME_W + PEA_W, damage_type: DamageType::Normal };
    assert!(pea.to_remove());
    let pea = Pea { x: FRAME_W + PEA_W - 1, damage_type: DamageType::Normal };
    assert!(!pea.to_remove());
}

#[test]
fn a_pea_that_lands_damages_and_leaves_the_board() {
    let mut level = grass_level(50, Vec::new(), Vec::new());
    let mut z = zombie_from_id(0);
    z.set_x(500_000);
    level.zombies[2].push(z);
    level.projectiles[2].push(Pea { x: 480_000, damage_type: DamageType::Normal });
    level.update_projectiles(10);
    assert_eq!(level.projectiles[2].len(), 0);
    assert_eq!(level.zombies[2][0].health, 180);
}

#[test]
fn an_eating_zombie_holds_its_ground_and_drains_the_plant() {
    let mut level = grass_level(200, Vec::new(), Vec::new());
    assert!(level.drop_plant(100_000, 0, Plant::PeaShooter(PeaShooter::new(DamageType::Normal))));
    let cell_x = level.board.pos_to_coord_x(0);
    let mut z = zombie_from_id(0);
    z.set_x(cell_x);
    level.zombies[0].push(z);
    level.start();
    level.update(1_000);
    assert_eq!(level.end, None);
    assert_eq!(level.zombies[0][0].x, cell_x);
    match &level.plants[0][0] {
        Some(p) => assert_eq!(p.health(), 2_000),
        None => panic!("the plant should still be standing"),
    }
}

#[test]
fn a_plant_eaten_on_water_leaves_a_lily_pad() {
    let mut level = water_level(1000);
    assert!(level.drop_plant(0, 0, Plant::Nenuphar(Nenuphar::new())));
    assert!(level.drop_plant(0, 0, Plant::Sunflower(Sunflower::new())));
    let cell_x = level.board.pos_to_coord_x(0);
    let mut z = zombie_from_id(0);
    z.set_x(cell_x);
    level.zombies[0].push(z);
    level.start();
    for _ in 0..4 {
        level.update(1_000);
    }
    assert!(matches!(level.plants[0][0], Some(Plant::Nenuphar(_))));
    // The pad is fresh: eating starts over on its own pool.
    match &level.plants[0][0] {
        Some(p) => assert!(p.health() <= 3_000),
        None => panic!("a lily pad should have replaced the eaten plant"),
    }
}

#[test]
fn picked_suns_turn_into_money() {
    let mut level = grass_level(100, Vec::new(), Vec::new());
    level.suns.push(Sun::new(100_000, 50_000, 300_000));
    level.suns.push(Sun::new(800_000, 50_000, 300_000));
    level.collect_suns_at(110_000, 60_000);
    assert_eq!(level.money(), 125);
    assert_eq!(level.suns.len(), 1);
    assert_eq!(level.suns[0].x, 800_000);
    // A pickup in empty air does nothing.
    level.collect_suns_at(0, 0);
    assert_eq!(level.money(), 125);
    assert_eq!(level.suns.len(), 1);
}

#[test]
fn the_money_counter_saturates_instead_of_wrapping() {
    let mut level = grass_level(u32::MAX - 10, Vec::new(), Vec::new());
    level.suns.push(Sun::new(100_000, 50_000, 300_000));
    level.collect_suns_at(110_000, 60_000);
    assert_eq!(level.money(), u32::MAX);
}

#[test]
fn suns_fall_and_settle_at_their_resting_height() {
    let mut level = grass_level(100, Vec::new(), Vec::new());
    level.suns.push(Sun::new(100_000, 0, 50_000));
    level.update_suns(1_000);
    assert_eq!(level.suns[0].y, 34_000);
    level.update_suns(1_000);
    assert_eq!(level.suns[0].y, 50_000);
}

#[test]
fn the_sky_drops_a_sun_when_the_countdown_expires() {
    let mut level = grass_level(100, Vec::new(), Vec::new());
    level.update_suns(SUN_INTERVAL_MS as u32);
    assert_eq!(level.suns.len(), 1);
    assert!(level.suns[0].x >= 0 && level.suns[0].x < FRAME_W);
    assert_eq!(level.suns[0].y, 0);
    assert!(level.suns[0].dist >= 200_000 && level.suns[0].dist < 420_000);
    assert_eq!(level.next_sun, SUN_INTERVAL_MS);
}

#[test]
fn a_charged_shooter_fires_during_the_tick() {
    let mut level = grass_level(200, Vec::new(), Vec::new());
    assert!(level.drop_plant(100_000, 0, Plant::PeaShooter(PeaShooter::new(DamageType::Normal))));
    let mut z = zombie_from_id(0);
    z.set_x(900_000);
    level.zombies[0].push(z);
    level.start();
    // One long-enough tick charges the shooter and it fires into its row.
    level.update(1_500);
    assert_eq!(level.projectiles[0].len(), 1);
}

#[test]
fn a_single_type_batch_spawns_only_that_type() {
    let mut level = grass_level(50, vec![0], vec![vec![(1, 3)]]);
    level.start();
    level.update(0);
    assert_eq!(zombie_count(&level), 3);
    for row in level.zombies.iter() {
        for z in row.iter() {
            assert_eq!(z.health, 640);
        }
    }
}

#[test]
fn a_zombie_entering_an_occupied_cell_is_clamped_at_the_plant() {
    let mut level = grass_level(200, Vec::new(), Vec::new());
    let cell1_x = level.board.pos_to_coord_x(1);
    assert!(level.drop_plant(cell1_x, 0, Plant::PeaShooter(PeaShooter::new(DamageType::Normal))));
    // The zombie stands at the start of the empty cell right of the plant; one
    // tick walks its left edge into the plant's cell, overlapping the plant's
    // sprite.
    let mut z = zombie_from_id(0);
    z.set_x(level.board.pos_to_coord_x(2));
    level.zombies[0].push(z);
    level.start();
    level.update(4_000);
    // No plant stood at the previous position, so the zombie is clamped flush
    // against the blocking plant's right edge, and the plant keeps its health.
    assert_eq!(level.zombies[0][0].x, cell1_x + 70_000);
    match &level.plants[0][1] {
        Some(p) => assert_eq!(p.health(), 3_000),
        None => panic!("the plant should be untouched"),
    }
}
