use space_invaders::entity::{Entity, Kind};
use space_invaders::resolution::Resolution;
use space_invaders::units::{ALIEN_SHIFT_AMOUNT, HEIGHT, SPACING, WIDTH};
use space_invaders::world::World;

fn arena() -> World {
    World::new(Resolution { half_width: 256_000, half_height: 256_000, pixel_ratio: 2 })
}

fn aliens(world: &World) -> Vec<Entity> {
    world.entities().iter().filter(|e| e.kind == Kind::Alien).copied().collect()
}

#[test]
fn new_world_is_empty_and_heads_right() {
    let world = arena();
    assert!(world.entities().is_empty());
    let manager = world.alien_manager();
    assert_eq!(manager.direction, 1);
    assert!(!manager.shift_aliens_down);
    assert_eq!(manager.dist_from_boundary, 0);
    let resolution = world.resolution();
    assert_eq!(resolution.half_width, 256_000);
    assert_eq!(resolution.half_height, 256_000);
    assert_eq!(resolution.pixel_ratio, 2);
}

#[test]
fn negative_half_extents_count_as_zero() {
    let world = World::new(Resolution { half_width: -5, half_height: -1, pixel_ratio: 1 });
    assert_eq!(world.resolution().half_width, 0);
    assert_eq!(world.resolution().half_height, 0);
}

#[test]
fn setup_aliens_builds_the_grid_column_by_column() {
    let mut world = arena();
    world.setup_aliens();
    let list = world.entities();
    assert_eq!(list.len() as u64, WIDTH * HEIGHT);
    assert_eq!(
        list[0],
        Entity { id: 0, kind: Kind::Alien, x: -120_000, y: 136_000, velocity: 0, alive: true }
    );
    assert_eq!(
        list[1],
        Entity { id: 1, kind: Kind::Alien, x: -120_000, y: 160_000, velocity: 0, alive: true }
    );
    assert_eq!(
        list[5],
        Entity { id: 5, kind: Kind::Alien, x: -96_000, y: 136_000, velocity: 0, alive: true }
    );
    assert_eq!(
        list[49],
        Entity { id: 49, kind: Kind::Alien, x: 96_000, y: 232_000, velocity: 0, alive: true }
    );
    for (k, alien) in list.iter().enumerate() {
        let column = (k / 5) as i64;
        let row = (k % 5) as i64;
        assert_eq!(alien.x, column * SPACING - 120_000);
        assert_eq!(alien.y, row * SPACING - 120_000 + 256_000);
    }
}

#[test]
fn setup_aliens_resets_the_controller() {
    let mut world = arena();
    world.spawn(Kind::Alien, 256_000, 0, 0);
    world.update_aliens(10);
    world.manage_alien_logic();
    assert_eq!(world.alien_manager().direction, -1);
    world.setup_aliens();
    let manager = world.alien_manager();
    assert_eq!(manager.direction, 1);
    assert!(!manager.shift_aliens_down);
    assert_eq!(manager.dist_from_boundary, 0);
    assert_eq!(world.entities().len(), 51);
    assert_eq!(world.entities()[1].id, 1);
}

#[test]
fn advancing_pass_moves_live_aliens_only() {
    let mut world = arena();
    let live = world.spawn(Kind::Alien, 0, 5_000, 0);
    let dead = world.spawn(Kind::Alien, 20_000, 5_000, 0);
    world.spawn(Kind::PlayerBullet, 3_000, 0, 10);
    world.spawn(Kind::AlienBullet, 4_000, 0, 1);
    world.spawn(Kind::Player, 5_000, -200_000, 0);
    world.mark_dead(dead);
    world.update_aliens(10);
    let list = world.entities();
    assert_eq!(list[0].id, live);
    assert_eq!((list[0].x, list[0].y), (1_000, 5_000));
    assert_eq!((list[1].x, list[1].y), (20_000, 5_000));
    assert_eq!((list[2].x, list[2].y), (3_000, 0));
    assert_eq!((list[3].x, list[3].y), (4_000, 0));
    assert_eq!((list[4].x, list[4].y), (5_000, -200_000));
    assert!(!world.alien_manager().shift_aliens_down);
}

#[test]
fn advancing_pass_with_no_time_moves_nothing() {
    let mut world = arena();
    world.spawn(Kind::Alien, 7, 9, 0);
    world.update_aliens(0);
    assert_eq!((world.entities()[0].x, world.entities()[0].y), (7, 9));
    assert!(!world.alien_manager().shift_aliens_down);
}

#[test]
fn alien_on_the_bound_has_not_crossed() {
    let mut world = arena();
    world.spawn(Kind::Alien, 255_000, 0, 0);
    world.update_aliens(10);
    assert_eq!(world.entities()[0].x, 256_000);
    assert!(!world.alien_manager().shift_aliens_down);
    world.update_aliens(0);
    assert!(!world.alien_manager().shift_aliens_down);
}

#[test]
fn alien_past_the_right_bound_is_pulled_back() {
    let mut world = arena();
    world.spawn(Kind::Alien, 260_000, 0, 0);
    world.update_aliens(16);
    let manager = world.alien_manager();
    assert!(manager.shift_aliens_down);
    assert_eq!(manager.direction, 1);
    assert_eq!(world.entities()[0].x, 261_600);
    assert_eq!(manager.dist_from_boundary, -5_600);
    world.manage_alien_logic();
    let manager = world.alien_manager();
    assert!(!manager.shift_aliens_down);
    assert_eq!(manager.direction, -1);
    let alien = world.entities()[0];
    assert_eq!(alien.y, -ALIEN_SHIFT_AMOUNT);
    assert_eq!(alien.x, 256_000);
    assert!(-256_000 <= alien.x && alien.x <= 256_000);
}

#[test]
fn shifting_pass_without_the_flag_changes_nothing() {
    let mut world = arena();
    world.spawn(Kind::Alien, 10_000, 20_000, 0);
    world.manage_alien_logic();
    assert_eq!(world.alien_manager().direction, 1);
    assert_eq!((world.entities()[0].x, world.entities()[0].y), (10_000, 20_000));
}

#[test]
fn shifting_pass_reverses_back_and_forth() {
    let mut world = arena();
    world.spawn(Kind::Alien, 256_000, 0, 0);
    world.update_aliens(10);
    world.manage_alien_logic();
    assert_eq!(world.alien_manager().direction, -1);
    assert_eq!((world.entities()[0].x, world.entities()[0].y), (256_000, -10_000));
    world.update_aliens(10);
    assert_eq!(world.entities()[0].x, 255_000);
    assert!(!world.alien_manager().shift_aliens_down);
    world.update_aliens(5_120);
    assert_eq!(world.entities()[0].x, -257_000);
    assert!(world.alien_manager().shift_aliens_down);
    assert_eq!(world.alien_manager().dist_from_boundary, 1_000);
    world.manage_alien_logic();
    assert_eq!(world.alien_manager().direction, 1);
    assert_eq!((world.entities()[0].x, world.entities()[0].y), (-256_000, -20_000));
}

#[test]
fn shifting_pass_leaves_the_dead_and_the_others_alone() {
    let mut world = arena();
    world.spawn(Kind::Alien, 257_000, 0, 0);
    let dead = world.spawn(Kind::Alien, 100_000, 50_000, 0);
    world.spawn(Kind::AlienBullet, 1_000, 2_000, 1);
    world.mark_dead(dead);
    world.update_aliens(0);
    assert!(world.alien_manager().shift_aliens_down);
    world.manage_alien_logic();
    let list = world.entities();
    assert_eq!((list[0].x, list[0].y), (256_000, -10_000));
    assert_eq!((list[1].x, list[1].y), (100_000, 50_000));
    assert_eq!((list[2].x, list[2].y), (1_000, 2_000));
}

#[test]
fn the_last_alien_that_crossed_sets_the_correction() {
    let mut world = arena();
    world.spawn(Kind::Alien, 260_000, 0, 0);
    world.spawn(Kind::Alien, 270_000, 0, 0);
    world.update_aliens(0);
    assert_eq!(world.alien_manager().dist_from_boundary, -14_000);
    world.manage_alien_logic();
    assert_eq!(world.entities()[0].x, 246_000);
    assert_eq!(world.entities()[1].x, 256_000);
}

#[test]
fn a_correction_taken_from_a_follower_leaves_the_leader_outside() {
    let mut world = arena();
    world.spawn(Kind::Alien, 270_000, 0, 0);
    world.spawn(Kind::Alien, 260_000, 0, 0);
    world.update_aliens(0);
    assert_eq!(world.alien_manager().dist_from_boundary, -4_000);
    world.manage_alien_logic();
    assert_eq!(world.entities()[0].x, 266_000);
    assert_eq!(world.entities()[1].x, 256_000);
}

#[test]
fn the_grid_stays_between_the_bounds_while_it_marches() {
    let mut world = arena();
    world.setup_aliens();
    let mut reversals = 0;
    for _ in 0..4_000 {
        let before = aliens(&world);
        let direction = world.alien_manager().direction;
        world.update_aliens(16);
        let raised = world.alien_manager().shift_aliens_down;
        world.manage_alien_logic();
        let manager = world.alien_manager();
        assert!(!manager.shift_aliens_down);
        if raised {
            reversals += 1;
            assert_eq!(manager.direction, -direction);
        } else {
            assert_eq!(manager.direction, direction);
        }
        let after = aliens(&world);
        assert_eq!(after.len(), 50);
        for (old, new) in before.iter().zip(after.iter()) {
            assert_eq!(old.id, new.id);
            assert!(new.x.abs() <= 256_000);
            assert!(new.y <= old.y);
            assert_eq!(new.y, if raised { old.y - 10_000 } else { old.y });
        }
    }
    assert!(reversals >= 2);
}

#[test]
fn the_grid_stays_between_the_bounds_at_a_step_of_one_spacing() {
    let mut world = arena();
    world.setup_aliens();
    for round in 0..1_500u64 {
        if round % 40 == 0 {
            world.mark_dead((round / 40 * 7) % 50);
            world.sweep();
        }
        world.update_aliens(240);
        world.manage_alien_logic();
        for alien in aliens(&world) {
            assert!(alien.x.abs() <= 256_000);
        }
    }
    assert!(world.live(Kind::Alien) < 50);
    assert!(world.live(Kind::Alien) > 0);
}
