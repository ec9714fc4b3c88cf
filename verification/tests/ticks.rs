use space_invaders::entity::{Entity, Kind};
use space_invaders::resolution::Resolution;
use space_invaders::units::TICK_LIMIT;
use space_invaders::world::bullet::FireRoll;
use space_invaders::world::player::PlayerIntent;
use space_invaders::world::tick::TickEvents;
use space_invaders::world::World;

fn arena() -> World {
    World::new(Resolution { half_width: 256_000, half_height: 256_000, pixel_ratio: 2 })
}

fn idle() -> PlayerIntent {
    PlayerIntent { up: false, down: false, left: false, right: false, boost: false, fire: false }
}

fn quiet() -> TickEvents {
    TickEvents { aliens_destroyed: 0, player_destroyed: false }
}

#[test]
fn a_world_without_a_player_is_not_ready() {
    let mut world = arena();
    world.setup_aliens();
    assert!(!world.ready());
    world.setup_player();
    assert!(world.ready());
}

#[test]
fn a_world_with_a_far_coordinate_is_not_ready() {
    let mut world = arena();
    world.setup_player();
    let far = world.spawn(Kind::Alien, TICK_LIMIT, -TICK_LIMIT, 0);
    assert!(world.ready());
    world.despawn(far);
    world.spawn(Kind::Alien, TICK_LIMIT + 1, 0, 0);
    assert!(!world.ready());
}

#[test]
fn a_world_with_a_bad_velocity_is_not_ready() {
    let mut world = arena();
    world.setup_player();
    let fast = world.spawn(Kind::AlienBullet, 0, 0, 65_535);
    assert!(world.ready());
    world.despawn(fast);
    let faster = world.spawn(Kind::AlienBullet, 0, 0, 65_536);
    assert!(!world.ready());
    world.despawn(faster);
    world.spawn(Kind::AlienBullet, 0, 0, -1);
    assert!(!world.ready());
}

#[test]
fn within_measures_every_coordinate() {
    let mut world = arena();
    assert!(world.within(256_000));
    assert!(!world.within(255_999));
    world.spawn(Kind::Alien, -300_000, 0, 0);
    world.spawn(Kind::AlienBullet, 0, 400_000, 1_001);
    assert!(world.within(400_000));
    assert!(!world.within(399_999));
    assert!(world.within(i64::MAX));
    assert!(!world.within(-1));
    world.spawn(Kind::Player, i64::MIN, 0, 0);
    assert!(!world.within(i64::MAX));
}

#[test]
fn within_measures_the_correction_against_three_limits() {
    let mut world = World::new(Resolution { half_width: 10, half_height: 10, pixel_ratio: 1 });
    world.spawn(Kind::Alien, 40, 0, 0);
    world.update_aliens(0);
    assert_eq!(world.alien_manager().dist_from_boundary, -30);
    world.despawn(0);
    assert!(world.within(10));
    world.spawn(Kind::Alien, 41, 0, 0);
    world.update_aliens(0);
    assert_eq!(world.alien_manager().dist_from_boundary, -31);
    world.despawn(1);
    assert!(!world.within(10));
    assert!(world.within(11));
}

#[test]
fn next_id_counts_what_was_spawned() {
    let mut world = arena();
    assert_eq!(world.next_id(), 0);
    world.setup_aliens();
    assert_eq!(world.next_id(), 50);
    world.despawn(3);
    assert_eq!(world.next_id(), 50);
    world.setup_player();
    assert_eq!(world.next_id(), 51);
}

#[test]
fn within_does_not_look_at_velocities() {
    let mut world = arena();
    world.spawn(Kind::AlienBullet, 0, 0, 65_536);
    world.spawn(Kind::PlayerBullet, 0, 0, -1);
    world.spawn(Kind::Alien, 0, 0, i64::MAX);
    assert!(world.within(256_000));
}

#[test]
fn paced_looks_at_the_live_entities_of_its_kind() {
    let mut world = arena();
    assert!(world.paced(Kind::AlienBullet));
    world.spawn(Kind::AlienBullet, 0, 0, 65_535);
    world.spawn(Kind::AlienBullet, 0, 0, 0);
    assert!(world.paced(Kind::AlienBullet));
    let fast = world.spawn(Kind::AlienBullet, 0, 0, 65_536);
    assert!(!world.paced(Kind::AlienBullet));
    assert!(world.paced(Kind::PlayerBullet));
    assert!(world.paced(Kind::Alien));
    world.mark_dead(fast);
    assert!(world.paced(Kind::AlienBullet));
    world.spawn(Kind::PlayerBullet, 0, 0, -1);
    assert!(!world.paced(Kind::PlayerBullet));
    assert!(world.paced(Kind::AlienBullet));
}

#[test]
fn a_stray_velocity_stops_the_flights_only() {
    let mut world = arena();
    world.setup_player();
    world.spawn(Kind::Alien, 0, 100_000, 0);
    world.spawn(Kind::AlienBullet, 0, 0, 65_536);
    assert!(world.within(256_000));
    assert!(world.paced(Kind::PlayerBullet));
    assert!(!world.paced(Kind::AlienBullet));
    assert!(!world.ready());
    world.update_aliens(10);
    world.manage_alien_logic();
    world.update_player(10, PlayerIntent { right: true, fire: true, ..idle() });
    world.spawn_enemy_bullets_from(&vec![
        FireRoll { shoot: false, boosted: false },
        FireRoll { shoot: true, boosted: false },
    ]);
    world.update_bullets(10);
    let list = world.entities();
    assert_eq!((list[0].x, list[0].y), (1_000, -230_400));
    assert_eq!((list[1].x, list[1].y), (1_000, 100_000));
    assert_eq!((list[2].y, list[2].velocity), (0, 65_536));
    assert_eq!((list[3].x, list[3].y), (1_000, -218_900));
    assert_eq!((list[4].x, list[4].y), (1_000, 90_000));
}

#[test]
fn a_dead_projectile_of_any_velocity_leaves_the_world_ready() {
    let mut world = arena();
    world.setup_player();
    let stray = world.spawn(Kind::AlienBullet, 0, 0, 65_536);
    world.mark_dead(stray);
    assert!(world.ready());
    assert_eq!(world.try_tick(10, idle()), Some(quiet()));
    assert_eq!(world.entities().len(), 1);
}

#[test]
fn a_world_with_a_far_bound_is_not_ready() {
    let mut world = World::new(Resolution {
        half_width: TICK_LIMIT + 1,
        half_height: 1_000,
        pixel_ratio: 1,
    });
    world.setup_player();
    assert!(!world.ready());
}

#[test]
fn a_tick_moves_fires_flies_and_sweeps_in_order() {
    let mut world = arena();
    world.setup_player();
    world.spawn(Kind::Alien, 0, 100_000, 0);
    let rolls = vec![
        FireRoll { shoot: true, boosted: true },
        FireRoll { shoot: true, boosted: false },
    ];
    let events = world.tick_with(10, PlayerIntent { right: true, fire: true, ..idle() }, &rolls);
    assert_eq!(events, quiet());
    assert_eq!(
        world.entities().clone(),
        vec![
            Entity { id: 0, kind: Kind::Player, x: 1_000, y: -230_400, velocity: 0, alive: true },
            Entity { id: 1, kind: Kind::Alien, x: 1_000, y: 100_000, velocity: 0, alive: true },
            Entity {
                id: 2,
                kind: Kind::PlayerBullet,
                x: 1_000,
                y: -218_900,
                velocity: 10,
                alive: true
            },
            Entity { id: 3, kind: Kind::AlienBullet, x: 1_000, y: 89_000, velocity: 1, alive: true },
        ]
    );
}

#[test]
fn a_tick_reverses_the_formation_at_the_bound() {
    let mut world = arena();
    world.setup_player();
    world.spawn(Kind::Alien, 255_500, 0, 0);
    world.tick_with(10, idle(), &Vec::new());
    let manager = world.alien_manager();
    assert_eq!(manager.direction, -1);
    assert!(!manager.shift_aliens_down);
    assert_eq!((world.entities()[1].x, world.entities()[1].y), (256_000, -10_000));
}

#[test]
fn a_tick_destroys_an_alien_that_a_bullet_reaches() {
    let mut world = arena();
    world.setup_player();
    world.spawn(Kind::Alien, 0, 0, 0);
    world.spawn(Kind::PlayerBullet, 1_000, -10_000, 10);
    let events = world.tick_with(10, idle(), &Vec::new());
    assert_eq!(events, TickEvents { aliens_destroyed: 1, player_destroyed: false });
    assert_eq!(world.entities().len(), 1);
    assert_eq!(world.entities()[0].kind, Kind::Player);
    assert!(world.ready());
}

#[test]
fn a_tick_destroys_the_player_that_a_bullet_reaches() {
    let mut world = arena();
    world.setup_player();
    world.spawn(Kind::AlienBullet, 0, -229_400, 1);
    let events = world.tick_with(10, idle(), &Vec::new());
    assert_eq!(events, TickEvents { aliens_destroyed: 0, player_destroyed: true });
    assert!(!world.has_player());
    assert!(!world.ready());
    assert_eq!(world.entities().len(), 1);
    assert_eq!(
        world.entities()[0],
        Entity { id: 1, kind: Kind::AlienBullet, x: 0, y: -230_400, velocity: 1, alive: true }
    );
}

#[test]
fn bullets_that_meet_are_both_absent_after_the_tick() {
    let mut world = arena();
    world.setup_player();
    world.spawn(Kind::PlayerBullet, 0, 0, 10);
    world.spawn(Kind::AlienBullet, 0, 11_000, 1);
    let events = world.tick_with(10, idle(), &Vec::new());
    assert_eq!(events, quiet());
    assert_eq!(world.entities().len(), 1);
    assert_eq!(world.entities()[0].kind, Kind::Player);
}

#[test]
fn a_bullet_spent_on_an_alien_meets_no_alien_bullet() {
    let mut world = arena();
    world.setup_player();
    world.spawn(Kind::Alien, -1_000, 10_000, 0);
    world.spawn(Kind::PlayerBullet, 0, 0, 10);
    world.spawn(Kind::AlienBullet, 0, 11_000, 1);
    let events = world.tick_with(10, idle(), &Vec::new());
    assert_eq!(events, TickEvents { aliens_destroyed: 1, player_destroyed: false });
    let list = world.entities();
    assert_eq!(list.len(), 2);
    assert_eq!(list[1].kind, Kind::AlienBullet);
    assert_eq!((list[1].x, list[1].y), (0, 10_000));
}

#[test]
fn a_tick_sweeps_the_projectiles_that_left() {
    let mut world = arena();
    world.setup_player();
    world.spawn(Kind::PlayerBullet, 0, 226_000, 10);
    world.spawn(Kind::PlayerBullet, 50_000, 225_999, 10);
    world.spawn(Kind::AlienBullet, 0, -275_000, 1);
    world.spawn(Kind::AlienBullet, 50_000, -275_000, 1_001);
    world.tick_with(10, idle(), &Vec::new());
    let left: Vec<u64> = world.entities().iter().map(|e| e.id).collect();
    assert_eq!(left, vec![0, 2, 3]);
}

#[test]
fn try_tick_runs_only_from_a_ready_world() {
    let mut world = arena();
    world.spawn(Kind::Alien, 0, 0, 0);
    let before = world.entities().clone();
    assert_eq!(world.try_tick(10, idle()), None);
    assert_eq!(world.entities().clone(), before);
    world.setup_player();
    assert_eq!(world.try_tick(10, idle()), Some(quiet()));
    assert_eq!(world.entities()[0].x, 1_000);
}

#[test]
fn a_tick_of_no_time_moves_nothing() {
    let mut world = arena();
    world.setup_player();
    world.setup_aliens();
    let before = world.entities().clone();
    let events = world.tick_with(0, idle(), &Vec::new());
    assert_eq!(events, quiet());
    assert_eq!(world.entities().clone(), before);
}

fn keeps_its_promises(before: &[Entity], world: &World, events: TickEvents, aliens_before: usize) {
    let after = world.entities();
    assert!(after.iter().all(|e| e.alive));
    assert!(!world.alien_manager().shift_aliens_down);
    assert!(after.windows(2).all(|pair| pair[0].id < pair[1].id));
    assert_eq!(events.aliens_destroyed, aliens_before - world.live(Kind::Alien));
    assert_eq!(events.player_destroyed, !world.has_player());
    for alien in after.iter().filter(|e| e.kind == Kind::Alien) {
        let was = before.iter().find(|e| e.id == alien.id).unwrap();
        assert_eq!(was.kind, Kind::Alien);
        assert!(alien.y <= was.y);
        assert!(alien.x.abs() <= 256_000);
    }
    for bullet in after.iter().filter(|e| e.kind == Kind::PlayerBullet) {
        assert!(bullet.y < 236_000);
    }
    for bullet in after.iter().filter(|e| e.kind == Kind::AlienBullet) {
        assert!(bullet.y >= -276_000);
    }
    if let Some(player) = after.iter().find(|e| e.kind == Kind::Player) {
        assert!(player.x.abs() <= 246_000);
        assert!(player.y.abs() <= 246_000);
    }
}

fn intent_at(step: u32) -> PlayerIntent {
    PlayerIntent { right: step % 200 < 100, left: step % 200 >= 100, fire: step % 14 == 0, ..idle() }
}

#[test]
fn a_session_with_drawn_rolls_keeps_its_promises() {
    let mut world = arena();
    world.setup_player();
    world.setup_aliens();
    for step in 0..3_000u32 {
        if !world.ready() {
            break;
        }
        let before = world.entities().clone();
        let aliens_before = world.live(Kind::Alien);
        let events = world.tick(16, intent_at(step));
        keeps_its_promises(&before, &world, events, aliens_before);
    }
}

#[test]
fn a_session_with_given_rolls_keeps_its_promises() {
    let mut world = arena();
    world.setup_player();
    world.setup_aliens();
    let mut destroyed = 0;
    for step in 0..3_000u32 {
        assert!(world.ready());
        let before = world.entities().clone();
        let aliens_before = world.live(Kind::Alien);
        let rolls: Vec<FireRoll> = (0..before.len() as u32)
            .map(|slot| FireRoll { shoot: (slot + step) % 997 == 0, boosted: step % 2 == 0 })
            .collect();
        let events = world.tick_with(16, PlayerIntent { down: false, ..intent_at(step) }, &rolls);
        keeps_its_promises(&before, &world, events, aliens_before);
        destroyed += events.aliens_destroyed;
        if events.player_destroyed {
            world.setup_player();
        }
    }
    assert!(destroyed > 0);
    assert_eq!(world.live(Kind::Alien), 50 - destroyed);
}
