use space_invaders::entity::{Entity, Kind};
use space_invaders::resolution::Resolution;
use space_invaders::world::player::PlayerIntent;
use space_invaders::world::World;

fn arena() -> World {
    World::new(Resolution { half_width: 256_000, half_height: 256_000, pixel_ratio: 2 })
}

fn idle() -> PlayerIntent {
    PlayerIntent { up: false, down: false, left: false, right: false, boost: false, fire: false }
}

#[test]
fn setup_player_puts_the_player_near_the_bottom() {
    let mut world = arena();
    assert!(!world.has_player());
    world.setup_player();
    assert!(world.has_player());
    assert_eq!(world.player_index(), 0);
    assert_eq!(
        world.entities()[0],
        Entity { id: 0, kind: Kind::Player, x: 0, y: -230_400, velocity: 0, alive: true }
    );
}

#[test]
fn setup_player_rounds_the_start_towards_the_centre() {
    let mut world = World::new(Resolution { half_width: 100, half_height: 15, pixel_ratio: 1 });
    world.setup_player();
    assert_eq!(world.entities()[0].y, -13);
}

#[test]
fn setup_player_keeps_a_live_player() {
    let mut world = arena();
    world.setup_player();
    world.setup_player();
    assert_eq!(world.entities().len(), 1);
}

#[test]
fn setup_player_replaces_a_dead_player() {
    let mut world = arena();
    world.setup_player();
    world.mark_dead(0);
    assert!(!world.has_player());
    world.setup_player();
    assert_eq!(world.entities().len(), 2);
    assert_eq!(world.player_index(), 1);
    assert_eq!(world.entities()[1].id, 1);
}

#[test]
fn player_index_is_the_length_without_a_player() {
    let mut world = arena();
    world.spawn(Kind::Alien, 0, 0, 0);
    assert_eq!(world.player_index(), 1);
    assert!(!world.has_player());
}

#[test]
fn player_moves_at_its_speed() {
    let mut world = arena();
    world.spawn(Kind::Player, 0, 0, 0);
    world.update_player(10, PlayerIntent { right: true, ..idle() });
    assert_eq!((world.entities()[0].x, world.entities()[0].y), (1_000, 0));
    world.update_player(10, PlayerIntent { left: true, ..idle() });
    assert_eq!((world.entities()[0].x, world.entities()[0].y), (0, 0));
    world.update_player(10, PlayerIntent { up: true, ..idle() });
    assert_eq!((world.entities()[0].x, world.entities()[0].y), (0, 1_000));
    world.update_player(10, PlayerIntent { down: true, ..idle() });
    assert_eq!((world.entities()[0].x, world.entities()[0].y), (0, 0));
}

#[test]
fn boost_multiplies_the_speed_by_five() {
    let mut world = arena();
    world.spawn(Kind::Player, 0, 0, 0);
    world.update_player(10, PlayerIntent { right: true, up: true, boost: true, ..idle() });
    assert_eq!((world.entities()[0].x, world.entities()[0].y), (5_000, 5_000));
}

#[test]
fn opposite_directions_cancel() {
    let mut world = arena();
    world.spawn(Kind::Player, 3, 4, 0);
    world.update_player(
        16,
        PlayerIntent { up: true, down: true, left: true, right: true, boost: true, fire: false },
    );
    assert_eq!((world.entities()[0].x, world.entities()[0].y), (3, 4));
}

#[test]
fn idle_player_stays() {
    let mut world = arena();
    world.spawn(Kind::Player, 3, 4, 0);
    world.update_player(1_000, idle());
    assert_eq!(world.entities().len(), 1);
    assert_eq!((world.entities()[0].x, world.entities()[0].y), (3, 4));
}

#[test]
fn player_is_held_to_the_side_and_bottom_bounds() {
    let mut world = arena();
    world.spawn(Kind::Player, 245_000, -245_000, 0);
    world.update_player(20, PlayerIntent { right: true, down: true, ..idle() });
    assert_eq!((world.entities()[0].x, world.entities()[0].y), (246_000, -246_000));
    world.update_player(10_000, PlayerIntent { left: true, ..idle() });
    assert_eq!((world.entities()[0].x, world.entities()[0].y), (-246_000, -246_000));
}

#[test]
fn player_is_held_to_the_top_bound() {
    let mut world = arena();
    world.spawn(Kind::Player, 0, 256_000, 0);
    world.update_player(1_000, PlayerIntent { up: true, ..idle() });
    assert_eq!((world.entities()[0].x, world.entities()[0].y), (0, 246_000));
    world.update_player(0, idle());
    assert_eq!((world.entities()[0].x, world.entities()[0].y), (0, 246_000));
}

#[test]
fn player_just_below_the_top_margin_moves_freely() {
    let mut world = arena();
    world.spawn(Kind::Player, 0, 244_000, 0);
    world.update_player(10, PlayerIntent { up: true, ..idle() });
    assert_eq!(world.entities()[0].y, 245_000);
    world.update_player(10, PlayerIntent { up: true, ..idle() });
    assert_eq!(world.entities()[0].y, 246_000);
    world.update_player(10, PlayerIntent { up: true, ..idle() });
    assert_eq!(world.entities()[0].y, 246_000);
    world.update_player(10, PlayerIntent { down: true, ..idle() });
    assert_eq!(world.entities()[0].y, 245_000);
}

#[test]
fn player_stays_inside_the_arena_whatever_it_asks_for() {
    let mut world = arena();
    world.setup_player();
    for step in 0..400u32 {
        let intent = PlayerIntent {
            up: step % 3 != 0,
            down: step % 5 == 0,
            left: step % 7 < 2,
            right: step % 7 >= 2,
            boost: step % 2 == 0,
            fire: false,
        };
        world.update_player(250, intent);
        let player = world.entities()[0];
        assert!(-246_000 <= player.x && player.x <= 246_000);
        assert!(-246_000 <= player.y && player.y <= 246_000);
    }
    assert_eq!((world.entities()[0].x, world.entities()[0].y), (221_000, 246_000));
}

#[test]
fn in_a_low_arena_the_bottom_bound_wins() {
    let mut world = World::new(Resolution { half_width: 50_000, half_height: 4_000, pixel_ratio: 1 });
    world.spawn(Kind::Player, 0, 0, 0);
    world.update_player(0, idle());
    assert_eq!(world.entities()[0].y, 6_000);
}

#[test]
fn in_a_narrow_arena_the_left_bound_wins() {
    let mut world = World::new(Resolution { half_width: 4_000, half_height: 50_000, pixel_ratio: 1 });
    world.spawn(Kind::Player, 0, 0, 0);
    world.update_player(0, idle());
    assert_eq!(world.entities()[0].x, 6_000);
}

#[test]
fn firing_spawns_one_bullet_above_the_player() {
    let mut world = arena();
    world.spawn(Kind::Player, 1_000, -200_000, 0);
    world.update_player(10, PlayerIntent { fire: true, ..idle() });
    let list = world.entities();
    assert_eq!(list.len(), 2);
    assert_eq!(
        list[1],
        Entity { id: 1, kind: Kind::PlayerBullet, x: 1_000, y: -198_500, velocity: 10, alive: true }
    );
    world.update_player(10, idle());
    assert_eq!(world.entities().len(), 2);
}

#[test]
fn the_bullet_starts_where_the_player_went_before_it_was_held_back() {
    let mut world = arena();
    world.spawn(Kind::Player, 245_000, -245_000, 0);
    world.update_player(
        1_000,
        PlayerIntent { right: true, down: true, boost: true, fire: true, ..idle() },
    );
    let list = world.entities();
    assert_eq!((list[0].x, list[0].y), (246_000, -246_000));
    assert_eq!((list[1].x, list[1].y), (745_000, -743_500));
}

#[test]
fn the_bullet_of_a_player_held_at_the_top_starts_above_the_bound() {
    let mut world = arena();
    world.spawn(Kind::Player, 0, 246_000, 0);
    world.update_player(100, PlayerIntent { up: true, fire: true, ..idle() });
    let list = world.entities();
    assert_eq!((list[0].x, list[0].y), (0, 246_000));
    assert_eq!((list[1].x, list[1].y), (0, 257_500));
}

#[test]
fn the_first_live_player_is_the_one_that_moves() {
    let mut world = arena();
    let first = world.spawn(Kind::Player, 0, 0, 0);
    world.spawn(Kind::Player, 50_000, 0, 0);
    world.mark_dead(first);
    assert_eq!(world.player_index(), 1);
    world.update_player(10, PlayerIntent { right: true, ..idle() });
    assert_eq!(world.entities()[0].x, 0);
    assert_eq!(world.entities()[1].x, 51_000);
}
