use space_invaders::entity::{Entity, Kind};
use space_invaders::resolution::Resolution;
use space_invaders::rng::Odds;
use space_invaders::world::bullet::FireRoll;
use space_invaders::world::World;

fn arena() -> World {
    World::new(Resolution { half_width: 256_000, half_height: 256_000, pixel_ratio: 2 })
}

fn hold() -> FireRoll {
    FireRoll { shoot: false, boosted: false }
}

fn shot() -> FireRoll {
    FireRoll { shoot: true, boosted: false }
}

fn boosted_shot() -> FireRoll {
    FireRoll { shoot: true, boosted: true }
}

#[test]
fn an_alien_fires_from_below_itself() {
    let mut world = arena();
    world.spawn(Kind::Alien, 12_000, 100_000, 0);
    world.spawn_enemy_bullets_from(&vec![shot()]);
    let list = world.entities();
    assert_eq!(list.len(), 2);
    assert_eq!(
        list[1],
        Entity { id: 1, kind: Kind::AlienBullet, x: 12_000, y: 90_000, velocity: 1, alive: true }
    );
}

#[test]
fn a_boosted_bullet_is_a_thousand_faster() {
    let mut world = arena();
    world.spawn(Kind::Alien, 0, 0, 0);
    world.spawn_enemy_bullets_from(&vec![boosted_shot()]);
    assert_eq!(world.entities()[1].velocity, 1_001);
    assert_eq!(world.entities()[1].y, -10_000);
}

#[test]
fn a_boost_without_a_shot_fires_nothing() {
    let mut world = arena();
    world.spawn(Kind::Alien, 0, 0, 0);
    world.spawn_enemy_bullets_from(&vec![FireRoll { shoot: false, boosted: true }]);
    assert_eq!(world.entities().len(), 1);
}

#[test]
fn rolls_belong_to_the_entity_at_their_index() {
    let mut world = arena();
    world.spawn(Kind::Player, 0, -200_000, 0);
    world.spawn(Kind::Alien, -24_000, 100_000, 0);
    world.spawn(Kind::Alien, 0, 100_000, 0);
    world.spawn(Kind::Alien, 24_000, 100_000, 0);
    world.spawn_enemy_bullets_from(&vec![shot(), hold(), boosted_shot(), shot()]);
    let list = world.entities();
    assert_eq!(list.len(), 6);
    assert_eq!(
        list[4],
        Entity { id: 4, kind: Kind::AlienBullet, x: 0, y: 90_000, velocity: 1_001, alive: true }
    );
    assert_eq!(
        list[5],
        Entity { id: 5, kind: Kind::AlienBullet, x: 24_000, y: 90_000, velocity: 1, alive: true }
    );
}

#[test]
fn the_dead_and_the_unrolled_hold_fire() {
    let mut world = arena();
    let dead = world.spawn(Kind::Alien, 0, 0, 0);
    world.spawn(Kind::Alien, 24_000, 0, 0);
    world.spawn(Kind::Alien, 48_000, 0, 0);
    world.mark_dead(dead);
    world.spawn_enemy_bullets_from(&vec![shot(), shot()]);
    let list = world.entities();
    assert_eq!(list.len(), 4);
    assert_eq!((list[3].x, list[3].y), (24_000, -10_000));
    world.spawn_enemy_bullets_from(&Vec::new());
    assert_eq!(world.entities().len(), 4);
}

#[test]
fn new_bullets_do_not_fire_in_the_pass_that_made_them() {
    let mut world = arena();
    world.spawn(Kind::Alien, 0, 0, 0);
    world.spawn_enemy_bullets_from(&vec![shot(), shot(), shot()]);
    assert_eq!(world.entities().len(), 2);
}

#[test]
fn player_bullets_fly_up() {
    let mut world = arena();
    world.spawn(Kind::PlayerBullet, 5_000, -100_000, 10);
    world.spawn(Kind::AlienBullet, 5_000, 100_000, 1);
    world.spawn(Kind::Alien, 0, 0, 0);
    world.update_bullets(10);
    let list = world.entities();
    assert_eq!((list[0].x, list[0].y), (5_000, -90_000));
    assert_eq!((list[1].x, list[1].y), (5_000, 100_000));
    assert_eq!((list[2].x, list[2].y), (0, 0));
}

#[test]
fn alien_bullets_fly_down_at_their_velocity() {
    let mut world = arena();
    world.spawn(Kind::AlienBullet, 0, 100_000, 1);
    world.spawn(Kind::AlienBullet, 1_000, 100_000, 1_001);
    world.spawn(Kind::PlayerBullet, 0, 0, 10);
    world.update_enemy_bullets(10);
    let list = world.entities();
    assert_eq!((list[0].x, list[0].y), (0, 99_000));
    assert_eq!((list[1].x, list[1].y), (1_000, -901_000));
    assert_eq!((list[2].x, list[2].y), (0, 0));
}

#[test]
fn dead_bullets_do_not_fly() {
    let mut world = arena();
    let spent = world.spawn(Kind::PlayerBullet, 0, 0, 10);
    let gone = world.spawn(Kind::AlienBullet, 0, 0, 1);
    world.mark_dead(spent);
    world.mark_dead(gone);
    world.update_bullets(100);
    world.update_enemy_bullets(100);
    assert_eq!(world.entities()[0].y, 0);
    assert_eq!(world.entities()[1].y, 0);
}

#[test]
fn a_certain_chance_makes_every_live_alien_fire() {
    let mut world = arena();
    world.setup_player();
    world.setup_aliens();
    world.mark_dead(7);
    let sure = Odds { numerator: 1, denominator: 1 };
    let never = Odds { numerator: 0, denominator: 1 };
    assert!(sure.is_wf() && never.is_wf());
    world.spawn_enemy_bullets_with(sure, never);
    let list = world.entities();
    assert_eq!(list.len(), 51 + 49);
    let mut shooters: Vec<usize> = (1..51).collect();
    shooters.retain(|&k| k != 7);
    for (n, bullet) in list[51..].iter().enumerate() {
        let alien = list[shooters[n]];
        assert_eq!(bullet.kind, Kind::AlienBullet);
        assert_eq!(bullet.id, 51 + n as u64);
        assert_eq!(bullet.velocity, 1);
        assert_eq!((bullet.x, bullet.y), (alien.x, alien.y - 10_000));
        assert!(bullet.alive);
    }
}

#[test]
fn a_certain_boost_makes_every_bullet_a_boosted_one() {
    let mut world = arena();
    world.spawn(Kind::Alien, 0, 0, 0);
    world.spawn(Kind::Alien, 24_000, 0, 0);
    let sure = Odds { numerator: 5, denominator: 5 };
    world.spawn_enemy_bullets_with(sure, sure);
    let list = world.entities();
    assert_eq!(list.len(), 4);
    assert_eq!(list[2].velocity, 1_001);
    assert_eq!(list[3].velocity, 1_001);
}

#[test]
fn a_chance_of_zero_keeps_every_alien_quiet() {
    let mut world = arena();
    world.setup_aliens();
    let never = Odds { numerator: 0, denominator: 10_000 };
    let sure = Odds { numerator: 1, denominator: 1 };
    for _ in 0..20 {
        world.spawn_enemy_bullets_with(never, sure);
    }
    assert_eq!(world.entities().len(), 50);
}

#[test]
fn drawn_rolls_come_one_for_each_entity() {
    let mut world = arena();
    world.setup_player();
    world.spawn(Kind::Alien, 0, 0, 0);
    let dead = world.spawn(Kind::Alien, 24_000, 0, 0);
    world.spawn(Kind::PlayerBullet, 0, -100_000, 10);
    world.mark_dead(dead);
    let sure = Odds { numerator: 1, denominator: 1 };
    let rolls = world.draw_rolls(sure, sure);
    assert_eq!(rolls, vec![hold(), boosted_shot(), hold(), hold()]);
    let never = Odds { numerator: 0, denominator: 3 };
    let rolls = world.draw_rolls(sure, never);
    assert_eq!(rolls, vec![hold(), shot(), hold(), hold()]);
}

#[test]
fn the_chance_of_the_game_fires_rarely() {
    let mut world = arena();
    world.setup_aliens();
    let mut fired = 0;
    for _ in 0..200 {
        let before = world.entities().len();
        world.spawn_enemy_bullets();
        let list = world.entities();
        for bullet in &list[before..] {
            assert_eq!(bullet.kind, Kind::AlienBullet);
            assert!(bullet.velocity == 1 || bullet.velocity == 1_001);
            assert!(list[..50].iter().any(|a| (a.x, a.y - 10_000) == (bullet.x, bullet.y)));
        }
        fired += list.len() - before;
        assert!(list.len() - before <= 50);
    }
    assert!(fired <= 200 * 50);
    assert_eq!(world.entities().len(), 50 + fired);
}

#[test]
fn odds_that_no_draw_can_be_made_with_are_told_apart() {
    assert!(!Odds { numerator: 1, denominator: 0 }.is_wf());
    assert!(!Odds { numerator: 3, denominator: 2 }.is_wf());
    assert!(Odds { numerator: 0, denominator: 1 }.is_wf());
    assert!(Odds { numerator: 1, denominator: 10_000 }.is_wf());
}
