//! Scales, speeds and distances of the simulation.
//!
//! Positions are whole numbers of sub-units, `UNIT` of them to one arena unit,
//! and time steps are whole numbers of time units, `UNIT` of them to one
//! second. A speed in arena units per second is therefore the same number in
//! sub-units per time unit.
use vstd::prelude::*;

verus! {

/// Sub-units in one arena unit, and time units in one second.
pub const UNIT: i64 = 1000;

/// Horizontal speed of the formation.
pub const SPEED: i64 = 100;

/// Columns of the starting formation.
pub const WIDTH: u64 = 10;

/// Rows of the starting formation.
pub const HEIGHT: u64 = 5;

/// Distance between neighbours in the starting formation.
pub const SPACING: i64 = 24_000;

/// How far the formation drops when it reverses.
pub const ALIEN_SHIFT_AMOUNT: i64 = 10_000;

/// Speed of a projectile whose velocity is one.
pub const BASE_RATE: i64 = 100;

/// Velocity of a player bullet.
pub const BULLET_VELOCITY: i64 = 10;

/// Velocity of an ordinary alien bullet.
pub const ALIEN_BULLET_VELOCITY: i64 = 1;

/// What a boosted alien bullet adds to the ordinary velocity.
pub const BOOST: i64 = 1000;

/// Speed of the player.
pub const PLAYER_SPEED: i64 = 100;

/// Factor on the player's speed while the boost modifier is held.
pub const SPRINT: i64 = 5;

/// Two entities closer than this have collided.
pub const HIT_RADIUS: i64 = 10_000;

/// Margin of the bounds at which projectiles leave the arena.
pub const EXIT_MARGIN: i64 = 20_000;

/// Distance the player keeps from each of the four bounds.
pub const PLAYER_MARGIN: i64 = 10_000;

/// Height above the player at which its bullets appear.
pub const PLAYER_MUZZLE: i64 = 1_500;

/// Depth below an alien at which its bullets appear.
pub const ALIEN_MUZZLE: i64 = 10_000;

/// Largest coordinate, in absolute value, from which a single pass can start.
pub const PASS_LIMIT: i64 = 0x1000_0000_0000_0000;

/// Largest coordinate, in absolute value, from which a whole tick can start.
pub const TICK_LIMIT: i64 = 0x0100_0000_0000_0000;

/// Largest velocity of a projectile.
pub const VELOCITY_LIMIT: i64 = 0xffff;

/// Largest identifier counter from which a pass that spawns can start.
pub const ID_LIMIT: u64 = 0x4000_0000_0000_0000;

/// The distance of a value from zero.
pub open spec fn abs(v: int) -> int {
    if v < 0 {
        -v
    } else {
        v
    }
}

/// A value taken along a direction of `1` or `-1`.
pub proof fn lemma_signed(v: int, direction: int)
    requires
        direction == 1 || direction == -1,
    ensures
        v * direction == if direction == 1 {
            v
        } else {
            -v
        },
{
    assert(v * 1 == v && v * (-1) == -v) by (nonlinear_arith);
}

/// Whether two points are strictly closer than the hit radius.
pub open spec fn within_hit_radius(ax: int, ay: int, bx: int, by: int) -> bool {
    (ax - bx) * (ax - bx) + (ay - by) * (ay - by) < HIT_RADIUS * HIT_RADIUS
}

/// The hit test does not depend on which of the two points comes first.
pub proof fn lemma_hit_symmetric(ax: int, ay: int, bx: int, by: int)
    ensures
        within_hit_radius(ax, ay, bx, by) == within_hit_radius(bx, by, ax, ay),
{
    assert((ax - bx) * (ax - bx) == (bx - ax) * (bx - ax)) by (nonlinear_arith);
    assert((ay - by) * (ay - by) == (by - ay) * (by - ay)) by (nonlinear_arith);
}

/// Two entities at one place have collided.
pub proof fn lemma_same_place_hits(x: int, y: int)
    ensures
        within_hit_radius(x, y, x, y),
{
}

/// Two points at least the hit radius apart along one axis have not collided.
proof fn lemma_far_apart(d: int, e: int)
    requires
        d >= HIT_RADIUS || d <= -HIT_RADIUS,
    ensures
        d * d + e * e >= HIT_RADIUS * HIT_RADIUS,
{
    assert(d * d >= 10_000 * 10_000 && e * e >= 0) by (nonlinear_arith)
        requires
            d >= 10_000 || d <= -10_000,
    ;
}

/// The square of a distance below the hit radius is below the square of the
/// hit radius.
proof fn lemma_close_square(d: int)
    requires
        -HIT_RADIUS < d < HIT_RADIUS,
    ensures
        0 <= d * d <= HIT_RADIUS * HIT_RADIUS,
{
    assert(0 <= d * d <= 10_000 * 10_000) by (nonlinear_arith)
        requires
            -10_000 < d < 10_000,
    ;
}

/// Largest rate that `travelled` takes.
pub const RATE_LIMIT: i64 = 0x7f_ffff;

/// Largest distance that `travelled` gives.
pub const TRAVEL_LIMIT: i64 = 0x80_0000_0000_0000;

/// The distance covered in a time step at a rate.
pub(crate) fn travelled(dt: u32, rate: i64) -> (d: i64)
    requires
        0 <= rate <= RATE_LIMIT,
    ensures
        d == dt * rate,
        0 <= d <= TRAVEL_LIMIT,
{
    assert(0 <= dt * rate <= 0x1_0000_0000 * 0x80_0000) by (nonlinear_arith)
        requires
            0 <= dt <= 0xffff_ffff,
            0 <= rate <= 0x7f_ffff,
    ;
    dt as i64 * rate
}

/// Tests two points for a collision.
pub fn hit(ax: i64, ay: i64, bx: i64, by: i64) -> (r: bool)
    ensures
        r == within_hit_radius(ax as int, ay as int, bx as int, by as int),
{
    let dx: i128 = ax as i128 - bx as i128;
    let dy: i128 = ay as i128 - by as i128;
    let radius: i128 = HIT_RADIUS as i128;
    if dx >= radius || dx <= -radius {
        proof {
            lemma_far_apart(dx as int, dy as int);
        }
        false
    } else if dy >= radius || dy <= -radius {
        proof {
            lemma_far_apart(dy as int, dx as int);
        }
        false
    } else {
        proof {
            lemma_close_square(dx as int);
            lemma_close_square(dy as int);
        }
        dx * dx + dy * dy < radius * radius
    }
}

} // verus!
