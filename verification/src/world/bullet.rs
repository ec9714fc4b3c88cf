//! The projectiles: the volleys of the aliens and the flight of both kinds.
use super::World;
use crate::entity::{Entity, EntityModel, Kind};
use crate::model::{lemma_len_below_next_id, WorldModel};
use crate::rng::{draw, one_in, Odds};
use crate::units::{
    abs, travelled, ALIEN_BULLET_VELOCITY, ALIEN_MUZZLE, BASE_RATE, BOOST, ID_LIMIT, PASS_LIMIT,
    TRAVEL_LIMIT, VELOCITY_LIMIT,
};
use vstd::prelude::*;

verus! {

/// The two draws of one alien in one tick.
#[derive(Clone, Copy, Debug, PartialEq, Eq, Structural)]
pub struct FireRoll {
    /// The alien fires.
    pub shoot: bool,
    /// Its bullet, if it fires one, is a boosted one.
    pub boosted: bool,
}

/// An alien fires in one tick out of this many.
pub const SHOOT_IN: u32 = 10_000;

/// One alien bullet out of this many is boosted.
pub const BOOST_IN: u32 = 1_000;

/// Whether rolls may have been drawn for a store with the given chances: one
/// roll for each entity, and for what is no live alien a roll that holds
/// fire.
pub open spec fn possible(
    s: Seq<EntityModel>,
    rolls: Seq<FireRoll>,
    shoot: Odds,
    boost: Odds,
) -> bool {
    &&& rolls.len() == s.len()
    &&& forall|i: int|
        0 <= i < s.len() ==> {
            let roll = #[trigger] rolls[i];
            if s[i].is_live(Kind::Alien) {
                shoot.allows(roll.shoot) && boost.allows(roll.boosted)
            } else {
                !roll.shoot && !roll.boosted
            }
        }
}

/// Whether the entity at an index fires: it is a live alien and its roll,
/// the one at the same index, says so. An alien without a roll holds fire.
pub open spec fn fires(s: Seq<EntityModel>, rolls: Seq<FireRoll>, i: int) -> bool {
    &&& 0 <= i < s.len()
    &&& i < rolls.len()
    &&& s[i].is_live(Kind::Alien)
    &&& rolls[i].shoot
}

/// The velocity of an alien bullet.
pub open spec fn bullet_velocity(boosted: bool) -> int {
    if boosted {
        ALIEN_BULLET_VELOCITY + BOOST
    } else {
        ALIEN_BULLET_VELOCITY as int
    }
}

/// The bullet that an alien fires.
pub open spec fn alien_bullet(alien: EntityModel, boosted: bool, id: int) -> EntityModel {
    EntityModel {
        id,
        kind: Kind::AlienBullet,
        x: alien.x,
        y: alien.y - ALIEN_MUZZLE,
        velocity: bullet_velocity(boosted),
        alive: true,
    }
}

/// The bullets that the first `n` entities fire, in the order of the store,
/// numbered from `first_id`.
pub open spec fn volley(s: Seq<EntityModel>, rolls: Seq<FireRoll>, first_id: int, n: int) -> Seq<
    EntityModel,
>
    decreases n,
{
    if n <= 0 {
        Seq::empty()
    } else {
        let earlier = volley(s, rolls, first_id, n - 1);
        if fires(s, rolls, n - 1) {
            earlier.push(alien_bullet(s[n - 1], rolls[n - 1].boosted, first_id + earlier.len()))
        } else {
            earlier
        }
    }
}

/// A volley holds at most one bullet for each entity looked at.
pub proof fn lemma_volley_len(s: Seq<EntityModel>, rolls: Seq<FireRoll>, first_id: int, n: int)
    requires
        0 <= n,
    ensures
        volley(s, rolls, first_id, n).len() <= n,
    decreases n,
{
    if n > 0 {
        lemma_volley_len(s, rolls, first_id, n - 1);
    }
}

/// An entity after its kind flew for a while: a live projectile of the kind
/// moves along y by `rate` for each unit of its velocity.
pub open spec fn flown(e: EntityModel, kind: Kind, rate: int) -> EntityModel {
    if e.is_live(kind) {
        e.at(e.x, e.y + rate * e.velocity)
    } else {
        e
    }
}

impl WorldModel {
    /// The state with the bullets of the aliens that fire.
    pub open spec fn spawn_enemy_bullets(self, rolls: Seq<FireRoll>) -> WorldModel {
        let bullets = volley(self.entities, rolls, self.next_id, self.entities.len() as int);
        WorldModel {
            entities: self.entities + bullets,
            next_id: self.next_id + bullets.len(),
            ..self
        }
    }

    /// The state with every live projectile of a kind moved along y.
    pub open spec fn fly(self, kind: Kind, rate: int) -> WorldModel {
        WorldModel {
            entities: self.entities.map_values(|e: EntityModel| flown(e, kind, rate)),
            ..self
        }
    }

    /// The player bullets fly up.
    pub open spec fn update_bullets(self, dt: int) -> WorldModel {
        self.fly(Kind::PlayerBullet, signed_rate(dt, true))
    }

    /// The alien bullets fly down.
    pub open spec fn update_enemy_bullets(self, dt: int) -> WorldModel {
        self.fly(Kind::AlienBullet, signed_rate(dt, false))
    }
}

/// A volley holds live alien bullets, numbered in their order.
pub proof fn lemma_volley_shape(s: Seq<EntityModel>, rolls: Seq<FireRoll>, first_id: int, n: int)
    ensures
        forall|k: int|
            0 <= k < volley(s, rolls, first_id, n).len() ==> {
                let b = #[trigger] volley(s, rolls, first_id, n)[k];
                &&& 0 <= b.velocity <= VELOCITY_LIMIT
                &&& b.id == first_id + k
                &&& b.is_live(Kind::AlienBullet)
            },
    decreases n,
{
    if n > 0 {
        lemma_volley_shape(s, rolls, first_id, n - 1);
    }
}

/// A volley starts at most the muzzle depth farther out than its aliens.
pub proof fn lemma_volley_within(
    s: Seq<EntityModel>,
    rolls: Seq<FireRoll>,
    first_id: int,
    n: int,
    limit: int,
)
    requires
        0 <= n <= s.len(),
        forall|i: int| 0 <= i < s.len() ==> abs(s[i].x) <= limit && abs(s[i].y) <= limit,
    ensures
        forall|k: int|
            0 <= k < volley(s, rolls, first_id, n).len() ==> {
                let b = #[trigger] volley(s, rolls, first_id, n)[k];
                &&& abs(b.x) <= limit + ALIEN_MUZZLE
                &&& abs(b.y) <= limit + ALIEN_MUZZLE
            },
    decreases n,
{
    if n > 0 {
        lemma_volley_within(s, rolls, first_id, n - 1, limit);
    }
}

impl WorldModel {
    /// Firing keeps the state well formed and within a limit that is the
    /// muzzle depth wider.
    pub proof fn lemma_spawn_enemy_bullets(self, rolls: Seq<FireRoll>, limit: int)
        requires
            self.wf(),
            self.within(limit),
            0 <= limit,
        ensures
            self.spawn_enemy_bullets(rolls).wf(),
            self.spawn_enemy_bullets(rolls).within(limit + ALIEN_MUZZLE),
            self.spawn_enemy_bullets(rolls).next_id <= self.next_id + self.entities.len(),
    {
        let n = self.entities.len() as int;
        lemma_volley_within(self.entities, rolls, self.next_id, n, limit);
        lemma_volley_shape(self.entities, rolls, self.next_id, n);
        lemma_volley_len(self.entities, rolls, self.next_id, n);
    }

    /// Flight keeps the state well formed and within a limit that is the
    /// longest flight wider.
    pub proof fn lemma_fly(self, kind: Kind, dt: int, up: bool, limit: int)
        requires
            self.wf(),
            self.within(limit),
            self.paced(kind),
            0 <= limit,
            0 <= dt <= u32::MAX,
        ensures
            self.fly(kind, signed_rate(dt, up)).wf(),
            self.fly(kind, signed_rate(dt, up)).within(limit + TRAVEL_LIMIT),
    {
        let rate = signed_rate(dt, up);
        let after = self.fly(kind, rate);
        assert forall|i: int| 0 <= i < after.entities.len() implies {
            &&& abs((#[trigger] after.entities[i]).x) <= limit + TRAVEL_LIMIT
            &&& abs(after.entities[i].y) <= limit + TRAVEL_LIMIT
        } by {
            let e = self.entities[i];
            if e.is_live(kind) {
                assert(abs(rate * e.velocity) <= 0x1_0000_0000 * 100 * 0xffff) by (nonlinear_arith)
                    requires
                        0 <= e.velocity <= 0xffff,
                        rate == dt * 100 || rate == -(dt * 100),
                        0 <= dt <= 0xffff_ffff,
                ;
            }
        }
    }
}

/// The distance along y that a projectile of velocity one covers in a time
/// step, upwards or downwards.
pub open spec fn signed_rate(dt: int, up: bool) -> int {
    if up {
        dt * BASE_RATE
    } else {
        -(dt * BASE_RATE)
    }
}

impl World {
    /// Draws the rolls of one tick: two draws for each live alien, in the
    /// order of the store.
    pub fn draw_rolls(&self, shoot: Odds, boost: Odds) -> (rolls: Vec<FireRoll>)
        requires
            shoot.wf(),
            boost.wf(),
        ensures
            possible(self@.entities, rolls@, shoot, boost),
    {
        let mut rng = rand::rng();
        let n = self.entities.len();
        let mut rolls: Vec<FireRoll> = Vec::new();
        let mut i: usize = 0;
        while i < n
            invariant
                i <= n,
                n == self@.entities.len(),
                shoot.wf(),
                boost.wf(),
                rolls@.len() == i,
                possible(self@.entities.take(i as int), rolls@, shoot, boost),
            decreases n - i,
        {
            let e = self.entities[i];
            assert(e@ == self@.entities[i as int]);
            let roll = if e.alive && e.kind == Kind::Alien {
                let shoots = draw(&mut rng, shoot);
                let boosted = draw(&mut rng, boost);
                FireRoll { shoot: shoots, boosted }
            } else {
                FireRoll { shoot: false, boosted: false }
            };
            rolls.push(roll);
            i = i + 1;
        }
        assert(self@.entities.take(n as int) =~= self@.entities);
        rolls
    }

    /// Lets each live alien fire with a chance of `shoot`, a boosted bullet
    /// with a chance of `boost`.
    pub fn spawn_enemy_bullets_with(&mut self, shoot: Odds, boost: Odds)
        requires
            old(self).wf(),
            old(self)@.within(PASS_LIMIT as int),
            old(self)@.next_id <= ID_LIMIT,
            shoot.wf(),
            boost.wf(),
        ensures
            final(self).wf(),
            exists|rolls: Seq<FireRoll>|
                possible(old(self)@.entities, rolls, shoot, boost) && final(self)@ == old(
                    self,
                )@.spawn_enemy_bullets(rolls),
    {
        let rolls = self.draw_rolls(shoot, boost);
        self.spawn_enemy_bullets_from(&rolls);
    }

    /// Lets each live alien fire with the chance of the game.
    pub fn spawn_enemy_bullets(&mut self)
        requires
            old(self).wf(),
            old(self)@.within(PASS_LIMIT as int),
            old(self)@.next_id <= ID_LIMIT,
        ensures
            final(self).wf(),
            exists|rolls: Seq<FireRoll>|
                possible(old(self)@.entities, rolls, one_in(SHOOT_IN), one_in(BOOST_IN))
                    && final(self)@ == old(self)@.spawn_enemy_bullets(rolls),
    {
        self.spawn_enemy_bullets_with(
            Odds { numerator: 1, denominator: SHOOT_IN },
            Odds { numerator: 1, denominator: BOOST_IN },
        );
    }

    /// Lets the aliens fire as the rolls say: the roll at an index is that of
    /// the entity at the same index.
    pub fn spawn_enemy_bullets_from(&mut self, rolls: &Vec<FireRoll>)
        requires
            old(self).wf(),
            old(self)@.within(PASS_LIMIT as int),
            old(self)@.next_id <= ID_LIMIT,
        ensures
            final(self).wf(),
            final(self)@ == old(self)@.spawn_enemy_bullets(rolls@),
    {
        let ghost before = self@;
        let n = self.entities.len();
        proof {
            lemma_len_below_next_id(before.entities, before.next_id);
        }
        let mut i: usize = 0;
        while i < n
            invariant
                i <= n,
                n == before.entities.len(),
                n <= before.next_id <= ID_LIMIT,
                before.wf(),
                before.within(PASS_LIMIT as int),
                self.wf(),
                self@ == (WorldModel {
                    entities: before.entities + volley(
                        before.entities,
                        rolls@,
                        before.next_id,
                        i as int,
                    ),
                    next_id: before.next_id + volley(
                        before.entities,
                        rolls@,
                        before.next_id,
                        i as int,
                    ).len(),
                    ..before
                }),
            decreases n - i,
        {
            proof {
                lemma_volley_len(before.entities, rolls@, before.next_id, i as int);
            }
            assert(self.entities@.len() == self@.entities.len());
            let e = self.entities[i];
            assert(e@ == self@.entities[i as int]);
            if e.alive && e.kind == Kind::Alien && i < rolls.len() && rolls[i].shoot {
                let velocity: i64 = if rolls[i].boosted {
                    ALIEN_BULLET_VELOCITY + BOOST
                } else {
                    ALIEN_BULLET_VELOCITY
                };
                self.spawn(Kind::AlienBullet, e.x, e.y - ALIEN_MUZZLE, velocity);
            }
            assert(self@.entities =~= before.entities + volley(
                before.entities,
                rolls@,
                before.next_id,
                i + 1,
            ));
            i = i + 1;
        }
    }

    /// Moves every live projectile of a kind along y, up where `up` is set
    /// and down where it is not.
    fn fly(&mut self, kind: Kind, dt: u32, up: bool)
        requires
            old(self).wf(),
            old(self)@.within(PASS_LIMIT as int),
            old(self)@.paced(kind),
        ensures
            final(self).wf(),
            final(self)@ == old(self)@.fly(kind, signed_rate(dt as int, up)),
    {
        let ghost before = self@;
        let ghost rate = signed_rate(dt as int, up);
        let ghost moved = before.entities.map_values(|e: EntityModel| flown(e, kind, rate));
        let n = self.entities.len();
        let mut i: usize = 0;
        while i < n
            invariant
                i <= n,
                n == before.entities.len(),
                before.wf(),
                before.within(PASS_LIMIT as int),
                before.paced(kind),
                rate == signed_rate(dt as int, up),
                moved == before.entities.map_values(|e: EntityModel| flown(e, kind, rate)),
                self@.pixel_ratio == old(self)@.pixel_ratio,
                self@.entities.len() == n,
                forall|j: int| 0 <= j < i ==> self@.entities[j] == moved[j],
                forall|j: int| i <= j < n ==> self@.entities[j] == before.entities[j],
                self@.direction == before.direction,
                self@.shift_aliens_down == before.shift_aliens_down,
                self@.dist_from_boundary == before.dist_from_boundary,
                self@.half_width == before.half_width,
                self@.half_height == before.half_height,
                self@.next_id == before.next_id,
            decreases n - i,
        {
            let e = self.entities[i];
            assert(e@ == before.entities[i as int]);
            if e.alive && e.kind == kind {
                let span: i64 = travelled(dt, BASE_RATE * e.velocity);
                assert(span == (dt * BASE_RATE) * e.velocity) by (nonlinear_arith)
                    requires
                        span == dt * (BASE_RATE * e.velocity),
                ;
                assert((-(dt * BASE_RATE)) * e.velocity == -span) by (nonlinear_arith)
                    requires
                        span == (dt * BASE_RATE) * e.velocity,
                ;
                let y: i64 = if up {
                    e.y + span
                } else {
                    e.y - span
                };
                self.entities[i] = Entity { y, ..e };
            }
            assert(self@.entities[i as int] == moved[i as int]);
            i = i + 1;
        }
        assert(self@.entities =~= moved);
    }

    /// Moves the live player bullets up.
    pub fn update_bullets(&mut self, dt: u32)
        requires
            old(self).wf(),
            old(self)@.within(PASS_LIMIT as int),
            old(self)@.paced(Kind::PlayerBullet),
        ensures
            final(self).wf(),
            final(self)@ == old(self)@.update_bullets(dt as int),
    {
        self.fly(Kind::PlayerBullet, dt, true);
    }

    /// Moves the live alien bullets down.
    pub fn update_enemy_bullets(&mut self, dt: u32)
        requires
            old(self).wf(),
            old(self)@.within(PASS_LIMIT as int),
            old(self)@.paced(Kind::AlienBullet),
        ensures
            final(self).wf(),
            final(self)@ == old(self)@.update_enemy_bullets(dt as int),
    {
        self.fly(Kind::AlienBullet, dt, false);
    }
}

} // verus!
