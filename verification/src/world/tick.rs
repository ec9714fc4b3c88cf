//! One tick: the passes in their fixed order.
use super::bullet::{possible, FireRoll, BOOST_IN, SHOOT_IN};
use super::lifecycle::stays;
use super::player::PlayerIntent;
use super::World;
use crate::entity::Kind;
use super::bullet::lemma_volley_shape;
use crate::model::{lemma_first_live, lemma_paced_kept, WorldModel};
use crate::rng::{one_in, Odds};
use crate::units::{
    abs, ALIEN_MUZZLE, ALIEN_SHIFT_AMOUNT, PASS_LIMIT, PLAYER_MARGIN, TICK_LIMIT, TRAVEL_LIMIT,
    VELOCITY_LIMIT,
};
use vstd::prelude::*;

verus! {

/// Largest identifier counter from which a tick can start.
pub const TICK_ID_LIMIT: u64 = 0x2000_0000_0000_0000;

/// What a tick reports to the layers that keep score and end the session.
#[derive(Clone, Copy, Debug, PartialEq, Eq, Structural)]
pub struct TickEvents {
    /// How many aliens were destroyed.
    pub aliens_destroyed: usize,
    /// Whether the player was destroyed.
    pub player_destroyed: bool,
}

impl WorldModel {
    /// Whether a tick can start from the state: there is a live player, and
    /// the coordinates and the identifier counter leave room for a tick.
    pub open spec fn ready(self) -> bool {
        &&& self.within(TICK_LIMIT as int)
        &&& self.paced(Kind::PlayerBullet)
        &&& self.paced(Kind::AlienBullet)
        &&& self.has_player()
        &&& self.next_id <= TICK_ID_LIMIT
    }

    /// Whether the state is one that a tick leaves: nothing in it is dead,
    /// no projectile is beyond its exit, and the flag of the formation
    /// controller is down.
    pub open spec fn clean(self) -> bool {
        &&& !self.shift_aliens_down
        &&& forall|i: int|
            0 <= i < self.entities.len() ==> stays(#[trigger] self.entities[i], self.half_height)
    }

    /// The state after the player and the projectiles had their turn: the
    /// player moved and fired, the aliens fired, and the projectiles of both
    /// sides flew.
    pub open spec fn fired(self, dt: int, intent: PlayerIntent, rolls: Seq<FireRoll>) -> WorldModel {
        self.update_player(dt, intent).spawn_enemy_bullets(rolls).update_bullets(
            dt,
        ).update_enemy_bullets(dt)
    }

    /// The state before the collisions: after the formation controller, the
    /// player and the projectiles.
    pub open spec fn armed(self, dt: int, intent: PlayerIntent, rolls: Seq<FireRoll>) -> WorldModel {
        self.marched(dt).fired(dt, intent, rolls)
    }

    /// The state after the three passes of the collision resolver.
    pub open spec fn fought(self) -> WorldModel {
        self.update_alien_interations().update_bullet_interaction().update_ammo_interactions()
    }

    /// The state after one tick.
    pub open spec fn tick(self, dt: int, intent: PlayerIntent, rolls: Seq<FireRoll>) -> WorldModel {
        self.armed(dt, intent, rolls).fought().sweep()
    }

    /// Up to the flights a tick keeps the pace: the passes before them leave
    /// the velocities of the projectiles as they are, and the bullets that
    /// they add have velocities that a flight can take.
    pub proof fn lemma_pace_kept(
        self,
        dt: int,
        intent: PlayerIntent,
        rolls: Seq<FireRoll>,
        kind: Kind,
    )
        requires
            self.has_player(),
            self.paced(kind),
        ensures
            self.marched(dt).update_player(dt, intent).spawn_enemy_bullets(rolls).paced(kind),
            self.marched(dt).update_player(dt, intent).spawn_enemy_bullets(rolls).update_bullets(
                dt,
            ).paced(kind),
    {
        let s1 = self.update_aliens(dt);
        let s2 = s1.manage_alien_logic();
        let s3 = s2.update_player(dt, intent);
        let s4 = s3.spawn_enemy_bullets(rolls);
        let s5 = s4.update_bullets(dt);
        lemma_paced_kept(self.entities, s1.entities, kind);
        lemma_paced_kept(s1.entities, s2.entities, kind);
        self.lemma_player_kept(s1);
        s1.lemma_player_kept(s2);
        lemma_first_live(s2.entities, Kind::Player, 0);
        lemma_paced_kept(s2.entities, s3.entities, kind);
        lemma_volley_shape(s3.entities, rolls, s3.next_id, s3.entities.len() as int);
        lemma_paced_kept(s3.entities, s4.entities, kind);
        lemma_paced_kept(s4.entities, s5.entities, kind);
    }

    /// A tick that starts from a ready state has room: up to the collisions
    /// every pass finds the state well formed, within the limit of a pass,
    /// and with its player.
    pub proof fn lemma_tick_fits(self, dt: int, intent: PlayerIntent, rolls: Seq<FireRoll>)
        requires
            self.wf(),
            self.ready(),
            0 <= dt <= u32::MAX,
        ensures
            self.update_aliens(dt).wf(),
            self.update_aliens(dt).within(PASS_LIMIT as int),
            self.marched(dt).wf(),
            self.marched(dt).within(PASS_LIMIT as int),
            self.marched(dt).has_player(),
            self.marched(dt).next_id == self.next_id,
            self.marched(dt).update_player(dt, intent).wf(),
            self.marched(dt).update_player(dt, intent).within(PASS_LIMIT as int),
            self.marched(dt).update_player(dt, intent).next_id <= self.next_id + 1,
            self.marched(dt).update_player(dt, intent).spawn_enemy_bullets(rolls).wf(),
            self.marched(dt).update_player(dt, intent).spawn_enemy_bullets(rolls).within(
                PASS_LIMIT as int,
            ),
            self.marched(dt).update_player(dt, intent).spawn_enemy_bullets(rolls).paced(
                Kind::PlayerBullet,
            ),
            self.marched(dt).update_player(dt, intent).spawn_enemy_bullets(rolls).update_bullets(
                dt,
            ).wf(),
            self.marched(dt).update_player(dt, intent).spawn_enemy_bullets(rolls).update_bullets(
                dt,
            ).paced(Kind::AlienBullet),
            self.marched(dt).update_player(dt, intent).spawn_enemy_bullets(rolls).update_bullets(
                dt,
            ).within(PASS_LIMIT as int),
            self.armed(dt, intent, rolls).wf(),
            self.armed(dt, intent, rolls).within(PASS_LIMIT as int),
            self.armed(dt, intent, rolls).has_player(),
    {
        self.lemma_pace_kept(dt, intent, rolls, Kind::PlayerBullet);
        self.lemma_pace_kept(dt, intent, rolls, Kind::AlienBullet);
        let c0 = TICK_LIMIT as int;
        let s1 = self.update_aliens(dt);
        self.lemma_update_aliens(dt, c0);
        let c1 = c0 + TRAVEL_LIMIT;
        let s2 = s1.manage_alien_logic();
        s1.lemma_manage_alien_logic(c1);
        let c2 = 4 * c1 + ALIEN_SHIFT_AMOUNT;
        let s3 = s2.update_player(dt, intent);
        s2.lemma_update_player(dt, intent, c2);
        let c3 = c2 + TRAVEL_LIMIT + PLAYER_MARGIN;
        let s4 = s3.spawn_enemy_bullets(rolls);
        s3.lemma_spawn_enemy_bullets(rolls, c3);
        let c4 = c3 + ALIEN_MUZZLE;
        s3.lemma_player_kept(s4);
        let s5 = s4.update_bullets(dt);
        s4.lemma_fly(Kind::PlayerBullet, dt, true, c4);
        let c5 = c4 + TRAVEL_LIMIT;
        s4.lemma_player_kept(s5);
        let s6 = s5.update_enemy_bullets(dt);
        s5.lemma_fly(Kind::AlienBullet, dt, false, c5);
        let c6 = c5 + TRAVEL_LIMIT;
        s5.lemma_player_kept(s6);
        assert(c6 <= PASS_LIMIT);
        s1.lemma_widen(c1, PASS_LIMIT as int);
        s2.lemma_widen(c2, PASS_LIMIT as int);
        s3.lemma_widen(c3, PASS_LIMIT as int);
        s4.lemma_widen(c4, PASS_LIMIT as int);
        s5.lemma_widen(c5, PASS_LIMIT as int);
        s6.lemma_widen(c6, PASS_LIMIT as int);
    }
}

impl World {
    /// Whether no coordinate lies farther than `limit` from the origin.
    pub fn within(&self, limit: i64) -> (ok: bool)
        ensures
            ok == self@.within(limit as int),
    {
        if self.resolution.half_width > limit || self.resolution.half_height > limit {
            return false;
        }
        let reach = self.alien_manager.dist_from_boundary as i128;
        if reach > 3 * (limit as i128) || -reach > 3 * (limit as i128) {
            return false;
        }
        let n = self.entities.len();
        let mut i: usize = 0;
        while i < n
            invariant
                i <= n,
                n == self@.entities.len(),
                forall|j: int|
                    0 <= j < i ==> {
                        &&& abs((#[trigger] self@.entities[j]).x) <= limit
                        &&& abs(self@.entities[j].y) <= limit
                    },
            decreases n - i,
        {
            let e = self.entities[i];
            assert(e@ == self@.entities[i as int]);
            let far = e.x > limit || -(e.x as i128) > limit as i128 || e.y > limit || -(e.y as i128)
                > limit as i128;
            if far {
                return false;
            }
            i = i + 1;
        }
        true
    }

    /// Whether every live entity of a kind has a velocity that a flight can
    /// take.
    pub fn paced(&self, kind: Kind) -> (ok: bool)
        ensures
            ok == self@.paced(kind),
    {
        let n = self.entities.len();
        let mut i: usize = 0;
        while i < n
            invariant
                i <= n,
                n == self@.entities.len(),
                forall|j: int|
                    0 <= j < i && (#[trigger] self@.entities[j]).is_live(kind) ==> 0
                        <= self@.entities[j].velocity <= VELOCITY_LIMIT,
            decreases n - i,
        {
            let e = self.entities[i];
            assert(e@ == self@.entities[i as int]);
            if e.alive && e.kind == kind && (e.velocity < 0 || e.velocity > VELOCITY_LIMIT) {
                return false;
            }
            i = i + 1;
        }
        true
    }

    /// Whether a tick can start from the state.
    pub fn ready(&self) -> (ok: bool)
        ensures
            ok == self@.ready(),
    {
        self.has_player() && self.next_id <= TICK_ID_LIMIT && self.within(TICK_LIMIT)
            && self.paced(Kind::PlayerBullet) && self.paced(Kind::AlienBullet)
    }

    /// Runs one tick with the given rolls: the formation controller, the
    /// player, the volley of the aliens, the flight of the projectiles, the
    /// collision resolver and the sweeper, in this order.
    pub fn tick_with(&mut self, dt: u32, intent: PlayerIntent, rolls: &Vec<FireRoll>) -> (events:
        TickEvents)
        requires
            old(self).wf(),
            old(self)@.ready(),
        ensures
            final(self).wf(),
            final(self)@ == old(self)@.tick(dt as int, intent, rolls@),
            events.aliens_destroyed == old(self)@.live(Kind::Alien) - final(self)@.live(
                Kind::Alien,
            ),
            events.player_destroyed == !final(self)@.has_player(),
            final(self)@.clean(),
    {
        proof {
            old(self)@.lemma_tick_fits(dt as int, intent, rolls@);
            old(self)@.lemma_tick_events(dt as int, intent, rolls@);
            old(self)@.lemma_tick_clean(dt as int, intent, rolls@);
        }
        self.update_aliens(dt);
        self.manage_alien_logic();
        self.update_player(dt, intent);
        self.spawn_enemy_bullets_from(rolls);
        self.update_bullets(dt);
        self.update_enemy_bullets(dt);
        let aliens_destroyed = self.update_alien_interations();
        proof {
            old(self)@.armed(dt as int, intent, rolls@).lemma_resolve(
                Kind::Alien,
                Kind::PlayerBullet,
                true,
                PASS_LIMIT as int,
            );
            old(self)@.armed(dt as int, intent, rolls@).lemma_player_kept(self@);
        }
        let player_destroyed = self.update_bullet_interaction();
        self.update_ammo_interactions();
        self.sweep();
        TickEvents { aliens_destroyed, player_destroyed }
    }

    /// Runs one tick, drawing the rolls of the aliens with the chances of
    /// the game.
    pub fn tick(&mut self, dt: u32, intent: PlayerIntent) -> (events: TickEvents)
        requires
            old(self).wf(),
            old(self)@.ready(),
        ensures
            final(self).wf(),
            exists|rolls: Seq<FireRoll>|
                possible(old(self)@.entities, rolls, one_in(SHOOT_IN), one_in(BOOST_IN))
                    && final(self)@ == old(self)@.tick(dt as int, intent, rolls),
            events.aliens_destroyed == old(self)@.live(Kind::Alien) - final(self)@.live(
                Kind::Alien,
            ),
            events.player_destroyed == !final(self)@.has_player(),
            final(self)@.clean(),
    {
        let rolls = self.draw_rolls(
            Odds { numerator: 1, denominator: SHOOT_IN },
            Odds { numerator: 1, denominator: BOOST_IN },
        );
        self.tick_with(dt, intent, &rolls)
    }

    /// Runs one tick where a tick can start from the state, and leaves the
    /// state as it is where none can.
    pub fn try_tick(&mut self, dt: u32, intent: PlayerIntent) -> (events: Option<TickEvents>)
        requires
            old(self).wf(),
        ensures
            final(self).wf(),
            events is Some <==> old(self)@.ready(),
            events is None ==> final(self)@ == old(self)@,
            events matches Some(told) ==> {
                &&& exists|rolls: Seq<FireRoll>|
                    possible(old(self)@.entities, rolls, one_in(SHOOT_IN), one_in(BOOST_IN))
                        && final(self)@ == old(self)@.tick(dt as int, intent, rolls)
                &&& told.aliens_destroyed == old(self)@.live(Kind::Alien) - final(self)@.live(
                    Kind::Alien,
                )
                &&& told.player_destroyed == !final(self)@.has_player()
                &&& final(self)@.clean()
            },
    {
        if self.ready() {
            Some(self.tick(dt, intent))
        } else {
            None
        }
    }
}

} // verus!
