//! What holds of every tick, and of every session made of ticks.
use super::alien::{aliens_within, crosses, last_crossing};
use super::bullet::{lemma_volley_shape, volley, FireRoll};
use super::collision::{lemma_resolved_keeps, outcome};
use super::lifecycle::{lemma_filter_from, lemma_filter_order, stays};
use super::player::PlayerIntent;
use crate::entity::{EntityModel, Kind};
use crate::model::{
    descends, lemma_descends_on, lemma_first_live, lemma_has_live, lemma_live_count_append,
    lemma_live_count_fewer, lemma_live_count_filter, lemma_live_count_none, lemma_live_count_same,
    rests, settles, WorldModel,
};
use crate::units::SPEED;
use vstd::prelude::*;

verus! {

/// What one tick of a session is run with.
pub struct TickInput {
    pub dt: int,
    pub intent: PlayerIntent,
    pub rolls: Seq<FireRoll>,
}

impl WorldModel {
    /// The formation controller moves no alien up, and adds none.
    pub proof fn lemma_marched_settles(self, dt: int)
        ensures
            settles(self.entities, self.marched(dt).entities),
    {
        let s1 = self.update_aliens(dt);
        assert(settles(self.entities, s1.entities));
        assert(settles(s1.entities, s1.manage_alien_logic().entities));
    }

    /// The player and the projectiles leave the aliens as they are, and add
    /// none.
    pub proof fn lemma_fired_rests(self, dt: int, intent: PlayerIntent, rolls: Seq<FireRoll>)
        requires
            self.has_player(),
        ensures
            rests(self.entities, self.fired(dt, intent, rolls).entities),
    {
        let s3 = self.update_player(dt, intent);
        let s4 = s3.spawn_enemy_bullets(rolls);
        let s5 = s4.update_bullets(dt);
        let s6 = s5.update_enemy_bullets(dt);
        lemma_first_live(self.entities, Kind::Player, 0);
        assert(rests(self.entities, s3.entities));
        lemma_volley_shape(s3.entities, rolls, s3.next_id, s3.entities.len() as int);
        assert(rests(s3.entities, s4.entities));
        assert(rests(self.entities, s4.entities));
        assert(rests(s4.entities, s5.entities));
        assert(rests(self.entities, s5.entities));
        assert(rests(s5.entities, s6.entities));
    }

    /// The collision resolver moves nothing, adds nothing, and brings
    /// nothing back to life.
    pub proof fn lemma_fought_rests(self)
        ensures
            rests(self.entities, self.fought().entities),
    {
        let f1 = self.update_alien_interations();
        let f2 = f1.update_bullet_interaction();
        let f3 = f2.update_ammo_interactions();
        let n = self.entities.len() as int;
        lemma_resolved_keeps(self.entities, Kind::Alien, Kind::PlayerBullet, true, n);
        lemma_resolved_keeps(f1.entities, Kind::Player, Kind::AlienBullet, false, n);
        lemma_resolved_keeps(f2.entities, Kind::PlayerBullet, Kind::AlienBullet, true, n);
        assert forall|j: int| 0 <= j < n implies {
            &&& (#[trigger] f3.entities[j]).id == self.entities[j].id
            &&& f3.entities[j].kind == self.entities[j].kind
            &&& f3.entities[j].x == self.entities[j].x
            &&& f3.entities[j].y == self.entities[j].y
            &&& f3.entities[j].alive ==> self.entities[j].alive
        } by {
            assert(outcome(
                self.entities[j],
                f1.entities[j],
                Kind::Alien,
                Kind::PlayerBullet,
                true,
            ));
            assert(outcome(f1.entities[j], f2.entities[j], Kind::Player, Kind::AlienBullet, false));
            assert(outcome(
                f2.entities[j],
                f3.entities[j],
                Kind::PlayerBullet,
                Kind::AlienBullet,
                true,
            ));
        }
    }

    /// Descent: every alien that a tick leaves in the store was an alien of
    /// the store before the tick, under the same identifier, and is no
    /// higher than it was.
    pub proof fn lemma_tick_descends(self, dt: int, intent: PlayerIntent, rolls: Seq<FireRoll>)
        requires
            self.has_player(),
        ensures
            descends(self.entities, self.tick(dt, intent, rolls).entities),
    {
        let marched = self.marched(dt);
        let armed = self.armed(dt, intent, rolls);
        let fought = armed.fought();
        let after = fought.sweep();
        self.lemma_marched_settles(dt);
        self.lemma_update_aliens_keeps_player(dt);
        marched.lemma_fired_rests(dt, intent, rolls);
        armed.lemma_fought_rests();
        lemma_filter_from(fought.entities, |e: EntityModel| stays(e, fought.half_height));
        assert forall|j: int|
            0 <= j < after.entities.len() && (#[trigger] after.entities[j]).kind
                == Kind::Alien implies exists|i: int|
            0 <= i < self.entities.len() && (#[trigger] self.entities[i]).id
                == after.entities[j].id && self.entities[i].kind == Kind::Alien
                && after.entities[j].y <= self.entities[i].y by {
            let i = choose|i: int|
                0 <= i < fought.entities.len() && fought.entities[i] == after.entities[j];
            if i < armed.entities.len() {
                assert(armed.entities[i].kind == fought.entities[i].kind);
            }
            if i < marched.entities.len() {
                assert(marched.entities[i].kind == armed.entities[i].kind);
            }
            assert(i < self.entities.len());
            assert(self.entities[i].id == after.entities[j].id);
        }
    }

    /// The state after the ticks of a session, one for each input.
    pub open spec fn session(self, inputs: Seq<TickInput>) -> WorldModel
        decreases inputs.len(),
    {
        if inputs.len() == 0 {
            self
        } else {
            self.session(inputs.drop_last()).tick(
                inputs.last().dt,
                inputs.last().intent,
                inputs.last().rolls,
            )
        }
    }

    /// Whether the player lives at the start of every tick of a session.
    pub open spec fn lasts(self, inputs: Seq<TickInput>) -> bool {
        forall|k: int|
            0 <= k < inputs.len() ==> (#[trigger] self.session(inputs.take(k))).has_player()
    }

    /// Descent across a session: every alien in the store after any number
    /// of ticks was an alien of the store at the start, under the same
    /// identifier, and is no higher than it was.
    pub proof fn lemma_session_descends(self, inputs: Seq<TickInput>)
        requires
            self.lasts(inputs),
        ensures
            descends(self.entities, self.session(inputs).entities),
        decreases inputs.len(),
    {
        if inputs.len() > 0 {
            let front = inputs.drop_last();
            let last = inputs.last();
            assert forall|k: int| 0 <= k < front.len() implies (#[trigger] self.session(
                front.take(k),
            )).has_player() by {
                assert(front.take(k) =~= inputs.take(k));
            }
            assert(front =~= inputs.take(inputs.len() - 1));
            self.lemma_session_descends(front);
            self.session(front).lemma_tick_descends(last.dt, last.intent, last.rolls);
            lemma_descends_on(
                self.entities,
                self.session(front).entities,
                self.session(inputs).entities,
            );
        }
    }

    /// The bounds hold after every tick that starts with the flag down: where
    /// no alien crossed a side bound in the advancing pass, or the alien that
    /// the correction was taken from led the formation, every live alien
    /// that the tick leaves lies between the side bounds.
    pub proof fn lemma_tick_bounds(self, dt: int, intent: PlayerIntent, rolls: Seq<FireRoll>)
        requires
            self.direction == 1 || self.direction == -1,
            0 <= self.half_width,
            self.has_player(),
            !self.shift_aliens_down,
            ({
                let advanced = self.update_aliens(dt);
                let k = last_crossing(
                    advanced.entities,
                    self.half_width,
                    advanced.entities.len() as int,
                );
                k < 0 || advanced.led_by(k)
            }),
        ensures
            aliens_within(self.tick(dt, intent, rolls).entities, self.half_width),
    {
        let marched = self.marched(dt);
        let armed = self.armed(dt, intent, rolls);
        let fought = armed.fought();
        let after = fought.sweep();
        self.lemma_formation_bounds(dt);
        self.lemma_update_aliens_keeps_player(dt);
        marched.lemma_fired_rests(dt, intent, rolls);
        armed.lemma_fought_rests();
        lemma_filter_from(fought.entities, |e: EntityModel| stays(e, fought.half_height));
        assert forall|j: int| 0 <= j < after.entities.len() implies !crosses(
            #[trigger] after.entities[j],
            self.half_width,
        ) by {
            let i = choose|i: int|
                0 <= i < fought.entities.len() && fought.entities[i] == after.entities[j];
            if after.entities[j].is_live(Kind::Alien) {
                if i < armed.entities.len() {
                    assert(armed.entities[i].kind == fought.entities[i].kind);
                }
                if i < marched.entities.len() {
                    assert(marched.entities[i].kind == armed.entities[i].kind);
                    assert(!crosses(marched.entities[i], self.half_width));
                }
            }
        }
    }

    /// A tick keeps the ranks and the bounds: a formation in ranks that lies
    /// between the side bounds, and moves by no more than the gap of its
    /// ranks, is in ranks and between the side bounds after the tick.
    pub proof fn lemma_tick_ranks(
        self,
        dt: int,
        intent: PlayerIntent,
        rolls: Seq<FireRoll>,
        gap: int,
    )
        requires
            self.formed(gap),
            self.has_player(),
            0 <= dt,
            dt * SPEED <= gap,
        ensures
            self.tick(dt, intent, rolls).formed(gap),
            self.tick(dt, intent, rolls).half_width == self.half_width,
    {
        let marched = self.marched(dt);
        let armed = self.armed(dt, intent, rolls);
        let fought = armed.fought();
        let after = fought.sweep();
        let keep = |e: EntityModel| stays(e, fought.half_height);
        self.lemma_ranks_march(dt, gap);
        self.lemma_update_aliens_keeps_player(dt);
        marched.lemma_fired_rests(dt, intent, rolls);
        armed.lemma_fought_rests();
        lemma_filter_from(fought.entities, keep);
        lemma_filter_order(fought.entities, keep);
        self.lemma_tick_clean(dt, intent, rolls);
        assert forall|j: int| 0 <= j < fought.entities.len() && (#[trigger] fought.entities[j]).is_live(
            Kind::Alien,
        ) implies j < marched.entities.len() && marched.entities[j].is_live(Kind::Alien)
            && marched.entities[j].x == fought.entities[j].x by {
            if j < armed.entities.len() {
                assert(armed.entities[j].kind == fought.entities[j].kind);
            }
            if j < marched.entities.len() {
                assert(marched.entities[j].kind == armed.entities[j].kind);
            }
        }
        assert forall|j: int| 0 <= j < after.entities.len() implies !crosses(
            #[trigger] after.entities[j],
            self.half_width,
        ) by {
            let i = choose|i: int|
                0 <= i < fought.entities.len() && fought.entities[i] == after.entities[j];
            if fought.entities[i].is_live(Kind::Alien) {
                assert(!crosses(marched.entities[i], self.half_width));
            }
        }
        assert forall|a: int, b: int|
            0 <= a < b < after.entities.len() && (#[trigger] after.entities[a]).is_live(Kind::Alien)
                && (#[trigger] after.entities[b]).is_live(
                Kind::Alien,
            ) implies after.entities[a].x == after.entities[b].x || after.entities[a].x + gap
            <= after.entities[b].x by {
            let (i, j) = choose|i: int, j: int|
                0 <= i < j < fought.entities.len() && fought.entities[i] == after.entities[a]
                    && fought.entities[j] == after.entities[b];
            assert(fought.entities[i].is_live(Kind::Alien));
            assert(fought.entities[j].is_live(Kind::Alien));
            assert(marched.entities[i].is_live(Kind::Alien));
            assert(marched.entities[j].is_live(Kind::Alien));
        }
    }

    /// The bounds hold throughout a session: a formation in ranks that lies
    /// between the side bounds at the start, and moves in no tick by more
    /// than the gap of its ranks, is in ranks and between the side bounds
    /// after every tick.
    pub proof fn lemma_session_ranks(self, inputs: Seq<TickInput>, gap: int)
        requires
            self.formed(gap),
            self.lasts(inputs),
            forall|k: int|
                0 <= k < inputs.len() ==> 0 <= (#[trigger] inputs[k]).dt && inputs[k].dt * SPEED
                    <= gap,
        ensures
            self.session(inputs).formed(gap),
            self.session(inputs).half_width == self.half_width,
        decreases inputs.len(),
    {
        if inputs.len() > 0 {
            let front = inputs.drop_last();
            let last = inputs.last();
            assert forall|k: int| 0 <= k < front.len() implies (#[trigger] self.session(
                front.take(k),
            )).has_player() by {
                assert(front.take(k) =~= inputs.take(k));
            }
            assert(front =~= inputs.take(inputs.len() - 1));
            assert forall|k: int| 0 <= k < front.len() implies 0 <= (#[trigger] front[k]).dt
                && front[k].dt * SPEED <= gap by {
                assert(front[k] == inputs[k]);
            }
            self.lemma_session_ranks(front, gap);
            self.session(front).lemma_tick_ranks(last.dt, last.intent, last.rolls, gap);
        }
    }

    /// Up to the collisions a tick keeps the number of live aliens.
    pub proof fn lemma_armed_aliens(self, dt: int, intent: PlayerIntent, rolls: Seq<FireRoll>)
        requires
            self.has_player(),
        ensures
            self.armed(dt, intent, rolls).live(Kind::Alien) == self.live(Kind::Alien),
    {
        let kind = Kind::Alien;
        let s1 = self.update_aliens(dt);
        let s2 = s1.manage_alien_logic();
        let s3 = s2.update_player(dt, intent);
        let s4 = s3.spawn_enemy_bullets(rolls);
        let s5 = s4.update_bullets(dt);
        let s6 = s5.update_enemy_bullets(dt);
        let n = self.entities.len() as int;
        lemma_live_count_same(self.entities, s1.entities, kind, n);
        lemma_live_count_same(s1.entities, s2.entities, kind, n);
        self.lemma_update_aliens_keeps_player(dt);
        lemma_first_live(s2.entities, Kind::Player, 0);
        let p = s2.player_index();
        let held = s2.entities.update(p, s3.entities[p]);
        lemma_live_count_same(s2.entities, held, kind, n);
        if intent.fire {
            let shot = seq![s3.entities[n]];
            assert(s3.entities =~= held + shot);
            lemma_live_count_append(held, shot, kind, 1);
            lemma_live_count_none(shot, kind, 1);
        } else {
            assert(s3.entities =~= held);
        }
        let bullets = volley(s3.entities, rolls, s3.next_id, s3.entities.len() as int);
        lemma_volley_shape(s3.entities, rolls, s3.next_id, s3.entities.len() as int);
        lemma_live_count_append(s3.entities, bullets, kind, bullets.len() as int);
        lemma_live_count_none(bullets, kind, bullets.len() as int);
        lemma_live_count_same(s4.entities, s5.entities, kind, s4.entities.len() as int);
        lemma_live_count_same(s5.entities, s6.entities, kind, s5.entities.len() as int);
    }

    /// The formation controller leaves the player where it is in the store.
    pub proof fn lemma_update_aliens_keeps_player(self, dt: int)
        requires
            self.has_player(),
        ensures
            self.update_aliens(dt).has_player(),
            self.marched(dt).has_player(),
    {
        let s1 = self.update_aliens(dt);
        self.lemma_player_kept(s1);
        s1.lemma_player_kept(s1.manage_alien_logic());
    }

    /// The resolver kills aliens in its first pass only, and players in its
    /// second pass only, and the sweeper removes no live alien and no live
    /// player.
    pub proof fn lemma_fought_counts(self)
        ensures
            0 <= self.update_alien_interations().live(Kind::Alien) <= self.live(Kind::Alien),
            self.fought().sweep().live(Kind::Alien) == self.update_alien_interations().live(
                Kind::Alien,
            ),
            self.fought().sweep().has_player()
                == self.update_alien_interations().update_bullet_interaction().has_player(),
    {
        let n = self.entities.len() as int;
        let f1 = self.update_alien_interations();
        let f2 = f1.update_bullet_interaction();
        let f3 = f2.update_ammo_interactions();
        let f4 = f3.sweep();
        let keep = |e: EntityModel| stays(e, f3.half_height);
        lemma_resolved_keeps(self.entities, Kind::Alien, Kind::PlayerBullet, true, n);
        lemma_resolved_keeps(f1.entities, Kind::Player, Kind::AlienBullet, false, n);
        lemma_resolved_keeps(f2.entities, Kind::PlayerBullet, Kind::AlienBullet, true, n);
        assert forall|i: int|
            0 <= i < n && (#[trigger] f1.entities[i]).is_live(
                Kind::Alien,
            ) implies self.entities[i].is_live(Kind::Alien) by {
            assert(outcome(
                self.entities[i],
                f1.entities[i],
                Kind::Alien,
                Kind::PlayerBullet,
                true,
            ));
        }
        lemma_live_count_fewer(self.entities, f1.entities, Kind::Alien, n);
        assert forall|i: int| 0 <= i < n implies (#[trigger] f2.entities[i]).is_live(Kind::Alien)
            == f1.entities[i].is_live(Kind::Alien) by {
            assert(outcome(f1.entities[i], f2.entities[i], Kind::Player, Kind::AlienBullet, false));
        }
        lemma_live_count_same(f1.entities, f2.entities, Kind::Alien, n);
        assert forall|i: int| 0 <= i < n implies (#[trigger] f3.entities[i]).is_live(Kind::Alien)
            == f2.entities[i].is_live(Kind::Alien) && f3.entities[i].is_live(Kind::Player)
            == f2.entities[i].is_live(Kind::Player) by {
            assert(outcome(
                f2.entities[i],
                f3.entities[i],
                Kind::PlayerBullet,
                Kind::AlienBullet,
                true,
            ));
        }
        lemma_live_count_same(f2.entities, f3.entities, Kind::Alien, n);
        lemma_live_count_same(f2.entities, f3.entities, Kind::Player, n);
        lemma_live_count_filter(f3.entities, keep, Kind::Alien);
        lemma_live_count_filter(f3.entities, keep, Kind::Player);
        lemma_has_live(f2.entities, Kind::Player);
        lemma_has_live(f4.entities, Kind::Player);
    }

    /// What a tick reports is what it did: it destroyed as many aliens as the
    /// store has fewer live ones after it, and the player exactly where the
    /// store has no live player after it.
    pub proof fn lemma_tick_events(self, dt: int, intent: PlayerIntent, rolls: Seq<FireRoll>)
        requires
            self.has_player(),
        ensures
            ({
                let armed = self.armed(dt, intent, rolls);
                let hit = armed.update_alien_interations();
                &&& armed.live(Kind::Alien) == self.live(Kind::Alien)
                &&& hit.live(Kind::Alien) == self.tick(dt, intent, rolls).live(Kind::Alien)
                &&& 0 <= hit.live(Kind::Alien) <= armed.live(Kind::Alien)
                &&& hit.update_bullet_interaction().has_player() == self.tick(
                    dt,
                    intent,
                    rolls,
                ).has_player()
            }),
    {
        self.lemma_armed_aliens(dt, intent, rolls);
        self.armed(dt, intent, rolls).lemma_fought_counts();
    }

    /// What a tick leaves: nothing dead, no projectile beyond its exit, and
    /// the flag of the formation controller down.
    pub proof fn lemma_tick_clean(self, dt: int, intent: PlayerIntent, rolls: Seq<FireRoll>)
        ensures
            self.tick(dt, intent, rolls).clean(),
    {
        let fought = self.armed(dt, intent, rolls).fought();
        lemma_filter_from(fought.entities, |e: EntityModel| stays(e, fought.half_height));
    }
}

} // verus!
