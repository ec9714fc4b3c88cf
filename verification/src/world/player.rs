//! The player: movement, firing and the bounds it is held to.
use super::World;
use crate::entity::Kind;
use crate::model::{ids_increase, lemma_first_live, WorldModel};
use crate::units::{
    travelled, BULLET_VELOCITY, PASS_LIMIT, PLAYER_MARGIN, PLAYER_MUZZLE, PLAYER_SPEED, SPRINT,
    TRAVEL_LIMIT,
};
use vstd::prelude::*;

verus! {

/// What the player asks for during one tick.
#[derive(Clone, Copy, Debug, PartialEq, Eq, Structural)]
pub struct PlayerIntent {
    pub up: bool,
    pub down: bool,
    pub left: bool,
    pub right: bool,
    /// The speed modifier is held.
    pub boost: bool,
    /// The fire control went down during this tick.
    pub fire: bool,
}

/// How far the player moves along an axis in one tick.
pub open spec fn player_step(dt: int, boost: bool) -> int {
    if boost {
        dt * (PLAYER_SPEED * SPRINT)
    } else {
        dt * PLAYER_SPEED
    }
}

/// A coordinate after a step forth, a step back, or both.
pub open spec fn stepped(v: int, step: int, forth: bool, back: bool) -> int {
    v + if forth {
        step
    } else {
        0
    } - if back {
        step
    } else {
        0
    }
}

/// The nearest x that keeps the margin to both side bounds, the left one
/// winning where the arena is narrower than two margins.
pub open spec fn clamped_x(x: int, half_width: int) -> int {
    let right = if x > half_width - PLAYER_MARGIN {
        half_width - PLAYER_MARGIN
    } else {
        x
    };
    if right < -half_width + PLAYER_MARGIN {
        -half_width + PLAYER_MARGIN
    } else {
        right
    }
}

/// The nearest y that keeps the margin to the top and the bottom bound, the
/// bottom one winning where the arena is lower than two margins.
pub open spec fn clamped_y(y: int, half_height: int) -> int {
    let top = if y > half_height - PLAYER_MARGIN {
        half_height - PLAYER_MARGIN
    } else {
        y
    };
    if top < -half_height + PLAYER_MARGIN {
        -half_height + PLAYER_MARGIN
    } else {
        top
    }
}

/// The y at which the player starts: nine tenths of the way down from the
/// centre to the bottom bound.
pub open spec fn player_start_y(half_height: int) -> int {
    -(half_height * 9 / 10)
}

impl WorldModel {
    /// The state with a player at its starting place, where it had none.
    pub open spec fn setup_player(self) -> WorldModel {
        if self.has_player() {
            self
        } else {
            self.spawn(Kind::Player, 0, player_start_y(self.half_height), 0)
        }
    }

    /// The player moved as asked and held to the four bounds, and its bullet, where
    /// it fired one, at the place the player reached before it was held back.
    pub open spec fn update_player(self, dt: int, intent: PlayerIntent) -> WorldModel
        recommends
            self.has_player(),
    {
        let p = self.player_index();
        let step = player_step(dt, intent.boost);
        let x = stepped(self.entities[p].x, step, intent.right, intent.left);
        let y = stepped(self.entities[p].y, step, intent.up, intent.down);
        let held = self.placed(p, clamped_x(x, self.half_width), clamped_y(y, self.half_height));
        if intent.fire {
            held.spawn(Kind::PlayerBullet, x, y + PLAYER_MUZZLE, BULLET_VELOCITY as int)
        } else {
            held
        }
    }
}

impl WorldModel {
    /// Held to the bounds: after its pass the player keeps the margin to the
    /// left and the bottom bound, and to the right and the top bound too
    /// where the arena has room for a margin on both sides; so it lies
    /// inside the arena, wherever it was and whatever it asked for.
    pub proof fn lemma_player_held(self, dt: int, intent: PlayerIntent)
        requires
            self.has_player(),
        ensures
            ({
                let after = self.update_player(dt, intent).entities[self.player_index()];
                &&& after.is_live(Kind::Player)
                &&& -self.half_width + PLAYER_MARGIN <= after.x
                &&& -self.half_height + PLAYER_MARGIN <= after.y
                &&& self.half_width >= PLAYER_MARGIN ==> after.x <= self.half_width
                    - PLAYER_MARGIN
                &&& self.half_height >= PLAYER_MARGIN ==> after.y <= self.half_height
                    - PLAYER_MARGIN
            }),
    {
        lemma_first_live(self.entities, Kind::Player, 0);
    }

    /// The player's pass keeps the state well formed, the player in place,
    /// and all within a limit that is the longest step and the margin wider.
    pub proof fn lemma_update_player(self, dt: int, intent: PlayerIntent, limit: int)
        requires
            self.wf(),
            self.within(limit),
            self.has_player(),
            0 <= limit,
            0 <= dt <= u32::MAX,
        ensures
            self.update_player(dt, intent).wf(),
            self.update_player(dt, intent).within(limit + TRAVEL_LIMIT + PLAYER_MARGIN),
            self.update_player(dt, intent).has_player(),
            self.update_player(dt, intent).next_id <= self.next_id + 1,
    {
        let after = self.update_player(dt, intent);
        let p = self.player_index();
        lemma_first_live(self.entities, Kind::Player, 0);
        let step = player_step(dt, intent.boost);
        assert(PLAYER_SPEED * SPRINT == 500 && PLAYER_SPEED == 100);
        assert(0 <= step <= 0x1_0000_0000 * 500) by (nonlinear_arith)
            requires
                step == dt * 500 || step == dt * 100,
                0 <= dt <= 0xffff_ffff,
        ;
        let wide = limit + TRAVEL_LIMIT + PLAYER_MARGIN;
        let held = self.placed(
            p,
            clamped_x(stepped(self.entities[p].x, step, intent.right, intent.left), self.half_width),
            clamped_y(stepped(self.entities[p].y, step, intent.up, intent.down), self.half_height),
        );
        assert(held.within(wide));
        assert(ids_increase(held.entities, held.next_id));
        self.lemma_player_kept(after);
    }
}

impl World {
    /// Whether there is a live player.
    pub fn has_player(&self) -> (found: bool)
        ensures
            found == self@.has_player(),
    {
        self.player_index() < self.entities.len()
    }

    /// Puts the player at its starting place, unless there is a live player
    /// already.
    pub fn setup_player(&mut self)
        requires
            old(self).wf(),
            !old(self)@.has_player() ==> old(self)@.next_id < u64::MAX,
        ensures
            final(self).wf(),
            final(self)@ == old(self)@.setup_player(),
    {
        if !self.has_player() {
            let depth: i128 = self.resolution.half_height as i128 * 9 / 10;
            self.spawn(Kind::Player, 0, -(depth as i64), 0);
        }
    }

    /// Moves the player by its intent, fires where asked, and holds the
    /// player inside the four bounds, a margin away from each.
    pub fn update_player(&mut self, dt: u32, intent: PlayerIntent)
        requires
            old(self).wf(),
            old(self)@.within(PASS_LIMIT as int),
            old(self)@.has_player(),
            intent.fire ==> old(self)@.next_id < u64::MAX,
        ensures
            final(self).wf(),
            final(self)@ == old(self)@.update_player(dt as int, intent),
    {
        let p = self.player_index();
        let e = self.entities[p];
        assert(e@ == self@.entities[p as int]);
        let step: i64 = if intent.boost {
            travelled(dt, PLAYER_SPEED * SPRINT)
        } else {
            travelled(dt, PLAYER_SPEED)
        };
        let mut x: i64 = e.x;
        if intent.right {
            x = x + step;
        }
        if intent.left {
            x = x - step;
        }
        let mut y: i64 = e.y;
        if intent.up {
            y = y + step;
        }
        if intent.down {
            y = y - step;
        }
        let half_width = self.resolution.half_width;
        let half_height = self.resolution.half_height;
        let mut held_x: i64 = x;
        if held_x > half_width - PLAYER_MARGIN {
            held_x = half_width - PLAYER_MARGIN;
        }
        if held_x < -half_width + PLAYER_MARGIN {
            held_x = -half_width + PLAYER_MARGIN;
        }
        let mut held_y: i64 = y;
        if held_y > half_height - PLAYER_MARGIN {
            held_y = half_height - PLAYER_MARGIN;
        }
        if held_y < -half_height + PLAYER_MARGIN {
            held_y = -half_height + PLAYER_MARGIN;
        }
        self.place(p, held_x, held_y);
        if intent.fire {
            self.spawn(Kind::PlayerBullet, x, y + PLAYER_MUZZLE, BULLET_VELOCITY);
        }
    }
}

} // verus!
