//! The formation: its starting grid, its sweep across the arena and its
//! descent at the side bounds.
use super::World;
use crate::entity::{Entity, EntityModel, Kind};
use crate::model::WorldModel;
use crate::units::{
    abs, lemma_signed, travelled, ALIEN_SHIFT_AMOUNT, HEIGHT, ID_LIMIT, PASS_LIMIT, SPACING, SPEED,
    TRAVEL_LIMIT, WIDTH,
};
use vstd::prelude::*;

verus! {

/// Where the formation is heading and whether it is about to reverse.
#[derive(Clone, Copy, Debug, PartialEq, Eq, Structural)]
pub struct AlienManager {
    /// `1` while the formation sweeps to the right, `-1` to the left.
    pub direction: i64,
    /// Raised by the advancing pass, consumed by the shifting pass.
    pub shift_aliens_down: bool,
    /// The correction that the next shifting pass adds to every alien's x.
    pub dist_from_boundary: i64,
}

/// The x of a column of the starting grid.
pub open spec fn grid_x(column: int) -> int {
    column * SPACING - WIDTH * SPACING / 2
}

/// The y of a row of the starting grid, which hangs from the top bound.
pub open spec fn grid_y(row: int, half_height: int) -> int {
    row * SPACING - HEIGHT * SPACING + half_height
}

/// The alien at a place of the starting grid, counted column by column.
pub open spec fn grid_alien(k: int, first_id: int, half_height: int) -> EntityModel {
    EntityModel {
        id: first_id + k,
        kind: Kind::Alien,
        x: grid_x(k / HEIGHT as int),
        y: grid_y(k % HEIGHT as int, half_height),
        velocity: 0,
        alive: true,
    }
}

/// The starting grid.
pub open spec fn grid(first_id: int, half_height: int) -> Seq<EntityModel> {
    Seq::new((WIDTH * HEIGHT) as nat, |k: int| grid_alien(k, first_id, half_height))
}

/// An entity after the formation moved by a step: only live aliens move.
pub open spec fn advanced(e: EntityModel, step: int) -> EntityModel {
    if e.is_live(Kind::Alien) {
        e.at(e.x + step, e.y)
    } else {
        e
    }
}

/// Whether an entity is a live alien beyond a side bound.
pub open spec fn crosses(e: EntityModel, half_width: int) -> bool {
    e.is_live(Kind::Alien) && abs(e.x) > half_width
}

/// The index of the last of the first `n` entities that crosses a side bound,
/// or `-1` where none does.
pub open spec fn last_crossing(s: Seq<EntityModel>, half_width: int, n: int) -> int
    decreases n,
{
    if n <= 0 {
        -1
    } else if crosses(s[n - 1], half_width) {
        n - 1
    } else {
        last_crossing(s, half_width, n - 1)
    }
}

/// The last crossing is one of the first `n` entities and crosses.
pub proof fn lemma_last_crossing(s: Seq<EntityModel>, half_width: int, n: int)
    requires
        0 <= n <= s.len(),
    ensures
        -1 <= last_crossing(s, half_width, n) < n,
        last_crossing(s, half_width, n) >= 0 ==> crosses(
            s[last_crossing(s, half_width, n)],
            half_width,
        ),
        forall|j: int|
            last_crossing(s, half_width, n) < j < n ==> !crosses(#[trigger] s[j], half_width),
    decreases n,
{
    if n > 0 && !crosses(s[n - 1], half_width) {
        lemma_last_crossing(s, half_width, n - 1);
    }
}

/// An entity after the formation reversed: live aliens are set back by `dx`
/// and drop by the shift amount.
pub open spec fn shifted(e: EntityModel, dx: int) -> EntityModel {
    if e.is_live(Kind::Alien) {
        e.at(e.x + dx, e.y - ALIEN_SHIFT_AMOUNT)
    } else {
        e
    }
}

impl WorldModel {
    /// The state with the starting grid added and the controller reset.
    pub open spec fn setup_aliens(self) -> WorldModel {
        WorldModel {
            entities: self.entities + grid(self.next_id, self.half_height),
            next_id: self.next_id + WIDTH * HEIGHT,
            direction: 1,
            shift_aliens_down: false,
            dist_from_boundary: 0,
            ..self
        }
    }

    /// The advancing pass: every live alien moves along the sweep direction,
    /// and where one of them then lies beyond a side bound the flag goes up,
    /// with the correction taken from the last such alien in the store.
    pub open spec fn update_aliens(self, dt: int) -> WorldModel {
        let step = dt * SPEED * self.direction;
        let moved = self.entities.map_values(|e: EntityModel| advanced(e, step));
        let k = last_crossing(moved, self.half_width, moved.len() as int);
        WorldModel {
            entities: moved,
            shift_aliens_down: self.shift_aliens_down || k >= 0,
            dist_from_boundary: if k >= 0 {
                self.half_width * self.direction - moved[k].x
            } else {
                self.dist_from_boundary
            },
            ..self
        }
    }

    /// The state after the formation controller: the advancing pass, then
    /// the shifting pass.
    pub open spec fn marched(self, dt: int) -> WorldModel {
        self.update_aliens(dt).manage_alien_logic()
    }

    /// The shifting pass: where the flag is up it comes down, the direction
    /// reverses, and every live alien is set back by the correction and drops
    /// by the shift amount. Where the flag is down nothing changes.
    pub open spec fn manage_alien_logic(self) -> WorldModel {
        if self.shift_aliens_down {
            WorldModel {
                entities: self.entities.map_values(
                    |e: EntityModel| shifted(e, self.dist_from_boundary),
                ),
                direction: -self.direction,
                shift_aliens_down: false,
                ..self
            }
        } else {
            self
        }
    }
}

/// Whether the live aliens stand in ranks along the store: of any two, the
/// later one has the same x as the earlier one, or lies at least `gap` to its
/// right.
pub open spec fn in_ranks(s: Seq<EntityModel>, gap: int) -> bool {
    forall|i: int, j: int|
        0 <= i < j < s.len() && (#[trigger] s[i]).is_live(Kind::Alien) && (#[trigger] s[j]).is_live(
            Kind::Alien,
        ) ==> s[i].x == s[j].x || s[i].x + gap <= s[j].x
}

/// Whether every live alien lies between the side bounds.
pub open spec fn aliens_within(s: Seq<EntityModel>, half_width: int) -> bool {
    forall|i: int| 0 <= i < s.len() ==> !crosses(#[trigger] s[i], half_width)
}

impl WorldModel {
    /// Whether the formation is formed: the controller heads left or right
    /// with its flag down, and the live aliens stand in ranks, `gap` apart,
    /// between the side bounds.
    pub open spec fn formed(self, gap: int) -> bool {
        &&& self.direction == 1 || self.direction == -1
        &&& 0 <= self.half_width
        &&& !self.shift_aliens_down
        &&& in_ranks(self.entities, gap)
        &&& aliens_within(self.entities, self.half_width)
    }

    /// Whether the alien at index `k` leads the formation: no live alien is
    /// ahead of it along the sweep direction, and none lies farther behind
    /// it than the arena is wide.
    pub open spec fn led_by(self, k: int) -> bool {
        forall|i: int|
            0 <= i < self.entities.len() && (#[trigger] self.entities[i]).is_live(Kind::Alien) ==> 0
                <= (self.entities[k].x - self.entities[i].x) * self.direction <= 2
                * self.half_width
    }

    /// A shifting pass that finds the flag up leaves the direction the
    /// negation of what it was, and the flag down; one that finds it down
    /// leaves the direction as it was.
    pub proof fn lemma_shift_reverses(self)
        ensures
            self.shift_aliens_down ==> self.manage_alien_logic().direction == -self.direction,
            !self.shift_aliens_down ==> self.manage_alien_logic().direction == self.direction,
            !self.manage_alien_logic().shift_aliens_down,
    {
    }

    /// After the two passes of the formation controller, started with the
    /// flag down, every live alien lies between the side bounds exactly
    /// where no alien crossed a bound, or the alien that the correction was
    /// taken from, the last in the store that crossed, leads the formation.
    pub proof fn lemma_formation_bounds(self, dt: int)
        requires
            self.direction == 1 || self.direction == -1,
            0 <= self.half_width,
            !self.shift_aliens_down,
        ensures
            ({
                let advanced = self.update_aliens(dt);
                let k = last_crossing(
                    advanced.entities,
                    self.half_width,
                    advanced.entities.len() as int,
                );
                aliens_within(self.marched(dt).entities, self.half_width) <==> (k < 0
                    || advanced.led_by(k))
            }),
    {
        let a = self.update_aliens(dt);
        let n = a.entities.len() as int;
        let hw = self.half_width;
        let k = last_crossing(a.entities, hw, n);
        let m = self.marched(dt);
        lemma_last_crossing(a.entities, hw, n);
        if k < 0 {
            assert(m == a);
        } else {
            let dx = a.dist_from_boundary;
            let lead = a.entities[k].x;
            lemma_signed(hw, self.direction);
            assert(dx == hw * self.direction - lead);
            assert forall|i: int| 0 <= i < n implies (!crosses(#[trigger] m.entities[i], hw) <==> (
            a.entities[i].is_live(Kind::Alien) ==> 0 <= (lead - a.entities[i].x) * a.direction <= 2
                * hw)) by {
                let e = a.entities[i];
                assert(m.entities[i] == shifted(e, dx));
                lemma_signed(lead - e.x, a.direction);
            }
            if a.led_by(k) {
                assert(aliens_within(m.entities, hw));
            }
            if aliens_within(m.entities, hw) {
                assert forall|i: int|
                    0 <= i < a.entities.len() && (#[trigger] a.entities[i]).is_live(
                        Kind::Alien,
                    ) implies 0 <= (a.entities[k].x - a.entities[i].x) * a.direction <= 2
                    * a.half_width by {
                    assert(!crosses(m.entities[i], hw));
                }
            }
        }
    }

    /// A formation in ranks that lies between the side bounds, and moves by
    /// no more than the gap of its ranks, lies between the side bounds after
    /// the two passes of the formation controller, and is in ranks as before.
    pub proof fn lemma_ranks_march(self, dt: int, gap: int)
        requires
            self.formed(gap),
            0 <= dt,
            dt * SPEED <= gap,
        ensures
            self.marched(dt).formed(gap),
    {
        let a = self.update_aliens(dt);
        let n = a.entities.len() as int;
        let hw = self.half_width;
        let k = last_crossing(a.entities, hw, n);
        let m = self.marched(dt);
        let step = dt * SPEED * self.direction;
        lemma_last_crossing(a.entities, hw, n);
        lemma_signed(dt * SPEED, self.direction);
        assert forall|i: int| 0 <= i < n implies #[trigger] a.entities[i] == advanced(
            self.entities[i],
            step,
        ) by {}
        assert(in_ranks(a.entities, gap)) by {
            assert forall|i: int, j: int|
                0 <= i < j < n && (#[trigger] a.entities[i]).is_live(Kind::Alien) && (
                #[trigger] a.entities[j]).is_live(Kind::Alien) implies a.entities[i].x
                == a.entities[j].x || a.entities[i].x + gap <= a.entities[j].x by {
                assert(self.entities[i].is_live(Kind::Alien));
                assert(self.entities[j].is_live(Kind::Alien));
            }
        }
        if k >= 0 {
            let lead = a.entities[k].x;
            assert(crosses(a.entities[k], hw));
            assert(!crosses(self.entities[k], hw));
            assert forall|i: int|
                0 <= i < n && (#[trigger] a.entities[i]).is_live(Kind::Alien) implies 0 <= (lead
                - a.entities[i].x) * a.direction <= 2 * hw by {
                assert(!crosses(self.entities[i], hw));
                lemma_signed(lead - a.entities[i].x, a.direction);
                if i > k {
                    assert(!crosses(a.entities[i], hw));
                }
            }
            assert(a.led_by(k));
            assert forall|i: int| 0 <= i < n implies #[trigger] m.entities[i] == shifted(
                a.entities[i],
                a.dist_from_boundary,
            ) by {}
            assert forall|i: int, j: int|
                0 <= i < j < n && (#[trigger] m.entities[i]).is_live(Kind::Alien) && (
                #[trigger] m.entities[j]).is_live(Kind::Alien) implies m.entities[i].x
                == m.entities[j].x || m.entities[i].x + gap <= m.entities[j].x by {
                assert(a.entities[i].is_live(Kind::Alien));
                assert(a.entities[j].is_live(Kind::Alien));
            }
        }
        self.lemma_formation_bounds(dt);
    }

    /// The starting grid is in ranks, the spacing of the grid apart, and lies
    /// between the side bounds of an arena that is wide enough for it.
    pub proof fn lemma_grid_in_ranks(self)
        requires
            forall|i: int| 0 <= i < self.entities.len() ==> !(#[trigger] self.entities[i]).is_live(
                Kind::Alien,
            ),
            WIDTH * SPACING <= 2 * self.half_width,
        ensures
            self.setup_aliens().formed(SPACING as int),
    {
        let after = self.setup_aliens().entities;
        let old_len = self.entities.len() as int;
        assert forall|i: int| old_len <= i < after.len() implies {
            let k = i - old_len;
            &&& (#[trigger] after[i]) == grid_alien(k, self.next_id, self.half_height)
            &&& 0 <= k / (HEIGHT as int) < WIDTH
            &&& after[i].x == (k / (HEIGHT as int)) * SPACING - WIDTH * SPACING / 2
        } by {}
        assert forall|i: int, j: int|
            0 <= i < j < after.len() && (#[trigger] after[i]).is_live(Kind::Alien) && (
            #[trigger] after[j]).is_live(Kind::Alien) implies after[i].x == after[j].x || after[i].x
            + SPACING <= after[j].x by {
            let a = i - old_len;
            let b = j - old_len;
            assert(a / (HEIGHT as int) <= b / (HEIGHT as int));
        }
    }

    /// The advancing pass keeps the state well formed, the player in place,
    /// and all within a limit that is the longest step wider.
    pub proof fn lemma_update_aliens(self, dt: int, limit: int)
        requires
            self.wf(),
            self.within(limit),
            0 <= limit,
            0 <= dt <= u32::MAX,
        ensures
            self.update_aliens(dt).wf(),
            self.update_aliens(dt).within(limit + TRAVEL_LIMIT),
            self.has_player() ==> self.update_aliens(dt).has_player(),
    {
        let after = self.update_aliens(dt);
        let step = dt * SPEED * self.direction;
        lemma_signed(dt * SPEED, self.direction);
        lemma_signed(self.half_width, self.direction);
        lemma_last_crossing(after.entities, self.half_width, after.entities.len() as int);
        assert forall|i: int| 0 <= i < after.entities.len() implies {
            &&& abs((#[trigger] after.entities[i]).x) <= limit + TRAVEL_LIMIT
            &&& abs(after.entities[i].y) <= limit + TRAVEL_LIMIT
        } by {
            assert(after.entities[i] == advanced(self.entities[i], step));
        }
        if self.has_player() {
            self.lemma_player_kept(after);
        }
    }

    /// The shifting pass keeps the state well formed, the player in place,
    /// and all within four times the limit and the shift amount.
    pub proof fn lemma_manage_alien_logic(self, limit: int)
        requires
            self.wf(),
            self.within(limit),
            0 <= limit,
        ensures
            self.manage_alien_logic().wf(),
            self.manage_alien_logic().within(4 * limit + ALIEN_SHIFT_AMOUNT),
            self.has_player() ==> self.manage_alien_logic().has_player(),
    {
        let after = self.manage_alien_logic();
        assert forall|i: int| 0 <= i < after.entities.len() implies {
            &&& abs((#[trigger] after.entities[i]).x) <= 4 * limit + ALIEN_SHIFT_AMOUNT
            &&& abs(after.entities[i].y) <= 4 * limit + ALIEN_SHIFT_AMOUNT
        } by {
            assert(after.entities[i] == self.entities[i] || after.entities[i] == shifted(
                self.entities[i],
                self.dist_from_boundary,
            ));
        }
        if self.has_player() {
            self.lemma_player_kept(after);
        }
    }
}

impl World {
    /// Adds the starting grid of aliens and resets the formation controller.
    pub fn setup_aliens(&mut self)
        requires
            old(self).wf(),
            old(self)@.half_height <= PASS_LIMIT,
            old(self)@.next_id <= ID_LIMIT,
        ensures
            final(self).wf(),
            final(self)@ == old(self)@.setup_aliens(),
    {
        let ghost before = self@;
        let half_height = self.resolution.half_height;
        self.alien_manager = AlienManager {
            direction: 1,
            shift_aliens_down: false,
            dist_from_boundary: 0,
        };
        let mut column: u64 = 0;
        while column < WIDTH
            invariant
                column <= WIDTH,
                before.wf(),
                before.next_id <= ID_LIMIT,
                0 <= half_height <= PASS_LIMIT,
                self.wf(),
                self@ == (WorldModel {
                    entities: before.entities + grid(
                        before.next_id,
                        half_height as int,
                    ).take(column * HEIGHT),
                    next_id: before.next_id + column * HEIGHT,
                    ..before.setup_aliens()
                }),
            decreases WIDTH - column,
        {
            let mut row: u64 = 0;
            while row < HEIGHT
                invariant
                    column < WIDTH,
                    row <= HEIGHT,
                    before.wf(),
                    before.next_id <= ID_LIMIT,
                    0 <= half_height <= PASS_LIMIT,
                    self.wf(),
                    self@ == (WorldModel {
                        entities: before.entities + grid(
                            before.next_id,
                            half_height as int,
                        ).take(column * HEIGHT + row),
                        next_id: before.next_id + column * HEIGHT + row,
                        ..before.setup_aliens()
                    }),
                decreases HEIGHT - row,
            {
                let ghost k = (column * HEIGHT + row) as int;
                let x: i64 = column as i64 * SPACING - (WIDTH as i64) * SPACING / 2;
                let y: i64 = row as i64 * SPACING - (HEIGHT as i64) * SPACING + half_height;
                assert(k / HEIGHT as int == column && k % HEIGHT as int == row);
                let ghost full = grid(before.next_id, half_height as int);
                self.spawn(Kind::Alien, x, y, 0);
                assert(self@.entities =~= before.entities + full.take(k + 1)) by {
                    assert(full.take(k + 1) =~= full.take(k).push(full[k]));
                }
                row = row + 1;
            }
            column = column + 1;
        }
        assert(self@.entities =~= before.setup_aliens().entities) by {
            let full = grid(before.next_id, half_height as int);
            assert(full.take((WIDTH * HEIGHT) as int) =~= full);
        }
    }

    /// The advancing pass of the formation controller.
    pub fn update_aliens(&mut self, dt: u32)
        requires
            old(self).wf(),
            old(self)@.within(PASS_LIMIT as int),
        ensures
            final(self).wf(),
            final(self)@ == old(self)@.update_aliens(dt as int),
    {
        let ghost before = self@;
        let direction = self.alien_manager.direction;
        let half_width = self.resolution.half_width;
        let span: i64 = travelled(dt, SPEED);
        let step: i64 = if direction == 1 {
            span
        } else {
            -span
        };
        let bound: i64 = if direction == 1 {
            half_width
        } else {
            -half_width
        };
        proof {
            lemma_signed(dt * SPEED, before.direction);
            lemma_signed(before.half_width, before.direction);
        }
        let ghost moved = before.entities.map_values(|e: EntityModel| advanced(e, step as int));
        let n = self.entities.len();
        let mut i: usize = 0;
        while i < n
            invariant
                i <= n,
                n == before.entities.len(),
                before.wf(),
                before.within(PASS_LIMIT as int),
                -0x7fff_ffff_ffff <= step <= 0x7fff_ffff_ffff,
                bound == before.half_width * before.direction,
                half_width == before.half_width,
                moved == before.entities.map_values(|e: EntityModel| advanced(e, step as int)),
                self@.pixel_ratio == old(self)@.pixel_ratio,
                self@.entities.len() == n,
                forall|j: int| 0 <= j < i ==> self@.entities[j] == moved[j],
                forall|j: int| i <= j < n ==> self@.entities[j] == before.entities[j],
                self@.direction == before.direction,
                self@.half_width == before.half_width,
                self@.half_height == before.half_height,
                self@.next_id == before.next_id,
                self@.shift_aliens_down == (before.shift_aliens_down || last_crossing(
                    moved,
                    before.half_width,
                    i as int,
                ) >= 0),
                self@.dist_from_boundary == if last_crossing(moved, before.half_width, i as int)
                    >= 0 {
                    bound - moved[last_crossing(moved, before.half_width, i as int)].x
                } else {
                    before.dist_from_boundary
                },
            decreases n - i,
        {
            let e = self.entities[i];
            assert(e@ == before.entities[i as int]);
            proof {
                lemma_last_crossing(moved, before.half_width, i as int);
            }
            if e.alive && e.kind == Kind::Alien {
                let x: i64 = e.x + step;
                self.entities[i] = Entity { x, ..e };
                if x > half_width || x < -half_width {
                    self.alien_manager.shift_aliens_down = true;
                    self.alien_manager.dist_from_boundary = bound - x;
                }
            }
            assert(self@.entities[i as int] == moved[i as int]);
            i = i + 1;
        }
        assert(self@.entities =~= moved);
    }

    /// The shifting pass of the formation controller.
    pub fn manage_alien_logic(&mut self)
        requires
            old(self).wf(),
            old(self)@.within(PASS_LIMIT as int),
        ensures
            final(self).wf(),
            final(self)@ == old(self)@.manage_alien_logic(),
    {
        if !self.alien_manager.shift_aliens_down {
            return ;
        }
        let ghost before = self@;
        let dx = self.alien_manager.dist_from_boundary;
        self.alien_manager.shift_aliens_down = false;
        self.alien_manager.direction = -self.alien_manager.direction;
        let ghost moved = before.entities.map_values(|e: EntityModel| shifted(e, dx as int));
        let n = self.entities.len();
        let mut i: usize = 0;
        while i < n
            invariant
                i <= n,
                n == before.entities.len(),
                before.wf(),
                before.within(PASS_LIMIT as int),
                dx == before.dist_from_boundary,
                moved == before.entities.map_values(|e: EntityModel| shifted(e, dx as int)),
                self@.pixel_ratio == old(self)@.pixel_ratio,
                self@.entities.len() == n,
                forall|j: int| 0 <= j < i ==> self@.entities[j] == moved[j],
                forall|j: int| i <= j < n ==> self@.entities[j] == before.entities[j],
                self@.direction == -before.direction,
                self@.shift_aliens_down == false,
                self@.dist_from_boundary == before.dist_from_boundary,
                self@.half_width == before.half_width,
                self@.half_height == before.half_height,
                self@.next_id == before.next_id,
            decreases n - i,
        {
            let e = self.entities[i];
            assert(e@ == before.entities[i as int]);
            if e.alive && e.kind == Kind::Alien {
                self.entities[i] = Entity { x: e.x + dx, y: e.y - ALIEN_SHIFT_AMOUNT, ..e };
            }
            assert(self@.entities[i as int] == moved[i as int]);
            i = i + 1;
        }
        assert(self@.entities =~= moved);
    }
}

} // verus!
