//! The state of a session over unbounded integers.
use crate::entity::{EntityModel, Kind};
use crate::units::{abs, VELOCITY_LIMIT};
use vstd::prelude::*;

verus! {

/// Everything a tick reads and changes.
pub struct WorldModel {
    /// The entities, oldest first.
    pub entities: Seq<EntityModel>,
    /// Sweep direction of the formation: `1` to the right, `-1` to the left.
    pub direction: int,
    /// Whether the formation has met a side bound and has yet to reverse.
    pub shift_aliens_down: bool,
    /// How far the alien that met the bound went past it, with the sign that
    /// brings it back. It means something only while the flag is up.
    pub dist_from_boundary: int,
    pub half_width: int,
    pub half_height: int,
    /// The scale at which the platform draws the arena.
    pub pixel_ratio: int,
    /// The identifier that the next spawned entity gets.
    pub next_id: int,
}

impl WorldModel {
    /// The state is one that a session can be in: the formation heads left
    /// or right, the arena has no negative extent, and the identifiers of
    /// the entities increase along the store.
    pub open spec fn wf(self) -> bool {
        &&& self.direction == 1 || self.direction == -1
        &&& 0 <= self.half_width
        &&& 0 <= self.half_height
        &&& ids_increase(self.entities, self.next_id)
    }

    /// No coordinate lies farther than `limit` from the origin.
    pub open spec fn within(self, limit: int) -> bool {
        &&& forall|i: int|
            0 <= i < self.entities.len() ==> {
                &&& abs((#[trigger] self.entities[i]).x) <= limit
                &&& abs(self.entities[i].y) <= limit
            }
        &&& self.half_width <= limit
        &&& self.half_height <= limit
        &&& abs(self.dist_from_boundary) <= 3 * limit
    }

    /// Every live entity of a kind has a velocity that a flight can take.
    pub open spec fn paced(self, kind: Kind) -> bool {
        paced(self.entities, kind)
    }

    /// The index of the first live player, or the length where there is none.
    pub open spec fn player_index(self) -> int {
        first_live_from(self.entities, Kind::Player, 0)
    }

    /// Whether there is a live player.
    pub open spec fn has_player(self) -> bool {
        self.player_index() < self.entities.len()
    }

    /// A state within a limit is within every larger one.
    pub proof fn lemma_widen(self, limit: int, wider: int)
        requires
            self.within(limit),
            limit <= wider,
        ensures
            self.within(wider),
    {
    }

    /// A state that keeps the entities of another, live players as live
    /// players and the others as no such, has its player at the same index.
    pub proof fn lemma_player_kept(self, after: WorldModel)
        requires
            self.has_player(),
            self.entities.len() <= after.entities.len(),
            forall|i: int|
                0 <= i < self.entities.len() ==> after.entities[i].is_live(Kind::Player)
                    == self.entities[i].is_live(Kind::Player),
        ensures
            after.has_player(),
            after.player_index() == self.player_index(),
    {
        lemma_first_live_same(self.entities, after.entities, Kind::Player, 0);
    }

    /// The state with the entity at an index moved to a place.
    pub open spec fn placed(self, i: int, x: int, y: int) -> WorldModel {
        WorldModel { entities: self.entities.update(i, self.entities[i].at(x, y)), ..self }
    }

    /// The state with the entity at an index dead.
    pub open spec fn killed(self, i: int) -> WorldModel {
        WorldModel { entities: self.entities.update(i, self.entities[i].killed()), ..self }
    }

    /// The state with one more entity, alive, under the next identifier.
    pub open spec fn spawn(self, kind: Kind, x: int, y: int, velocity: int) -> WorldModel {
        WorldModel {
            entities: self.entities.push(
                EntityModel { id: self.next_id, kind, x, y, velocity, alive: true },
            ),
            next_id: self.next_id + 1,
            ..self
        }
    }
}

/// Whether every live entity of a kind has a velocity that a flight can
/// take: none negative, none above the limit.
pub open spec fn paced(s: Seq<EntityModel>, kind: Kind) -> bool {
    forall|i: int|
        0 <= i < s.len() && (#[trigger] s[i]).is_live(kind) ==> 0 <= s[i].velocity
            <= VELOCITY_LIMIT
}

/// A later store is paced where an earlier one was, where it took the live
/// entities of the kind over with their velocities, and what it holds beyond
/// them has a velocity that a flight can take.
pub proof fn lemma_paced_kept(before: Seq<EntityModel>, after: Seq<EntityModel>, kind: Kind)
    requires
        paced(before, kind),
        before.len() <= after.len(),
        forall|i: int|
            0 <= i < before.len() && (#[trigger] after[i]).is_live(kind) ==> before[i].is_live(
                kind,
            ) && after[i].velocity == before[i].velocity,
        forall|i: int|
            before.len() <= i < after.len() ==> 0 <= (#[trigger] after[i]).velocity
                <= VELOCITY_LIMIT,
    ensures
        paced(after, kind),
{
}

/// Later entities have larger identifiers, none negative and all of them
/// below the counter.
pub open spec fn ids_increase(s: Seq<EntityModel>, next_id: int) -> bool {
    &&& 0 <= next_id
    &&& forall|i: int, j: int| 0 <= i < j < s.len() ==> s[i].id < s[j].id
    &&& forall|i: int| 0 <= i < s.len() ==> 0 <= #[trigger] s[i].id < next_id
}

/// Where identifiers increase, none is smaller than its index.
pub proof fn lemma_id_above_index(s: Seq<EntityModel>, next_id: int, i: int)
    requires
        ids_increase(s, next_id),
        0 <= i < s.len(),
    ensures
        i <= s[i].id,
    decreases i,
{
    if i > 0 {
        lemma_id_above_index(s, next_id, i - 1);
    }
}

/// There are no more entities than identifiers given out.
pub proof fn lemma_len_below_next_id(s: Seq<EntityModel>, next_id: int)
    requires
        ids_increase(s, next_id),
    ensures
        s.len() <= next_id,
{
    if s.len() > 0 {
        lemma_id_above_index(s, next_id, s.len() - 1);
    }
}

/// Whether a later store holds every entity of an earlier one at its index,
/// under its identifier and of its kind, no alien higher than it was, and no
/// alien that the earlier store did not hold.
pub open spec fn settles(before: Seq<EntityModel>, after: Seq<EntityModel>) -> bool {
    &&& before.len() <= after.len()
    &&& forall|j: int|
        0 <= j < before.len() ==> {
            &&& (#[trigger] after[j]).id == before[j].id
            &&& after[j].kind == before[j].kind
            &&& before[j].kind == Kind::Alien ==> after[j].y <= before[j].y
        }
    &&& forall|j: int| before.len() <= j < after.len() ==> (#[trigger] after[j]).kind != Kind::Alien
}

/// Whether a later store holds every entity of an earlier one at its index,
/// under its identifier and of its kind, every alien where it was and alive
/// only where it was, and no alien that the earlier store did not hold.
pub open spec fn rests(before: Seq<EntityModel>, after: Seq<EntityModel>) -> bool {
    &&& before.len() <= after.len()
    &&& forall|j: int|
        0 <= j < before.len() ==> {
            &&& (#[trigger] after[j]).id == before[j].id
            &&& after[j].kind == before[j].kind
            &&& before[j].kind == Kind::Alien ==> {
                &&& after[j].x == before[j].x
                &&& after[j].y == before[j].y
                &&& after[j].alive ==> before[j].alive
            }
        }
    &&& forall|j: int| before.len() <= j < after.len() ==> (#[trigger] after[j]).kind != Kind::Alien
}

/// Whether every alien of a later store was an alien of an earlier one, under
/// the same identifier, and is no higher than it was.
pub open spec fn descends(before: Seq<EntityModel>, after: Seq<EntityModel>) -> bool {
    forall|j: int|
        0 <= j < after.len() && (#[trigger] after[j]).kind == Kind::Alien ==> exists|i: int|
            0 <= i < before.len() && (#[trigger] before[i]).id == after[j].id && before[i].kind
                == Kind::Alien && after[j].y <= before[i].y
}

/// Descent carries over from one stretch of a session to the next.
pub proof fn lemma_descends_on(
    first: Seq<EntityModel>,
    second: Seq<EntityModel>,
    third: Seq<EntityModel>,
)
    requires
        descends(first, second),
        descends(second, third),
    ensures
        descends(first, third),
{
    assert forall|j: int| 0 <= j < third.len() && (#[trigger] third[j]).kind
        == Kind::Alien implies exists|i: int|
        0 <= i < first.len() && (#[trigger] first[i]).id == third[j].id && first[i].kind
            == Kind::Alien && third[j].y <= first[i].y by {
        let m = choose|m: int|
            0 <= m < second.len() && (#[trigger] second[m]).id == third[j].id && second[m].kind
                == Kind::Alien && third[j].y <= second[m].y;
        let i = choose|i: int|
            0 <= i < first.len() && (#[trigger] first[i]).id == second[m].id && first[i].kind
                == Kind::Alien && second[m].y <= first[i].y;
        assert(first[i].id == third[j].id);
    }
}

/// The index of the first live entity of a kind at or after `from`, or the
/// length where there is none.
pub open spec fn first_live_from(s: Seq<EntityModel>, kind: Kind, from: int) -> int
    decreases s.len() - from,
{
    if from >= s.len() {
        s.len() as int
    } else if s[from].is_live(kind) {
        from
    } else {
        first_live_from(s, kind, from + 1)
    }
}

/// The first live entity is a live one of the kind, and nothing from `from`
/// up to it is.
pub proof fn lemma_first_live(s: Seq<EntityModel>, kind: Kind, from: int)
    requires
        0 <= from <= s.len(),
    ensures
        from <= first_live_from(s, kind, from) <= s.len(),
        first_live_from(s, kind, from) < s.len() ==> s[first_live_from(s, kind, from)].is_live(
            kind,
        ),
        forall|j: int|
            from <= j < first_live_from(s, kind, from) ==> !(#[trigger] s[j]).is_live(kind),
    decreases s.len() - from,
{
    if from < s.len() && !s[from].is_live(kind) {
        lemma_first_live(s, kind, from + 1);
    }
}

/// Two stores that agree on which of their entities are live ones of a kind
/// have their first such entity at the same index.
pub proof fn lemma_first_live_same(
    s: Seq<EntityModel>,
    t: Seq<EntityModel>,
    kind: Kind,
    from: int,
)
    requires
        0 <= from <= s.len() <= t.len(),
        forall|i: int| from <= i < s.len() ==> t[i].is_live(kind) == s[i].is_live(kind),
        first_live_from(s, kind, from) < s.len(),
    ensures
        first_live_from(t, kind, from) == first_live_from(s, kind, from),
    decreases s.len() - from,
{
    if from < s.len() && !s[from].is_live(kind) {
        lemma_first_live_same(s, t, kind, from + 1);
    }
}

/// How many of the first `n` entities are live ones of a kind.
pub open spec fn live_count(s: Seq<EntityModel>, kind: Kind, n: int) -> int
    decreases n,
{
    if n <= 0 {
        0
    } else {
        live_count(s, kind, n - 1) + if s[n - 1].is_live(kind) {
            1int
        } else {
            0int
        }
    }
}

/// Two stores that agree on which of their first `n` entities are live
/// ones of a kind hold as many of them there.
pub proof fn lemma_live_count_same(s: Seq<EntityModel>, t: Seq<EntityModel>, kind: Kind, n: int)
    requires
        n <= s.len(),
        n <= t.len(),
        forall|i: int| 0 <= i < n ==> (#[trigger] t[i]).is_live(kind) == s[i].is_live(kind),
    ensures
        live_count(t, kind, n) == live_count(s, kind, n),
    decreases n,
{
    if n > 0 {
        lemma_live_count_same(s, t, kind, n - 1);
    }
}

/// A store in which no more entities are live ones of a kind than in
/// another holds no more of them.
pub proof fn lemma_live_count_fewer(s: Seq<EntityModel>, t: Seq<EntityModel>, kind: Kind, n: int)
    requires
        0 <= n <= s.len(),
        n <= t.len(),
        forall|i: int| 0 <= i < n ==> ((#[trigger] t[i]).is_live(kind) ==> s[i].is_live(kind)),
    ensures
        0 <= live_count(t, kind, n) <= live_count(s, kind, n) <= n,
    decreases n,
{
    if n > 0 {
        lemma_live_count_fewer(s, t, kind, n - 1);
    }
}

/// The live entities of a kind in a store with more entities behind it are
/// those of the store and those of what stands behind it.
pub proof fn lemma_live_count_append(
    s: Seq<EntityModel>,
    extra: Seq<EntityModel>,
    kind: Kind,
    m: int,
)
    requires
        0 <= m <= extra.len(),
    ensures
        live_count(s + extra, kind, s.len() + m) == live_count(s, kind, s.len() as int)
            + live_count(extra, kind, m),
    decreases m,
{
    if m > 0 {
        lemma_live_count_append(s, extra, kind, m - 1);
        assert((s + extra)[s.len() + m - 1] == extra[m - 1]);
    } else {
        lemma_live_count_same(s, s + extra, kind, s.len() as int);
    }
}

/// A filter that admits every live entity of a kind leaves as many of them.
pub proof fn lemma_live_count_filter(
    s: Seq<EntityModel>,
    keep: spec_fn(EntityModel) -> bool,
    kind: Kind,
)
    requires
        forall|i: int| 0 <= i < s.len() && (#[trigger] s[i]).is_live(kind) ==> keep(s[i]),
    ensures
        live_count(s.filter(keep), kind, s.filter(keep).len() as int) == live_count(
            s,
            kind,
            s.len() as int,
        ),
    decreases s.len(),
{
    reveal(Seq::filter);
    if s.len() > 0 {
        let front = s.drop_last();
        let kept = front.filter(keep);
        assert(forall|i: int| 0 <= i < front.len() ==> front[i] == s[i]);
        lemma_live_count_filter(front, keep, kind);
        lemma_live_count_same(front, s, kind, front.len() as int);
        if keep(s.last()) {
            lemma_live_count_same(kept, kept.push(s.last()), kind, kept.len() as int);
        }
    }
}

/// Killing one entity takes one from the live entities of its kind, where it
/// was alive, and leaves the count of every other kind.
pub proof fn lemma_live_count_killed(s: Seq<EntityModel>, i: int, kind: Kind, n: int)
    requires
        0 <= i < s.len(),
        0 <= n <= s.len(),
    ensures
        live_count(s.update(i, s[i].killed()), kind, n) == live_count(s, kind, n) - if i < n
            && s[i].is_live(kind) {
            1int
        } else {
            0int
        },
    decreases n,
{
    if n > 0 {
        lemma_live_count_killed(s, i, kind, n - 1);
    }
}

/// A store has a first live entity of a kind exactly where it holds at
/// least one.
pub proof fn lemma_has_live(s: Seq<EntityModel>, kind: Kind)
    ensures
        first_live_from(s, kind, 0) < s.len() <==> live_count(s, kind, s.len() as int) > 0,
{
    lemma_first_live(s, kind, 0);
    let r = first_live_from(s, kind, 0);
    if r < s.len() {
        lemma_live_count_at_least(s, kind, s.len() as int, r);
    } else {
        lemma_live_count_fewer(s, s, kind, s.len() as int);
        lemma_live_count_none(s, kind, s.len() as int);
    }
}

/// Where one of the first `n` entities is a live one of a kind, their count
/// is positive.
proof fn lemma_live_count_at_least(s: Seq<EntityModel>, kind: Kind, n: int, i: int)
    requires
        0 <= i < n <= s.len(),
        s[i].is_live(kind),
    ensures
        live_count(s, kind, n) > 0,
    decreases n,
{
    lemma_live_count_fewer(s, s, kind, n - 1);
    if i < n - 1 {
        lemma_live_count_at_least(s, kind, n - 1, i);
    }
}

/// Where none of the first `n` entities is a live one of a kind, their count
/// is zero.
pub proof fn lemma_live_count_none(s: Seq<EntityModel>, kind: Kind, n: int)
    requires
        n <= s.len(),
        forall|i: int| 0 <= i < n ==> !(#[trigger] s[i]).is_live(kind),
    ensures
        live_count(s, kind, n) == 0,
    decreases n,
{
    if n > 0 {
        lemma_live_count_none(s, kind, n - 1);
    }
}

} // verus!
