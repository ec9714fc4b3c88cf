//! The collision resolver: three passes, each pairing the live entities of
//! one kind with those of another that lie within the hit radius.
use super::World;
use crate::entity::{EntityModel, Kind};
use crate::model::{lemma_live_count_fewer, lemma_live_count_killed, live_count, WorldModel};
use crate::units::{
    abs, hit, lemma_hit_symmetric, lemma_same_place_hits, within_hit_radius,
};
use vstd::prelude::*;

verus! {

/// The index of the first live entity of a kind that lies within the hit
/// radius of a point, at or after `from`, or the length where there is none.
pub open spec fn first_target(s: Seq<EntityModel>, x: int, y: int, target: Kind, from: int) -> int
    decreases s.len() - from,
{
    if from >= s.len() {
        s.len() as int
    } else if s[from].is_live(target) && within_hit_radius(x, y, s[from].x, s[from].y) {
        from
    } else {
        first_target(s, x, y, target, from + 1)
    }
}

/// The store after the turn of the entity at index `i`. Where it is a live
/// entity of the source kind and a live target lies within the hit radius, it
/// dies, and with it, where targets are consumed, the first such target.
pub open spec fn struck(
    s: Seq<EntityModel>,
    i: int,
    source: Kind,
    target: Kind,
    consume: bool,
) -> Seq<EntityModel> {
    if 0 <= i < s.len() && s[i].is_live(source) {
        let j = first_target(s, s[i].x, s[i].y, target, 0);
        if j >= s.len() {
            s
        } else if consume {
            s.update(i, s[i].killed()).update(j, s[j].killed())
        } else {
            s.update(i, s[i].killed())
        }
    } else {
        s
    }
}

/// The store after the turns of its first `n` entities, in their order.
pub open spec fn resolved(
    s: Seq<EntityModel>,
    source: Kind,
    target: Kind,
    consume: bool,
    n: int,
) -> Seq<EntityModel>
    decreases n,
{
    if n <= 0 {
        s
    } else {
        struck(resolved(s, source, target, consume, n - 1), n - 1, source, target, consume)
    }
}

/// The first target is a live target within the hit radius, and nothing
/// before it is.
pub proof fn lemma_first_target(s: Seq<EntityModel>, x: int, y: int, target: Kind, from: int)
    requires
        0 <= from <= s.len(),
    ensures
        from <= first_target(s, x, y, target, from) <= s.len(),
        first_target(s, x, y, target, from) < s.len() ==> {
            let j = first_target(s, x, y, target, from);
            s[j].is_live(target) && within_hit_radius(x, y, s[j].x, s[j].y)
        },
        forall|j: int|
            from <= j < first_target(s, x, y, target, from) ==> !((#[trigger] s[j]).is_live(target)
                && within_hit_radius(x, y, s[j].x, s[j].y)),
    decreases s.len() - from,
{
    if from < s.len() && !(s[from].is_live(target) && within_hit_radius(
        x,
        y,
        s[from].x,
        s[from].y,
    )) {
        lemma_first_target(s, x, y, target, from + 1);
    }
}

/// Whether a pass may have left an entity as `after`: unchanged, or, where
/// it was a live entity that the pass can strike, dead.
pub open spec fn outcome(
    before: EntityModel,
    after: EntityModel,
    source: Kind,
    target: Kind,
    consume: bool,
) -> bool {
    ||| after == before
    ||| {
        &&& before.alive
        &&& after == before.killed()
        &&& before.kind == source || (consume && before.kind == target)
    }
}

/// A turn changes nothing but `alive`, and that only from true to false and
/// only of the kinds that the pass strikes.
pub proof fn lemma_struck_keeps(
    s: Seq<EntityModel>,
    i: int,
    source: Kind,
    target: Kind,
    consume: bool,
)
    ensures
        struck(s, i, source, target, consume).len() == s.len(),
        forall|k: int|
            0 <= k < s.len() ==> outcome(
                s[k],
                #[trigger] struck(s, i, source, target, consume)[k],
                source,
                target,
                consume,
            ),
{
    if 0 <= i < s.len() {
        lemma_first_target(s, s[i].x, s[i].y, target, 0);
    }
}

/// A pass changes nothing but `alive`, and that only from true to false and
/// only of the kinds that it strikes.
pub proof fn lemma_resolved_keeps(
    s: Seq<EntityModel>,
    source: Kind,
    target: Kind,
    consume: bool,
    n: int,
)
    ensures
        resolved(s, source, target, consume, n).len() == s.len(),
        forall|k: int|
            0 <= k < s.len() ==> outcome(
                s[k],
                #[trigger] resolved(s, source, target, consume, n)[k],
                source,
                target,
                consume,
            ),
    decreases n,
{
    if n > 0 {
        let earlier = resolved(s, source, target, consume, n - 1);
        lemma_resolved_keeps(s, source, target, consume, n - 1);
        lemma_struck_keeps(earlier, n - 1, source, target, consume);
        assert forall|k: int| 0 <= k < s.len() implies outcome(
            s[k],
            #[trigger] resolved(s, source, target, consume, n)[k],
            source,
            target,
            consume,
        ) by {
            let mid = earlier[k];
            let after = struck(earlier, n - 1, source, target, consume)[k];
            assert(outcome(s[k], mid, source, target, consume));
            assert(outcome(mid, after, source, target, consume));
        }
    }
}

/// Among the first `n` turns of the pass of player bullets against aliens, a
/// lone live player bullet is spent on the first live alien within its hit
/// radius, at the turn of that alien, and on nothing else.
proof fn lemma_lone_bullet_upto(s: Seq<EntityModel>, p: int, n: int)
    requires
        0 <= p < s.len(),
        0 <= n <= s.len(),
        s[p].is_live(Kind::PlayerBullet),
        forall|j: int| 0 <= j < s.len() && j != p ==> !(#[trigger] s[j]).is_live(Kind::PlayerBullet),
    ensures
        ({
            let k = first_target(s, s[p].x, s[p].y, Kind::Alien, 0);
            resolved(s, Kind::Alien, Kind::PlayerBullet, true, n) == if n <= k {
                s
            } else {
                s.update(k, s[k].killed()).update(p, s[p].killed())
            }
        }),
    decreases n,
{
    lemma_first_target(s, s[p].x, s[p].y, Kind::Alien, 0);
    if n > 0 {
        let m = n - 1;
        let k = first_target(s, s[p].x, s[p].y, Kind::Alien, 0);
        let earlier = resolved(s, Kind::Alien, Kind::PlayerBullet, true, m);
        lemma_lone_bullet_upto(s, p, m);
        lemma_first_target(earlier, earlier[m].x, earlier[m].y, Kind::PlayerBullet, 0);
        let j = first_target(earlier, earlier[m].x, earlier[m].y, Kind::PlayerBullet, 0);
        lemma_hit_symmetric(s[p].x, s[p].y, s[m].x, s[m].y);
        if m < k {
            if s[m].is_live(Kind::Alien) && j < s.len() {
                assert(j == p);
            }
        } else if m == k {
            assert(j == p);
        } else {
            if earlier[m].is_live(Kind::Alien) && j < s.len() {
                assert(s[j].is_live(Kind::PlayerBullet));
            }
        }
    }
}

/// One hit for one bullet: where a store holds a single live player bullet,
/// the pass of player bullets against aliens kills the first live alien
/// within the hit radius of the bullet, spends the bullet on it, and leaves
/// every other entity as it is, however many aliens the bullet could have
/// hit. Where no live alien is within its hit radius, the pass changes
/// nothing.
pub proof fn lemma_lone_bullet(s: Seq<EntityModel>, p: int)
    requires
        0 <= p < s.len(),
        s[p].is_live(Kind::PlayerBullet),
        forall|j: int| 0 <= j < s.len() && j != p ==> !(#[trigger] s[j]).is_live(Kind::PlayerBullet),
    ensures
        ({
            let k = first_target(s, s[p].x, s[p].y, Kind::Alien, 0);
            resolved(s, Kind::Alien, Kind::PlayerBullet, true, s.len() as int) == if k < s.len() {
                s.update(k, s[k].killed()).update(p, s[p].killed())
            } else {
                s
            }
        }),
{
    lemma_lone_bullet_upto(s, p, s.len() as int);
    lemma_first_target(s, s[p].x, s[p].y, Kind::Alien, 0);
}

/// Among the first `n` turns of the pass of player bullets against alien
/// bullets, two bullets that can only hit each other stay as they are up to
/// the turn of the player bullet, and are both dead after it.
proof fn lemma_ammo_pair_upto(s: Seq<EntityModel>, a: int, b: int, n: int)
    requires
        0 <= a < s.len(),
        0 <= b < s.len(),
        0 <= n <= s.len(),
        s[a].is_live(Kind::PlayerBullet),
        s[b].is_live(Kind::AlienBullet),
        within_hit_radius(s[a].x, s[a].y, s[b].x, s[b].y),
        forall|j: int|
            0 <= j < s.len() && j != b && (#[trigger] s[j]).is_live(Kind::AlienBullet)
                ==> !within_hit_radius(s[a].x, s[a].y, s[j].x, s[j].y),
        forall|i: int|
            0 <= i < s.len() && i != a && (#[trigger] s[i]).is_live(Kind::PlayerBullet)
                ==> !within_hit_radius(s[i].x, s[i].y, s[b].x, s[b].y),
    ensures
        ({
            let r = resolved(s, Kind::PlayerBullet, Kind::AlienBullet, true, n);
            if n <= a {
                r[a] == s[a] && r[b] == s[b]
            } else {
                r[a] == s[a].killed() && r[b] == s[b].killed()
            }
        }),
    decreases n,
{
    if n > 0 {
        let m = n - 1;
        let earlier = resolved(s, Kind::PlayerBullet, Kind::AlienBullet, true, m);
        lemma_ammo_pair_upto(s, a, b, m);
        lemma_resolved_keeps(s, Kind::PlayerBullet, Kind::AlienBullet, true, m);
        lemma_struck_keeps(earlier, m, Kind::PlayerBullet, Kind::AlienBullet, true);
        lemma_first_target(earlier, earlier[m].x, earlier[m].y, Kind::AlienBullet, 0);
        let j = first_target(earlier, earlier[m].x, earlier[m].y, Kind::AlienBullet, 0);
        assert(outcome(s[m], earlier[m], Kind::PlayerBullet, Kind::AlienBullet, true));
        if j < s.len() {
            assert(outcome(s[j], earlier[j], Kind::PlayerBullet, Kind::AlienBullet, true));
        }
        let later = struck(earlier, m, Kind::PlayerBullet, Kind::AlienBullet, true);
        assert(outcome(earlier[a], later[a], Kind::PlayerBullet, Kind::AlienBullet, true));
        assert(outcome(earlier[b], later[b], Kind::PlayerBullet, Kind::AlienBullet, true));
        if m < a {
            if earlier[m].is_live(Kind::PlayerBullet) && j < s.len() {
                assert(j != b);
            }
        } else if m == a {
            assert(earlier[b].is_live(Kind::AlienBullet));
            assert(j == b);
        }
    }
}

/// A live player bullet and a live alien bullet within the hit radius of
/// each other are both dead after the pass of player bullets against alien
/// bullets, and nothing else about them has changed, where neither has
/// another live bullet of the other side within its hit radius.
pub proof fn lemma_ammo_pair(s: Seq<EntityModel>, a: int, b: int)
    requires
        0 <= a < s.len(),
        0 <= b < s.len(),
        s[a].is_live(Kind::PlayerBullet),
        s[b].is_live(Kind::AlienBullet),
        within_hit_radius(s[a].x, s[a].y, s[b].x, s[b].y),
        forall|j: int|
            0 <= j < s.len() && j != b && (#[trigger] s[j]).is_live(Kind::AlienBullet)
                ==> !within_hit_radius(s[a].x, s[a].y, s[j].x, s[j].y),
        forall|i: int|
            0 <= i < s.len() && i != a && (#[trigger] s[i]).is_live(Kind::PlayerBullet)
                ==> !within_hit_radius(s[i].x, s[i].y, s[b].x, s[b].y),
    ensures
        ({
            let r = resolved(s, Kind::PlayerBullet, Kind::AlienBullet, true, s.len() as int);
            r[a] == s[a].killed() && r[b] == s[b].killed()
        }),
{
    lemma_ammo_pair_upto(s, a, b, s.len() as int);
}

/// After the first `n` turns of a pass, none of the entities that had their
/// turn is a live source with a live target within its hit radius.
proof fn lemma_no_pair_survives_upto(
    s: Seq<EntityModel>,
    source: Kind,
    target: Kind,
    consume: bool,
    n: int,
)
    requires
        0 <= n <= s.len(),
    ensures
        forall|i: int, j: int|
            #![trigger resolved(s, source, target, consume, n)[i], resolved(s, source, target, consume, n)[j]]
            0 <= i < n && 0 <= j < s.len() && resolved(s, source, target, consume, n)[i].is_live(
                source,
            ) && resolved(s, source, target, consume, n)[j].is_live(target)
                ==> !within_hit_radius(s[i].x, s[i].y, s[j].x, s[j].y),
    decreases n,
{
    if n > 0 {
        let m = n - 1;
        let earlier = resolved(s, source, target, consume, m);
        let later = resolved(s, source, target, consume, n);
        lemma_no_pair_survives_upto(s, source, target, consume, m);
        lemma_resolved_keeps(s, source, target, consume, m);
        lemma_struck_keeps(earlier, m, source, target, consume);
        lemma_first_target(earlier, earlier[m].x, earlier[m].y, target, 0);
        assert forall|i: int, j: int|
            #![trigger later[i], later[j]]
            0 <= i < n && 0 <= j < s.len() && later[i].is_live(source) && later[j].is_live(
                target,
            ) implies !within_hit_radius(s[i].x, s[i].y, s[j].x, s[j].y) by {
            assert(outcome(s[i], earlier[i], source, target, consume));
            assert(outcome(s[j], earlier[j], source, target, consume));
            assert(outcome(earlier[i], later[i], source, target, consume));
            assert(outcome(earlier[j], later[j], source, target, consume));
            if i < m {
                assert(earlier[i].is_live(source) && earlier[j].is_live(target));
            } else {
                assert(earlier[m].is_live(source));
                assert(first_target(earlier, earlier[m].x, earlier[m].y, target, 0) >= s.len());
                assert(earlier[j].is_live(target));
            }
        }
    }
}

/// Nothing is left unresolved: after a pass no live entity of the source
/// kind has a live entity of the target kind within its hit radius.
pub proof fn lemma_no_pair_survives(s: Seq<EntityModel>, source: Kind, target: Kind, consume: bool)
    ensures
        ({
            let r = resolved(s, source, target, consume, s.len() as int);
            forall|i: int, j: int|
                #![trigger r[i], r[j]]
                0 <= i < s.len() && 0 <= j < s.len() && r[i].is_live(source) && r[j].is_live(
                    target,
                ) ==> !within_hit_radius(r[i].x, r[i].y, r[j].x, r[j].y)
        }),
{
    let r = resolved(s, source, target, consume, s.len() as int);
    lemma_no_pair_survives_upto(s, source, target, consume, s.len() as int);
    lemma_resolved_keeps(s, source, target, consume, s.len() as int);
    assert forall|i: int, j: int|
        #![trigger r[i], r[j]]
        0 <= i < s.len() && 0 <= j < s.len() && r[i].is_live(source) && r[j].is_live(
            target,
        ) implies !within_hit_radius(r[i].x, r[i].y, r[j].x, r[j].y) by {
        assert(outcome(s[i], r[i], source, target, consume));
        assert(outcome(s[j], r[j], source, target, consume));
    }
}

/// After the first `n` turns of a pass that consumes its targets, as many
/// sources have died as targets.
proof fn lemma_kills_pair_up_upto(s: Seq<EntityModel>, source: Kind, target: Kind, n: int)
    requires
        source != target,
        0 <= n <= s.len(),
    ensures
        ({
            let r = resolved(s, source, target, true, n);
            let all = s.len() as int;
            live_count(s, source, all) - live_count(r, source, all) == live_count(s, target, all)
                - live_count(r, target, all)
        }),
    decreases n,
{
    if n > 0 {
        let m = n - 1;
        let all = s.len() as int;
        let earlier = resolved(s, source, target, true, m);
        lemma_kills_pair_up_upto(s, source, target, m);
        lemma_resolved_keeps(s, source, target, true, m);
        let j = first_target(earlier, earlier[m].x, earlier[m].y, target, 0);
        lemma_first_target(earlier, earlier[m].x, earlier[m].y, target, 0);
        if earlier[m].is_live(source) && j < all {
            let half = earlier.update(m, earlier[m].killed());
            lemma_live_count_killed(earlier, m, source, all);
            lemma_live_count_killed(earlier, m, target, all);
            assert(half[j] == earlier[j]);
            lemma_live_count_killed(half, j, source, all);
            lemma_live_count_killed(half, j, target, all);
        }
    }
}

/// One hit for one bullet, in every store: the pass of player bullets
/// against aliens kills as many aliens as it spends bullets, so that no
/// bullet kills two aliens, and none is spent on an alien that another
/// bullet killed.
pub proof fn lemma_kills_pair_up(s: Seq<EntityModel>)
    ensures
        ({
            let r = resolved(s, Kind::Alien, Kind::PlayerBullet, true, s.len() as int);
            let all = s.len() as int;
            live_count(s, Kind::Alien, all) - live_count(r, Kind::Alien, all) == live_count(
                s,
                Kind::PlayerBullet,
                all,
            ) - live_count(r, Kind::PlayerBullet, all)
        }),
{
    lemma_kills_pair_up_upto(s, Kind::Alien, Kind::PlayerBullet, s.len() as int);
}

/// Both gone: a live player bullet and a live alien bullet at one and the
/// same place are both dead after the pass of player bullets against alien
/// bullets, where neither has another live bullet of the other side within
/// its hit radius.
pub proof fn lemma_same_place_both_gone(s: Seq<EntityModel>, a: int, b: int)
    requires
        0 <= a < s.len(),
        0 <= b < s.len(),
        s[a].is_live(Kind::PlayerBullet),
        s[b].is_live(Kind::AlienBullet),
        s[a].x == s[b].x,
        s[a].y == s[b].y,
        forall|j: int|
            0 <= j < s.len() && j != b && (#[trigger] s[j]).is_live(Kind::AlienBullet)
                ==> !within_hit_radius(s[a].x, s[a].y, s[j].x, s[j].y),
        forall|i: int|
            0 <= i < s.len() && i != a && (#[trigger] s[i]).is_live(Kind::PlayerBullet)
                ==> !within_hit_radius(s[i].x, s[i].y, s[b].x, s[b].y),
    ensures
        ({
            let r = resolved(s, Kind::PlayerBullet, Kind::AlienBullet, true, s.len() as int);
            !r[a].alive && !r[b].alive
        }),
{
    lemma_same_place_hits(s[a].x, s[a].y);
    lemma_ammo_pair(s, a, b);
}

impl WorldModel {
    /// The state after one pass of the resolver.
    pub open spec fn resolve(self, source: Kind, target: Kind, consume: bool) -> WorldModel {
        WorldModel {
            entities: resolved(
                self.entities,
                source,
                target,
                consume,
                self.entities.len() as int,
            ),
            ..self
        }
    }

    /// Player bullets against aliens: each live alien, in the order of the
    /// store, dies of the first live player bullet within the hit radius, and
    /// that bullet is spent on it.
    pub open spec fn update_alien_interations(self) -> WorldModel {
        self.resolve(Kind::Alien, Kind::PlayerBullet, true)
    }

    /// Alien bullets against the player: a live player with a live alien
    /// bullet within the hit radius dies. The bullet flies on.
    pub open spec fn update_bullet_interaction(self) -> WorldModel {
        self.resolve(Kind::Player, Kind::AlienBullet, false)
    }

    /// Player bullets against alien bullets: each live player bullet, in the
    /// order of the store, dies together with the first live alien bullet
    /// within the hit radius.
    pub open spec fn update_ammo_interactions(self) -> WorldModel {
        self.resolve(Kind::PlayerBullet, Kind::AlienBullet, true)
    }

    /// How many live entities of a kind there are.
    pub open spec fn live(self, kind: Kind) -> int {
        live_count(self.entities, kind, self.entities.len() as int)
    }

    /// A pass keeps the state well formed and within its limit, and the
    /// entities of the kinds that it does not strike as they are.
    pub proof fn lemma_resolve(self, source: Kind, target: Kind, consume: bool, limit: int)
        requires
            self.wf(),
            self.within(limit),
        ensures
            self.resolve(source, target, consume).wf(),
            self.resolve(source, target, consume).within(limit),
            self.resolve(source, target, consume).entities.len() == self.entities.len(),
            forall|k: int|
                0 <= k < self.entities.len() ==> outcome(
                    self.entities[k],
                    #[trigger] self.resolve(source, target, consume).entities[k],
                    source,
                    target,
                    consume,
                ),
    {
        lemma_resolved_keeps(self.entities, source, target, consume, self.entities.len() as int);
        let after = self.resolve(source, target, consume);
        assert forall|i: int| 0 <= i < after.entities.len() implies {
            &&& abs((#[trigger] after.entities[i]).x) <= limit
            &&& abs(after.entities[i].y) <= limit
        } by {
            assert(outcome(self.entities[i], after.entities[i], source, target, consume));
        }
        assert forall|i: int, j: int| 0 <= i < j < after.entities.len() implies after.entities[i].id
            < after.entities[j].id by {
            assert(outcome(self.entities[i], after.entities[i], source, target, consume));
            assert(outcome(self.entities[j], after.entities[j], source, target, consume));
        }
        assert forall|i: int| 0 <= i < after.entities.len() implies 0
            <= (#[trigger] after.entities[i]).id < after.next_id by {
            assert(outcome(self.entities[i], after.entities[i], source, target, consume));
        }
    }
}

impl World {
    /// The index of the first live entity of a kind within the hit radius of
    /// a point, or the number of entities where there is none.
    fn first_target(&self, x: i64, y: i64, target: Kind) -> (j: usize)
        ensures
            j == first_target(self@.entities, x as int, y as int, target, 0),
            j <= self@.entities.len(),
    {
        let n = self.entities.len();
        let mut j: usize = 0;
        while j < n
            invariant
                j <= n,
                n == self@.entities.len(),
                first_target(self@.entities, x as int, y as int, target, j as int) == first_target(
                    self@.entities,
                    x as int,
                    y as int,
                    target,
                    0,
                ),
            decreases n - j,
        {
            let e = self.entities[j];
            assert(e@ == self@.entities[j as int]);
            if e.alive && e.kind == target && hit(x, y, e.x, e.y) {
                return j;
            }
            j = j + 1;
        }
        j
    }

    /// One pass of the resolver.
    fn resolve(&mut self, source: Kind, target: Kind, consume: bool)
        requires
            old(self).wf(),
        ensures
            final(self).wf(),
            final(self)@ == old(self)@.resolve(source, target, consume),
    {
        let ghost before = self@;
        let n = self.entities.len();
        let mut i: usize = 0;
        while i < n
            invariant
                i <= n,
                n == before.entities.len(),
                self.wf(),
                self@ == (WorldModel {
                    entities: resolved(before.entities, source, target, consume, i as int),
                    ..before
                }),
            decreases n - i,
        {
            proof {
                lemma_resolved_keeps(before.entities, source, target, consume, i as int);
            }
            let e = self.entities[i];
            assert(e@ == self@.entities[i as int]);
            if e.alive && e.kind == source {
                let j = self.first_target(e.x, e.y, target);
                if j < n {
                    self.kill(i);
                    if consume {
                        self.kill(j);
                    }
                }
            }
            i = i + 1;
        }
    }

    /// How many live entities of a kind there are.
    pub fn live(&self, kind: Kind) -> (count: usize)
        ensures
            count == self@.live(kind),
    {
        let n = self.entities.len();
        let mut count: usize = 0;
        let mut i: usize = 0;
        while i < n
            invariant
                i <= n,
                n == self@.entities.len(),
                count <= i,
                count == live_count(self@.entities, kind, i as int),
            decreases n - i,
        {
            let e = self.entities[i];
            assert(e@ == self@.entities[i as int]);
            if e.alive && e.kind == kind {
                count = count + 1;
            }
            i = i + 1;
        }
        count
    }

    /// Resolves player bullets against aliens, and tells how many aliens
    /// were destroyed.
    pub fn update_alien_interations(&mut self) -> (destroyed: usize)
        requires
            old(self).wf(),
        ensures
            final(self).wf(),
            final(self)@ == old(self)@.update_alien_interations(),
            destroyed == old(self)@.live(Kind::Alien) - final(self)@.live(Kind::Alien),
    {
        let before = self.live(Kind::Alien);
        self.resolve(Kind::Alien, Kind::PlayerBullet, true);
        proof {
            let n = old(self)@.entities.len() as int;
            lemma_resolved_keeps(old(self)@.entities, Kind::Alien, Kind::PlayerBullet, true, n);
            assert forall|i: int|
                0 <= i < n && (#[trigger] self@.entities[i]).is_live(
                    Kind::Alien,
                ) implies old(self)@.entities[i].is_live(Kind::Alien) by {
                assert(outcome(
                    old(self)@.entities[i],
                    self@.entities[i],
                    Kind::Alien,
                    Kind::PlayerBullet,
                    true,
                ));
            }
            lemma_live_count_fewer(old(self)@.entities, self@.entities, Kind::Alien, n);
        }
        let after = self.live(Kind::Alien);
        before - after
    }

    /// Resolves alien bullets against the player, and tells whether the
    /// player was destroyed.
    pub fn update_bullet_interaction(&mut self) -> (destroyed: bool)
        requires
            old(self).wf(),
            old(self)@.has_player(),
        ensures
            final(self).wf(),
            final(self)@ == old(self)@.update_bullet_interaction(),
            destroyed == !final(self)@.has_player(),
    {
        self.resolve(Kind::Player, Kind::AlienBullet, false);
        !self.has_player()
    }

    /// Resolves player bullets against alien bullets.
    pub fn update_ammo_interactions(&mut self)
        requires
            old(self).wf(),
        ensures
            final(self).wf(),
            final(self)@ == old(self)@.update_ammo_interactions(),
    {
        self.resolve(Kind::PlayerBullet, Kind::AlienBullet, true);
    }
}

} // verus!
