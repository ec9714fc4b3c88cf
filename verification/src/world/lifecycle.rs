//! The end of an entity: marked dead, swept at the end of the tick, or
//! despawned by its identifier.
use super::World;
use crate::entity::{models, Entity, EntityModel, Kind};
use crate::model::{ids_increase, WorldModel};
use crate::units::EXIT_MARGIN;
use vstd::prelude::*;

verus! {

/// Whether a projectile has left the arena: a player bullet through the top,
/// an alien bullet through the bottom.
pub open spec fn exited(e: EntityModel, half_height: int) -> bool {
    ||| e.kind == Kind::PlayerBullet && e.y >= half_height - EXIT_MARGIN
    ||| e.kind == Kind::AlienBullet && e.y < -half_height - EXIT_MARGIN
}

/// Whether the sweeper leaves an entity in the store.
pub open spec fn stays(e: EntityModel, half_height: int) -> bool {
    e.alive && !exited(e, half_height)
}

/// An entity with the given identifier dead, any other as it is.
pub open spec fn marked(e: EntityModel, id: int) -> EntityModel {
    if e.id == id {
        e.killed()
    } else {
        e
    }
}

impl WorldModel {
    /// The state without the dead and without the projectiles that have left
    /// the arena, the others in their order.
    pub open spec fn sweep(self) -> WorldModel {
        WorldModel {
            entities: self.entities.filter(|e: EntityModel| stays(e, self.half_height)),
            ..self
        }
    }

    /// The state with the entity of an identifier dead.
    pub open spec fn mark_dead(self, id: int) -> WorldModel {
        WorldModel { entities: self.entities.map_values(|e: EntityModel| marked(e, id)), ..self }
    }

    /// The state without the entity of an identifier.
    pub open spec fn despawn(self, id: int) -> WorldModel {
        WorldModel { entities: self.entities.filter(|e: EntityModel| e.id != id), ..self }
    }

    /// Whether an identifier is that of an entity in the store.
    pub open spec fn holds(self, id: int) -> bool {
        exists|i: int| 0 <= i < self.entities.len() && (#[trigger] self.entities[i]).id == id
    }
}

/// What a filter leaves was there before, and the filter admits it.
pub proof fn lemma_filter_from(s: Seq<EntityModel>, keep: spec_fn(EntityModel) -> bool)
    ensures
        forall|k: int|
            0 <= k < s.filter(keep).len() ==> keep(#[trigger] s.filter(keep)[k]) && exists|i: int|
                0 <= i < s.len() && s[i] == s.filter(keep)[k],
    decreases s.len(),
{
    reveal(Seq::filter);
    if s.len() > 0 {
        let front = s.drop_last();
        lemma_filter_from(front, keep);
        assert forall|k: int| 0 <= k < s.filter(keep).len() implies keep(
            #[trigger] s.filter(keep)[k],
        ) && exists|i: int| 0 <= i < s.len() && s[i] == s.filter(keep)[k] by {
            if k < front.filter(keep).len() {
                let i = choose|i: int| 0 <= i < front.len() && front[i] == front.filter(keep)[k];
                assert(s[i] == s.filter(keep)[k]);
            } else {
                assert(s[s.len() - 1] == s.filter(keep)[k]);
            }
        }
    }
}

/// What a filter leaves is in the order it was in: of two entities that it
/// leaves, the later one was the later one before.
pub proof fn lemma_filter_order(s: Seq<EntityModel>, keep: spec_fn(EntityModel) -> bool)
    ensures
        forall|a: int, b: int|
            0 <= a < b < s.filter(keep).len() ==> exists|i: int, j: int|
                0 <= i < j < s.len() && s[i] == #[trigger] s.filter(keep)[a] && s[j]
                    == #[trigger] s.filter(keep)[b],
    decreases s.len(),
{
    reveal(Seq::filter);
    if s.len() > 0 {
        let front = s.drop_last();
        let kept = front.filter(keep);
        lemma_filter_order(front, keep);
        lemma_filter_from(front, keep);
        assert forall|a: int, b: int| 0 <= a < b < s.filter(keep).len() implies exists|
            i: int,
            j: int,
        |
            0 <= i < j < s.len() && s[i] == #[trigger] s.filter(keep)[a] && s[j]
                == #[trigger] s.filter(keep)[b] by {
            if b < kept.len() {
                let (i, j) = choose|i: int, j: int|
                    0 <= i < j < front.len() && front[i] == kept[a] && front[j] == kept[b];
                assert(s[i] == s.filter(keep)[a] && s[j] == s.filter(keep)[b]);
            } else {
                let i = choose|i: int| 0 <= i < front.len() && front[i] == kept[a];
                let j = s.len() - 1;
                assert(s[i] == s.filter(keep)[a] && s[j] == s.filter(keep)[b]);
            }
        }
    }
}

/// A filter that admits every entity leaves the store as it is.
pub proof fn lemma_filter_all(s: Seq<EntityModel>, keep: spec_fn(EntityModel) -> bool)
    requires
        forall|i: int| 0 <= i < s.len() ==> keep(#[trigger] s[i]),
    ensures
        s.filter(keep) == s,
    decreases s.len(),
{
    reveal(Seq::filter);
    if s.len() > 0 {
        let front = s.drop_last();
        assert(forall|i: int| 0 <= i < front.len() ==> front[i] == s[i]);
        lemma_filter_all(front, keep);
        assert(front.push(s.last()) =~= s);
    } else {
        assert(s.filter(keep) =~= s);
    }
}

/// Filtering the first `n + 1` entities is filtering the first `n` and then
/// deciding on the next.
pub proof fn lemma_filter_step(s: Seq<EntityModel>, keep: spec_fn(EntityModel) -> bool, n: int)
    requires
        0 <= n < s.len(),
    ensures
        s.take(n + 1).filter(keep) == if keep(s[n]) {
            s.take(n).filter(keep).push(s[n])
        } else {
            s.take(n).filter(keep)
        },
{
    reveal(Seq::filter);
    assert(s.take(n + 1).drop_last() =~= s.take(n));
}

impl WorldModel {
    /// Marking dead what has just been marked dead changes nothing.
    pub proof fn lemma_mark_dead_again(self, id: int)
        ensures
            self.mark_dead(id).mark_dead(id) == self.mark_dead(id),
    {
        assert(self.mark_dead(id).mark_dead(id).entities =~= self.mark_dead(id).entities);
    }

    /// Marking dead changes nothing where the identifier is that of no
    /// entity, or of dead ones only.
    pub proof fn lemma_mark_dead_of_dead(self, id: int)
        requires
            forall|i: int|
                0 <= i < self.entities.len() && (#[trigger] self.entities[i]).id == id
                    ==> !self.entities[i].alive,
        ensures
            self.mark_dead(id) == self,
    {
        assert(self.mark_dead(id).entities =~= self.entities);
    }

    /// Despawning changes nothing where the identifier is that of no entity.
    pub proof fn lemma_despawn_absent(self, id: int)
        requires
            !self.holds(id),
        ensures
            self.despawn(id) == self,
    {
        lemma_filter_all(self.entities, |e: EntityModel| e.id != id);
    }

    /// Sweeping what has just been swept changes nothing.
    pub proof fn lemma_sweep_again(self)
        ensures
            self.sweep().sweep() == self.sweep(),
    {
        let keep = |e: EntityModel| stays(e, self.half_height);
        lemma_filter_from(self.entities, keep);
        lemma_filter_all(self.sweep().entities, keep);
    }

    /// After a despawn the identifier is that of no entity, so that
    /// despawning what has just been despawned changes nothing.
    pub proof fn lemma_despawn_again(self, id: int)
        ensures
            !self.despawn(id).holds(id),
            self.despawn(id).despawn(id) == self.despawn(id),
    {
        lemma_filter_from(self.entities, |e: EntityModel| e.id != id);
        self.despawn(id).lemma_despawn_absent(id);
    }
}

impl World {
    /// Rebuilds the store from the entities that `keep` admits.
    fn retain(&mut self, Ghost(keep): Ghost<spec_fn(EntityModel) -> bool>, kept: Vec<Entity>)
        requires
            old(self).wf(),
            models(kept@) == old(self)@.entities.filter(keep),
        ensures
            final(self).wf(),
            final(self)@ == (WorldModel {
                entities: old(self)@.entities.filter(keep),
                ..old(self)@
            }),
    {
        proof {
            lemma_filter_keeps_order(old(self)@.entities, keep, old(self)@.next_id);
        }
        self.entities = kept;
    }

    /// Removes the dead and the projectiles that have left the arena.
    pub fn sweep(&mut self)
        requires
            old(self).wf(),
        ensures
            final(self).wf(),
            final(self)@ == old(self)@.sweep(),
    {
        let ghost before = self@;
        let half_height = self.resolution.half_height;
        let ghost keep = |e: EntityModel| stays(e, half_height as int);
        let n = self.entities.len();
        let mut kept: Vec<Entity> = Vec::new();
        let mut i: usize = 0;
        assert(before.entities.take(0).filter(keep) =~= Seq::empty()) by {
            reveal(Seq::filter);
        }
        while i < n
            invariant
                i <= n,
                n == before.entities.len(),
                self@ == before,
                half_height == before.half_height,
                keep == (|e: EntityModel| stays(e, half_height as int)),
                models(kept@) =~= before.entities.take(i as int).filter(keep),
            decreases n - i,
        {
            let e = self.entities[i];
            assert(e@ == before.entities[i as int]);
            proof {
                lemma_filter_step(before.entities, keep, i as int);
            }
            let top: i128 = half_height as i128 - EXIT_MARGIN as i128;
            let bottom: i128 = -(half_height as i128) - EXIT_MARGIN as i128;
            let gone = !e.alive || (e.kind == Kind::PlayerBullet && e.y as i128 >= top) || (e.kind
                == Kind::AlienBullet && (e.y as i128) < bottom);
            if !gone {
                kept.push(e);
            }
            i = i + 1;
        }
        assert(before.entities.take(n as int) =~= before.entities);
        self.retain(Ghost(keep), kept);
    }

    /// Looks an entity up by its identifier.
    pub fn get(&self, id: u64) -> (found: Option<Entity>)
        ensures
            found is None <==> !self@.holds(id as int),
            found matches Some(e) ==> e.id == id && exists|i: int|
                0 <= i < self@.entities.len() && #[trigger] self@.entities[i] == e@,
    {
        let n = self.entities.len();
        let mut i: usize = 0;
        while i < n
            invariant
                i <= n,
                n == self@.entities.len(),
                forall|j: int| 0 <= j < i ==> (#[trigger] self@.entities[j]).id != id,
            decreases n - i,
        {
            let e = self.entities[i];
            assert(e@ == self@.entities[i as int]);
            if e.id == id {
                return Some(e);
            }
            i = i + 1;
        }
        None
    }

    /// Marks the entity of an identifier dead. Where it is dead already, or
    /// no entity has the identifier, nothing changes.
    pub fn mark_dead(&mut self, id: u64)
        requires
            old(self).wf(),
        ensures
            final(self).wf(),
            final(self)@ == old(self)@.mark_dead(id as int),
    {
        let ghost before = self@;
        let ghost marks = before.entities.map_values(|e: EntityModel| marked(e, id as int));
        let n = self.entities.len();
        let mut i: usize = 0;
        while i < n
            invariant
                i <= n,
                n == before.entities.len(),
                before.wf(),
                marks == before.entities.map_values(|e: EntityModel| marked(e, id as int)),
                self@.pixel_ratio == old(self)@.pixel_ratio,
                self@.entities.len() == n,
                forall|j: int| 0 <= j < i ==> self@.entities[j] == marks[j],
                forall|j: int| i <= j < n ==> self@.entities[j] == before.entities[j],
                self@.direction == before.direction,
                self@.shift_aliens_down == before.shift_aliens_down,
                self@.dist_from_boundary == before.dist_from_boundary,
                self@.half_width == before.half_width,
                self@.half_height == before.half_height,
                self@.next_id == before.next_id,
            decreases n - i,
        {
            let e = self.entities[i];
            assert(e@ == before.entities[i as int]);
            if e.id == id {
                self.entities[i] = Entity { alive: false, ..e };
            }
            assert(self@.entities[i as int] == marks[i as int]);
            i = i + 1;
        }
        assert(self@.entities =~= marks);
    }

    /// Removes the entity of an identifier at once. Where no entity has the
    /// identifier, nothing changes.
    pub fn despawn(&mut self, id: u64)
        requires
            old(self).wf(),
        ensures
            final(self).wf(),
            final(self)@ == old(self)@.despawn(id as int),
    {
        let ghost before = self@;
        let ghost keep = |e: EntityModel| e.id != id as int;
        let n = self.entities.len();
        let mut kept: Vec<Entity> = Vec::new();
        let mut i: usize = 0;
        assert(before.entities.take(0).filter(keep) =~= Seq::empty()) by {
            reveal(Seq::filter);
        }
        while i < n
            invariant
                i <= n,
                n == before.entities.len(),
                self@ == before,
                keep == (|e: EntityModel| e.id != id as int),
                models(kept@) =~= before.entities.take(i as int).filter(keep),
            decreases n - i,
        {
            let e = self.entities[i];
            assert(e@ == before.entities[i as int]);
            proof {
                lemma_filter_step(before.entities, keep, i as int);
            }
            if e.id != id {
                kept.push(e);
            }
            i = i + 1;
        }
        assert(before.entities.take(n as int) =~= before.entities);
        self.retain(Ghost(keep), kept);
    }
}

/// What a filter leaves is in the order it was in, so identifiers that
/// increased still do.
pub proof fn lemma_filter_keeps_order(
    s: Seq<EntityModel>,
    keep: spec_fn(EntityModel) -> bool,
    next_id: int,
)
    requires
        ids_increase(s, next_id),
    ensures
        ids_increase(s.filter(keep), next_id),
        forall|k: int|
            0 <= k < s.filter(keep).len() ==> s.len() > 0 && (#[trigger] s.filter(keep)[k]).id
                <= s.last().id,
    decreases s.len(),
{
    reveal(Seq::filter);
    if s.len() > 0 {
        let front = s.drop_last();
        lemma_filter_keeps_order(front, keep, next_id);
        assert(forall|i: int| 0 <= i < front.len() ==> front[i] == s[i]);
        if front.len() > 0 {
            assert(front.last() == s[front.len() - 1]);
        }
    }
}

} // verus!
