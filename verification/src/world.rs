//! The entity store and the state that the passes of a tick share.
use self::alien::AlienManager;
use crate::entity::{models, Entity, Kind};
use crate::model::{first_live_from, WorldModel};
use crate::resolution::Resolution;
use vstd::prelude::*;

pub mod alien;
pub mod bullet;
pub mod collision;
pub mod lifecycle;
pub mod player;
pub mod session;
pub mod tick;

verus! {

/// A session: the arena, the formation controller and every entity in play.
pub struct World {
    entities: Vec<Entity>,
    alien_manager: AlienManager,
    resolution: Resolution,
    next_id: u64,
}

impl View for World {
    type V = WorldModel;

    closed spec fn view(&self) -> WorldModel {
        WorldModel {
            entities: models(self.entities@),
            direction: self.alien_manager.direction as int,
            shift_aliens_down: self.alien_manager.shift_aliens_down,
            dist_from_boundary: self.alien_manager.dist_from_boundary as int,
            half_width: self.resolution.half_width as int,
            half_height: self.resolution.half_height as int,
            pixel_ratio: self.resolution.pixel_ratio as int,
            next_id: self.next_id as int,
        }
    }
}

impl World {
    /// The invariant of the store, which every function here keeps.
    pub open spec fn wf(&self) -> bool {
        self@.wf()
    }

    /// An empty arena of the given size, the formation heading right.
    ///
    /// Negative half extents are taken as zero.
    pub fn new(resolution: Resolution) -> (world: World)
        ensures
            world.wf(),
            world@ == (WorldModel {
                entities: Seq::empty(),
                direction: 1,
                shift_aliens_down: false,
                dist_from_boundary: 0,
                half_width: if resolution.half_width < 0 {
                    0
                } else {
                    resolution.half_width as int
                },
                half_height: if resolution.half_height < 0 {
                    0
                } else {
                    resolution.half_height as int
                },
                pixel_ratio: resolution.pixel_ratio as int,
                next_id: 0,
            }),
    {
        let half_width: i64 = if resolution.half_width < 0 {
            0
        } else {
            resolution.half_width
        };
        let half_height: i64 = if resolution.half_height < 0 {
            0
        } else {
            resolution.half_height
        };
        let world = World {
            entities: Vec::new(),
            alien_manager: AlienManager {
                direction: 1,
                shift_aliens_down: false,
                dist_from_boundary: 0,
            },
            resolution: Resolution { half_width, half_height, pixel_ratio: resolution.pixel_ratio },
            next_id: 0,
        };
        assert(world@.entities =~= Seq::empty());
        world
    }

    /// The entities in play, oldest first.
    pub fn entities(&self) -> (list: &Vec<Entity>)
        ensures
            models(list@) == self@.entities,
    {
        &self.entities
    }

    /// The state of the formation controller.
    pub fn alien_manager(&self) -> (manager: AlienManager)
        ensures
            manager.direction == self@.direction,
            manager.shift_aliens_down == self@.shift_aliens_down,
            manager.dist_from_boundary == self@.dist_from_boundary,
    {
        self.alien_manager
    }

    /// The arena.
    pub fn resolution(&self) -> (resolution: Resolution)
        ensures
            resolution.half_width == self@.half_width,
            resolution.half_height == self@.half_height,
            resolution.pixel_ratio == self@.pixel_ratio,
    {
        self.resolution
    }

    /// The identifier that the next entity gets.
    pub fn next_id(&self) -> (id: u64)
        ensures
            id == self@.next_id,
    {
        self.next_id
    }

    /// Adds an entity, alive, and returns its identifier.
    pub fn spawn(&mut self, kind: Kind, x: i64, y: i64, velocity: i64) -> (id: u64)
        requires
            old(self).wf(),
            old(self)@.next_id < u64::MAX,
        ensures
            final(self).wf(),
            final(self)@ == old(self)@.spawn(kind, x as int, y as int, velocity as int),
            id == old(self)@.next_id,
    {
        let id = self.next_id;
        self.entities.push(Entity { id, kind, x, y, velocity, alive: true });
        self.next_id = id + 1;
        assert(self@.entities =~= old(self)@.spawn(
            kind,
            x as int,
            y as int,
            velocity as int,
        ).entities);
        id
    }

    /// Puts the entity at an index somewhere else.
    pub(crate) fn place(&mut self, i: usize, x: i64, y: i64)
        requires
            old(self).wf(),
            i < old(self)@.entities.len(),
        ensures
            final(self).wf(),
            final(self)@ == old(self)@.placed(i as int, x as int, y as int),
    {
        let e = self.entities[i];
        self.entities[i] = Entity { x, y, ..e };
        assert(self@.entities =~= old(self)@.placed(i as int, x as int, y as int).entities);
    }

    /// Marks the entity at an index dead.
    pub(crate) fn kill(&mut self, i: usize)
        requires
            old(self).wf(),
            i < old(self)@.entities.len(),
        ensures
            final(self).wf(),
            final(self)@ == old(self)@.killed(i as int),
    {
        let e = self.entities[i];
        self.entities[i] = Entity { alive: false, ..e };
        assert(self@.entities =~= old(self)@.killed(i as int).entities);
    }

    /// The index of the first live player, or the number of entities where
    /// there is none.
    pub fn player_index(&self) -> (p: usize)
        ensures
            p == self@.player_index(),
            p <= self@.entities.len(),
            self@.has_player() <==> p < self@.entities.len(),
            self@.has_player() ==> self@.entities[p as int].is_live(Kind::Player),
    {
        let mut i: usize = 0;
        while i < self.entities.len()
            invariant
                i <= self.entities.len(),
                first_live_from(self@.entities, Kind::Player, i as int) == first_live_from(
                    self@.entities,
                    Kind::Player,
                    0,
                ),
            decreases self.entities.len() - i,
        {
            let e = self.entities[i];
            if e.alive && e.kind == Kind::Player {
                return i;
            }
            i = i + 1;
        }
        i
    }
}

} // verus!
