//! The entities of the simulation and their mathematical model.
use vstd::prelude::*;

verus! {

/// What an entity is.
#[derive(Clone, Copy, Debug, PartialEq, Eq, Structural)]
pub enum Kind {
    Alien,
    Player,
    PlayerBullet,
    AlienBullet,
}

/// One entity of the store.
///
/// `velocity` is the speed multiplier of a projectile and zero for the others.
#[derive(Clone, Copy, Debug, PartialEq, Eq, Structural)]
pub struct Entity {
    pub id: u64,
    pub kind: Kind,
    pub x: i64,
    pub y: i64,
    pub velocity: i64,
    pub alive: bool,
}

/// An entity over unbounded integers.
pub struct EntityModel {
    pub id: int,
    pub kind: Kind,
    pub x: int,
    pub y: int,
    pub velocity: int,
    pub alive: bool,
}

impl View for Entity {
    type V = EntityModel;

    open spec fn view(&self) -> EntityModel {
        EntityModel {
            id: self.id as int,
            kind: self.kind,
            x: self.x as int,
            y: self.y as int,
            velocity: self.velocity as int,
            alive: self.alive,
        }
    }
}

impl EntityModel {
    /// A live entity of the given kind.
    pub open spec fn is_live(self, kind: Kind) -> bool {
        self.alive && self.kind == kind
    }

    /// The same entity, dead.
    pub open spec fn killed(self) -> EntityModel {
        EntityModel { alive: false, ..self }
    }

    /// The same entity at another place.
    pub open spec fn at(self, x: int, y: int) -> EntityModel {
        EntityModel { x, y, ..self }
    }
}

/// The models of a sequence of entities.
pub open spec fn models(s: Seq<Entity>) -> Seq<EntityModel> {
    s.map_values(|e: Entity| e@)
}

} // verus!
