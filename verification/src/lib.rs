//! A fixed-formation shooter, simulated tick by tick.
//!
//! A grid of aliens sweeps across a bounded arena and drops at its side
//! bounds, a player moves and fires, and the projectiles of both sides hit
//! what they meet. [`world::World`] holds a session; one call of its `tick`
//! runs the formation controller, the player, the projectiles, the
//! collision resolver and the sweeper, in this order.
//!
//! The simulation counts in whole numbers: positions in sub-units and time
//! in time units, [`units::UNIT`] of them to one arena unit and to one
//! second. [`model::WorldModel`] is the same state over unbounded integers;
//! the contracts of the passes and what is proved of them are stated there.
pub mod entity;
pub mod model;
pub mod resolution;
pub mod rng;
pub mod units;
pub mod world;
