//! Decision engine for a turn-based territorial-conquest game played on a
//! complete graph of factories.
//!
//! The library holds the world model, the deterministic per-tick simulation,
//! a heuristic evaluator and the strategies that choose the orders of a tick.

/// The three sides of the game.
pub mod owner;
/// Factories, troops and the limits of the world.
pub mod entity;
/// The transition from one tick to the next.
pub mod simulation;
/// The link table and the nearest-first neighbour lists.
pub mod distance;
/// The state of a game and its snapshot updates.
pub mod game;
/// `max_strategy`, `neutral_first_strategy` and `swarm_strategy`.
pub mod strategy;
/// The lookahead and the top-level `defend_strategy`.
pub mod defend;
/// The choice of bomb targets.
pub mod bomb;
/// The heuristic score of a world.
pub mod evaluate;
/// Random numbers and `random_strategy`.
pub mod random;
/// Laws of the simulation that relate several ticks or worlds.
pub mod laws;
/// The output line of a tick and the factory report.
pub mod output;
