//! A headless epidemic engine: agents move in a walled arena, infect their
//! neighbours and resolve to recovery or death on a per-agent timer.
//!
//! Lengths are integers in a unit that the caller chooses (a fraction of a
//! pixel, say); chances are counted out of [`config::CHANCE_SCALE`].
pub mod agent;
pub mod config;
pub mod laws;
pub mod population;
pub mod random;
pub mod simulation;
