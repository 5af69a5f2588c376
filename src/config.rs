use vstd::prelude::*;

verus! {

/// Chances (infection per contact, fatality) are counted out of this many.
pub const CHANCE_SCALE: u64 = 10_000;

/// Largest arena side, radius, infection radius or speed accepted.
pub const MAX_EXTENT: i64 = 100_000_000;

/// Largest population accepted.
pub const MAX_POPULATION: u64 = 10_000_000;

/// Largest base recovery duration, in ticks.
pub const MAX_TICKS: u64 = 1_000_000_000;

/// The parameters of a run.
#[derive(Clone, Copy, Debug, PartialEq, Eq, Structural)]
pub struct Config {
    /// Arena width: the arena spans `0..=width` horizontally.
    pub width: i64,
    /// Arena height: the arena spans `0..=height` vertically.
    pub height: i64,
    /// The radius every agent is drawn with.
    pub radius: i64,
    /// How far beyond its radius an agent can infect.
    pub infection_radius: i64,
    /// Largest magnitude of each initial velocity component.
    pub max_speed: i64,
    /// Number of agents.
    pub population: u64,
    /// Number of agents that start Infected.
    pub initial_infected: u64,
    /// Chance, out of [`CHANCE_SCALE`], that a contact transmits.
    pub infection_rate: u64,
    /// Chance, out of [`CHANCE_SCALE`], that an agent is fated to die.
    pub fatality_rate: u64,
    /// Base infection duration, in ticks.
    pub recovery_base_ticks: u64,
    /// Largest deviation from the base duration, in ticks.
    pub recovery_jitter_ticks: u64,
}

/// Why a configuration is refused.
#[derive(Clone, Copy, Debug, PartialEq, Eq, Structural)]
pub enum ConfigError {
    /// A radius, an infection radius or a speed is negative.
    NegativeLength,
    /// A length, the population or the base duration exceeds its limit.
    TooLarge,
    /// The arena is not wider and taller than an agent.
    ArenaTooSmall,
    /// More agents start Infected than there are agents.
    TooManyInitialInfected,
    /// A chance exceeds [`CHANCE_SCALE`].
    ChanceOutOfRange,
    /// The jitter exceeds the base duration, so a deadline could be negative.
    JitterExceedsBase,
}

/// The first rule that `c` breaks, in the order in which they are tested.
pub open spec fn config_error(c: Config) -> Option<ConfigError> {
    if c.radius < 0 || c.infection_radius < 0 || c.max_speed < 0 {
        Some(ConfigError::NegativeLength)
    } else if c.width > MAX_EXTENT || c.height > MAX_EXTENT || c.radius > MAX_EXTENT
        || c.infection_radius > MAX_EXTENT || c.max_speed > MAX_EXTENT
        || c.population > MAX_POPULATION || c.recovery_base_ticks > MAX_TICKS {
        Some(ConfigError::TooLarge)
    } else if c.width <= 2 * c.radius || c.height <= 2 * c.radius {
        Some(ConfigError::ArenaTooSmall)
    } else if c.initial_infected > c.population {
        Some(ConfigError::TooManyInitialInfected)
    } else if c.infection_rate > CHANCE_SCALE || c.fatality_rate > CHANCE_SCALE {
        Some(ConfigError::ChanceOutOfRange)
    } else if c.recovery_jitter_ticks > c.recovery_base_ticks {
        Some(ConfigError::JitterExceedsBase)
    } else {
        None
    }
}

impl Config {
    /// A configuration that the engine accepts.
    pub open spec fn valid(&self) -> bool {
        config_error(*self).is_none()
    }

    /// Accepts the configuration, or names the first rule it breaks.
    pub fn validate(&self) -> (r: Result<(), ConfigError>)
        ensures
            r is Ok <==> self.valid(),
            r is Err ==> config_error(*self) == Some(r->Err_0),
    {
        if self.radius < 0 || self.infection_radius < 0 || self.max_speed < 0 {
            Err(ConfigError::NegativeLength)
        } else if self.width > MAX_EXTENT || self.height > MAX_EXTENT || self.radius > MAX_EXTENT
            || self.infection_radius > MAX_EXTENT || self.max_speed > MAX_EXTENT
            || self.population > MAX_POPULATION || self.recovery_base_ticks > MAX_TICKS {
            Err(ConfigError::TooLarge)
        } else if self.width <= 2 * self.radius || self.height <= 2 * self.radius {
            Err(ConfigError::ArenaTooSmall)
        } else if self.initial_infected > self.population {
            Err(ConfigError::TooManyInitialInfected)
        } else if self.infection_rate > CHANCE_SCALE || self.fatality_rate > CHANCE_SCALE {
            Err(ConfigError::ChanceOutOfRange)
        } else if self.recovery_jitter_ticks > self.recovery_base_ticks {
            Err(ConfigError::JitterExceedsBase)
        } else {
            Ok(())
        }
    }
}

} // verus!
