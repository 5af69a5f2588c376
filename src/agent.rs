use vstd::prelude::*;
use crate::config::{Config, MAX_EXTENT, CHANCE_SCALE};

verus! {

/// The four mutually exclusive health states.
#[derive(Clone, Copy, Debug, PartialEq, Eq, Structural)]
pub enum Health {
    Susceptible,
    Infected,
    Recovered,
    Dead,
}

/// One moving agent.
///
/// Its fate (`fated_to_die`) and its infection length
/// (`recovery_deadline_ticks`) are drawn once, when the agent is created, and
/// are never drawn again: they are only read while the agent is Infected.
#[derive(Clone, Copy, Debug, PartialEq, Eq, Structural)]
pub struct Agent {
    /// Stays the same for the agent's whole life.
    pub id: u64,
    pub x: i64,
    pub y: i64,
    pub vx: i64,
    pub vy: i64,
    pub health: Health,
    /// Ticks spent Infected so far.
    pub infected_duration_ticks: u64,
    /// Once `infected_duration_ticks` reaches this, the infection resolves.
    pub recovery_deadline_ticks: u64,
    /// Whether the infection ends in death rather than recovery.
    pub fated_to_die: bool,
}

pub open spec fn abs(v: int) -> int {
    if v < 0 { -v } else { v }
}

/// One axis of an agent that kinematics keeps bounded: the position lies at
/// most one step outside the band `radius..=bound - radius`, and where it is
/// outside, the velocity does not point further out.
pub open spec fn axis_ok(p: int, v: int, radius: int, bound: int) -> bool {
    &&& abs(v) <= MAX_EXTENT
    &&& radius - abs(v) <= p <= bound - radius + abs(v)
    &&& (p < radius ==> v >= 0)
    &&& (p > bound - radius ==> v <= 0)
}

/// Whether a position touches or crosses a wall of `0..=bound`.
pub open spec fn hits_wall(p: int, radius: int, bound: int) -> bool {
    p + radius > bound || p - radius < 0
}

/// The velocity after a step that ends at `p`.
pub open spec fn reflected(p: int, v: int, radius: int, bound: int) -> int {
    if hits_wall(p, radius, bound) { -v } else { v }
}

/// Whether one axis is bounded as [`axis_ok`] says.
fn axis_fits(p: i64, v: i64, radius: i64, bound: i64) -> (r: bool)
    requires
        0 <= radius <= MAX_EXTENT,
        0 <= bound <= MAX_EXTENT,
    ensures
        r == axis_ok(p as int, v as int, radius as int, bound as int),
{
    if v < -MAX_EXTENT || v > MAX_EXTENT {
        return false;
    }
    let av: i64 = if v < 0 { -v } else { v };
    radius - av <= p && p <= bound - radius + av && (p >= radius || v >= 0) && (p <= bound - radius || v <= 0)
}

impl Agent {
    /// Whether the agent lies where kinematics can keep it (see [`Agent::placed`]).
    pub fn is_placed(&self, c: &Config) -> (r: bool)
        requires
            c.valid(),
        ensures
            r == self.placed(*c),
    {
        axis_fits(self.x, self.vx, c.radius, c.width) && axis_fits(self.y, self.vy, c.radius, c.height)
    }

    /// The agent lies where kinematics can keep it, in the arena of `c`.
    pub open spec fn placed(&self, c: Config) -> bool {
        &&& axis_ok(self.x as int, self.vx as int, c.radius as int, c.width as int)
        &&& axis_ok(self.y as int, self.vy as int, c.radius as int, c.height as int)
    }

    /// The agent after one tick of movement.
    pub open spec fn moved(self, c: Config) -> Agent {
        let x = self.x + self.vx;
        let y = self.y + self.vy;
        Agent {
            x: x as i64,
            y: y as i64,
            vx: reflected(x, self.vx as int, c.radius as int, c.width as int) as i64,
            vy: reflected(y, self.vy as int, c.radius as int, c.height as int) as i64,
            ..self
        }
    }

    /// Moves the agent by one tick's velocity, then turns back each velocity
    /// component whose axis now touches or crosses a wall. The position is
    /// not pulled back inside: the next step does that.
    pub fn advance(&mut self, c: &Config)
        requires
            c.valid(),
            old(self).placed(*c),
        ensures
            *final(self) == old(self).moved(*c),
            final(self).placed(*c),
    {
        proof {
            lemma_axis_step(self.x as int, self.vx as int, c.radius as int, c.width as int);
            lemma_axis_step(self.y as int, self.vy as int, c.radius as int, c.height as int);
        }
        self.x = self.x + self.vx;
        self.y = self.y + self.vy;
        if self.x + c.radius > c.width || self.x - c.radius < 0 {
            self.vx = -self.vx;
        }
        if self.y + c.radius > c.height || self.y - c.radius < 0 {
            self.vy = -self.vy;
        }
    }
}

/// One step of one axis keeps the axis bounded.
pub proof fn lemma_axis_step(p: int, v: int, radius: int, bound: int)
    requires
        0 <= radius,
        2 * radius < bound <= MAX_EXTENT,
        axis_ok(p, v, radius, bound),
    ensures
        axis_ok(p + v, reflected(p + v, v, radius, bound), radius, bound),
        -3 * MAX_EXTENT <= p + v <= 3 * MAX_EXTENT,
{
}

/// Whether a chance drawn as `draw` (out of [`CHANCE_SCALE`]) comes up for
/// the rate `rate`.
pub open spec fn comes_up(draw: u64, rate: u64) -> bool {
    draw < rate
}

/// The agent that `draws` describe: the position is offset from the radius
/// by `px` and `py`, each velocity component offset from `-max_speed` by `sx`
/// and `sy` (a zero component becomes 1), the deadline offset from
/// `base - jitter` by `jit`, and the fate decided by `fate`.
pub open spec fn agent_from(c: Config, id: u64, health: Health, px: u64, py: u64, sx: u64, sy: u64, jit: u64, fate: u64) -> Agent {
    let vx = sx - c.max_speed;
    let vy = sy - c.max_speed;
    Agent {
        id,
        x: (c.radius + px) as i64,
        y: (c.radius + py) as i64,
        vx: if vx == 0 { 1 } else { vx as i64 },
        vy: if vy == 0 { 1 } else { vy as i64 },
        health,
        infected_duration_ticks: 0,
        recovery_deadline_ticks: (c.recovery_base_ticks - c.recovery_jitter_ticks + jit) as u64,
        fated_to_die: comes_up(fate, c.fatality_rate),
    }
}

/// The draws that [`make_agent`] accepts: each lies in the range it is drawn from.
pub open spec fn draws_in_range(c: Config, px: u64, py: u64, sx: u64, sy: u64, jit: u64, fate: u64) -> bool {
    &&& px < c.width - 2 * c.radius
    &&& py < c.height - 2 * c.radius
    &&& sx <= 2 * c.max_speed
    &&& sy <= 2 * c.max_speed
    &&& jit <= 2 * c.recovery_jitter_ticks
    &&& fate < CHANCE_SCALE
}

/// Builds the agent that a set of uniform draws describes (see [`agent_from`]).
pub fn make_agent(c: &Config, id: u64, health: Health, px: u64, py: u64, sx: u64, sy: u64, jit: u64, fate: u64) -> (a: Agent)
    requires
        c.valid(),
        draws_in_range(*c, px, py, sx, sy, jit, fate),
    ensures
        a == agent_from(*c, id, health, px, py, sx, sy, jit, fate),
        a.placed(*c),
{
    let mut vx: i64 = sx as i64 - c.max_speed;
    let mut vy: i64 = sy as i64 - c.max_speed;
    if vx == 0 {
        vx = 1;
    }
    if vy == 0 {
        vy = 1;
    }
    Agent {
        id,
        x: c.radius + px as i64,
        y: c.radius + py as i64,
        vx,
        vy,
        health,
        infected_duration_ticks: 0,
        recovery_deadline_ticks: c.recovery_base_ticks - c.recovery_jitter_ticks + jit,
        fated_to_die: fate < c.fatality_rate,
    }
}

} // verus!
