use vstd::prelude::*;
use crate::agent::{Agent, Health, agent_from, draws_in_range, make_agent};
use crate::config::{Config, ConfigError, CHANCE_SCALE, config_error};
use crate::population::{Population, Snapshot, tick, all_placed};
use crate::random::{draw_below, seeded_rng};

verus! {

/// Every chance in `d` lies on the chance scale.
pub open spec fn chances(d: Seq<Seq<u64>>) -> bool {
    forall|i: int, k: int| 0 <= i < d.len() && 0 <= k < d[i].len() ==> #[trigger] d[i][k] < CHANCE_SCALE
}

/// `d` has a row of at least `cols` chances for each of `nrows` transmitters.
pub open spec fn covers(d: Seq<Seq<u64>>, nrows: nat, cols: nat) -> bool {
    &&& d.len() >= nrows
    &&& forall|i: int| 0 <= i < d.len() ==> (#[trigger] d[i]).len() >= cols
}

/// `a` is an agent that creation can give for `id` and `health`.
pub open spec fn created(c: Config, id: u64, health: Health, a: Agent) -> bool {
    exists|px: u64, py: u64, sx: u64, sy: u64, jit: u64, fate: u64|
        draws_in_range(c, px, py, sx, sy, jit, fate) && a == agent_from(c, id, health, px, py, sx, sy, jit, fate)
}

/// Creates an agent at a uniformly drawn position at least a radius from
/// every wall, with velocity components drawn uniformly from
/// `-max_speed..=max_speed` (a zero component becomes 1), a deadline drawn
/// uniformly from `base - jitter..=base + jitter`, and a fate that comes up
/// with the fatality rate.
pub fn create_agent(c: &Config, rng: &mut rand::rngs::StdRng, id: u64, health: Health) -> (a: Agent)
    requires
        c.valid(),
    ensures
        created(*c, id, health, a),
        a.placed(*c),
{
    let px = draw_below(rng, (c.width - 2 * c.radius) as u64);
    let py = draw_below(rng, (c.height - 2 * c.radius) as u64);
    let sx = draw_below(rng, (2 * c.max_speed + 1) as u64);
    let sy = draw_below(rng, (2 * c.max_speed + 1) as u64);
    let jit = draw_below(rng, 2 * c.recovery_jitter_ticks + 1);
    let fate = draw_below(rng, CHANCE_SCALE);
    let a = make_agent(c, id, health, px, py, sx, sy, jit, fate);
    assert(draws_in_range(*c, px, py, sx, sy, jit, fate));
    a
}

/// A freshly seeded population: agents `0..initial_infected` Infected, the
/// rest up to `population` Susceptible, each with the id of its place.
pub open spec fn seeded(c: Config, p: Snapshot) -> bool {
    &&& p.infected.len() == c.initial_infected
    &&& p.susceptible.len() == c.population - c.initial_infected
    &&& p.recovered.len() == 0
    &&& p.dead.len() == 0
    &&& forall|k: int| 0 <= k < p.infected.len() ==> created(c, k as u64, Health::Infected, #[trigger] p.infected[k])
    &&& forall|k: int| 0 <= k < p.susceptible.len() ==>
            created(c, (c.initial_infected + k) as u64, Health::Susceptible, #[trigger] p.susceptible[k])
}

/// Creates the agents of a run (see [`seeded`]).
pub fn populate(c: &Config, rng: &mut rand::rngs::StdRng) -> (p: Population)
    requires
        c.valid(),
    ensures
        seeded(*c, p@),
        p.wf(*c),
{
    let mut infected: Vec<Agent> = Vec::new();
    let mut susceptible: Vec<Agent> = Vec::new();
    let mut id: u64 = 0;
    while id < c.initial_infected
        invariant
            c.valid(),
            id <= c.initial_infected,
            infected.len() == id,
            forall|k: int| 0 <= k < infected.len() ==> created(*c, k as u64, Health::Infected, #[trigger] infected@[k]),
            all_placed(infected@, Health::Infected, *c),
        decreases c.initial_infected - id,
    {
        let a = create_agent(c, rng, id, Health::Infected);
        infected.push(a);
        id = id + 1;
    }
    while id < c.population
        invariant
            c.valid(),
            c.initial_infected <= id <= c.population,
            susceptible.len() == id - c.initial_infected,
            forall|k: int| 0 <= k < susceptible.len() ==>
                created(*c, (c.initial_infected + k) as u64, Health::Susceptible, #[trigger] susceptible@[k]),
            all_placed(susceptible@, Health::Susceptible, *c),
        decreases c.population - id,
    {
        let a = create_agent(c, rng, id, Health::Susceptible);
        susceptible.push(a);
        id = id + 1;
    }
    Population { susceptible, infected, recovered: Vec::new(), dead: Vec::new() }
}

/// Draws `nrows` rows of `cols` chances each.
pub fn draw_chances(rng: &mut rand::rngs::StdRng, nrows: usize, cols: usize) -> (d: Vec<Vec<u64>>)
    ensures
        d.len() == nrows,
        forall|i: int| 0 <= i < d.len() ==> (#[trigger] d[i]).len() == cols,
        forall|i: int, k: int| 0 <= i < d.len() && 0 <= k < d[i].len() ==> #[trigger] d[i][k] < CHANCE_SCALE,
{
    let mut d: Vec<Vec<u64>> = Vec::new();
    for i in 0..nrows
        invariant
            d.len() == i,
            forall|j: int| 0 <= j < d.len() ==> (#[trigger] d[j]).len() == cols,
            forall|j: int, k: int| 0 <= j < d.len() && 0 <= k < d[j].len() ==> #[trigger] d[j][k] < CHANCE_SCALE,
    {
        let mut row: Vec<u64> = Vec::new();
        for k in 0..cols
            invariant
                row.len() == k,
                forall|m: int| 0 <= m < row.len() ==> #[trigger] row[m] < CHANCE_SCALE,
        {
            let x = draw_below(rng, CHANCE_SCALE);
            row.push(x);
        }
        d.push(row);
    }
    d
}

/// A run: its configuration, its agents, and the generator that owns its
/// chances, so that a seed fixes the whole run.
pub struct Simulation {
    config: Config,
    population: Population,
    rng: rand::rngs::StdRng,
}

impl Simulation {
    /// The configuration is accepted and the agents are placed in its arena.
    pub closed spec fn wf(&self) -> bool {
        self.config.valid() && self.population.wf(self.config)
    }

    pub closed spec fn config_spec(&self) -> Config {
        self.config
    }

    /// The agents as mathematical sequences.
    pub closed spec fn snapshot(&self) -> Snapshot {
        self.population@
    }

    /// Starts a run of `config` whose chances are fixed by `seed`, or names
    /// the first rule that `config` breaks.
    pub fn new(config: Config, seed: u64) -> (r: Result<Simulation, ConfigError>)
        ensures
            r is Ok <==> config.valid(),
            r is Err ==> config_error(config) == Some(r->Err_0),
            r matches Ok(s) ==> s.wf() && s.config_spec() == config && seeded(config, s.snapshot()),
    {
        match config.validate() {
            Err(e) => Err(e),
            Ok(()) => {
                let mut rng = seeded_rng(seed);
                let population = populate(&config, &mut rng);
                Ok(Simulation { config, population, rng })
            },
        }
    }

    /// Discards every agent and seeds anew with `config`; a refused
    /// configuration leaves the run as it was.
    pub fn reset(&mut self, config: Config) -> (r: Result<(), ConfigError>)
        requires
            old(self).wf(),
        ensures
            final(self).wf(),
            r is Ok <==> config.valid(),
            r is Err ==> config_error(config) == Some(r->Err_0) && final(self).config_spec() == old(self).config_spec()
                && final(self).snapshot() == old(self).snapshot(),
            r is Ok ==> final(self).config_spec() == config && seeded(config, final(self).snapshot()),
    {
        match config.validate() {
            Err(e) => Err(e),
            Ok(()) => {
                let population = populate(&config, &mut self.rng);
                self.config = config;
                self.population = population;
                Ok(())
            },
        }
    }

    /// Advances the run by one tick, drawing one chance for each pair of an
    /// Infected and a Susceptible agent (see [`tick`]).
    pub fn step(&mut self)
        requires
            old(self).wf(),
        ensures
            final(self).wf(),
            final(self).config_spec() == old(self).config_spec(),
            exists|d: Seq<Seq<u64>>|
                chances(d) && covers(d, old(self).snapshot().infected.len(), old(self).snapshot().susceptible.len())
                && final(self).snapshot() == #[trigger] tick(old(self).snapshot(), old(self).config_spec(), d),
    {
        let d = draw_chances(&mut self.rng, self.population.infected.len(), self.population.susceptible.len());
        self.population.step_with_draws(&self.config, &d);
        let ghost dr = crate::population::rows(d@);
        assert(chances(dr));
        assert(covers(dr, old(self).snapshot().infected.len(), old(self).snapshot().susceptible.len()));
    }

    /// The configuration of the run.
    pub fn config(&self) -> (r: &Config)
        ensures
            *r == self.config_spec(),
    {
        &self.config
    }

    /// The agents, for reading.
    pub fn population(&self) -> (r: &Population)
        ensures
            r@ == self.snapshot(),
    {
        &self.population
    }
}

} // verus!
