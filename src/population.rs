use vstd::prelude::*;
use vstd::multiset::Multiset;
use crate::agent::{Agent, Health, comes_up};
use crate::config::{Config, MAX_EXTENT};

verus! {

/// The four collections as mathematical sequences.
pub ghost struct Snapshot {
    pub susceptible: Seq<Agent>,
    pub infected: Seq<Agent>,
    pub recovered: Seq<Agent>,
    pub dead: Seq<Agent>,
}

/// The agents of a run, one collection per health state, each in the order
/// in which its agents entered it.
#[derive(Clone, Debug)]
pub struct Population {
    pub susceptible: Vec<Agent>,
    pub infected: Vec<Agent>,
    pub recovered: Vec<Agent>,
    pub dead: Vec<Agent>,
}

impl View for Population {
    type V = Snapshot;

    open spec fn view(&self) -> Snapshot {
        Snapshot {
            susceptible: self.susceptible@,
            infected: self.infected@,
            recovered: self.recovered@,
            dead: self.dead@,
        }
    }
}

/// Every agent of `s` has health `h` and lies where kinematics keeps it.
pub open spec fn all_placed(s: Seq<Agent>, h: Health, c: Config) -> bool {
    forall|k: int| 0 <= k < s.len() ==> (#[trigger] s[k]).health == h && s[k].placed(c)
}

impl Snapshot {
    /// Each collection holds agents of its own health state only, all placed.
    pub open spec fn wf(self, c: Config) -> bool {
        &&& all_placed(self.susceptible, Health::Susceptible, c)
        &&& all_placed(self.infected, Health::Infected, c)
        &&& all_placed(self.recovered, Health::Recovered, c)
        &&& all_placed(self.dead, Health::Dead, c)
    }

    /// The number of agents.
    pub open spec fn total(self) -> nat {
        self.susceptible.len() + self.infected.len() + self.recovered.len() + self.dead.len()
    }

    /// The ids of all agents, with multiplicity.
    pub open spec fn roster(self) -> Multiset<u64> {
        ids(self.susceptible).to_multiset()
            .add(ids(self.infected).to_multiset())
            .add(ids(self.recovered).to_multiset())
            .add(ids(self.dead).to_multiset())
    }
}

/// The ids of `s`, in order.
pub open spec fn ids(s: Seq<Agent>) -> Seq<u64> {
    s.map_values(|a: Agent| a.id)
}

/// The agents `s[k]` for which `d[k] == b`, in order.
pub open spec fn pick(s: Seq<Agent>, d: Seq<bool>, b: bool) -> Seq<Agent>
    decreases s.len(),
{
    if s.len() == 0 {
        Seq::empty()
    } else {
        let rest = pick(s.drop_last(), d, b);
        if d[s.len() - 1] == b {
            rest.push(s.last())
        } else {
            rest
        }
    }
}

/// Picking by `d` and by its negation splits `s`: no agent is lost or doubled.
pub proof fn lemma_pick_splits(s: Seq<Agent>, d: Seq<bool>)
    ensures
        pick(s, d, true).len() + pick(s, d, false).len() == s.len(),
        ids(pick(s, d, true)).to_multiset().add(ids(pick(s, d, false)).to_multiset())
            =~= ids(s).to_multiset(),
    decreases s.len(),
{
    broadcast use vstd::seq_lib::group_to_multiset_ensures, vstd::multiset::group_multiset_axioms;
    if s.len() > 0 {
        lemma_pick_splits(s.drop_last(), d);
        let t = pick(s.drop_last(), d, true);
        let f = pick(s.drop_last(), d, false);
        assert(ids(s) =~= ids(s.drop_last()).push(s.last().id));
        assert(ids(t.push(s.last())) =~= ids(t).push(s.last().id));
        assert(ids(f.push(s.last())) =~= ids(f).push(s.last().id));
    }
}

/// Unfolds `pick` over a prefix grown by one.
pub proof fn lemma_pick_take(s: Seq<Agent>, d: Seq<bool>, b: bool, i: int)
    requires
        0 <= i < s.len(),
    ensures
        pick(s.take(i + 1), d, b) == if d[i] == b {
            pick(s.take(i), d, b).push(s[i])
        } else {
            pick(s.take(i), d, b)
        },
{
    assert(s.take(i + 1).drop_last() =~= s.take(i));
}

/// Every agent of `s` after one tick of movement.
pub open spec fn moved_all(s: Seq<Agent>, c: Config) -> Seq<Agent> {
    s.map_values(|a: Agent| a.moved(c))
}

/// Moves every agent of `v` by one tick (see [`Agent::advance`]).
pub(crate) fn advance_all(v: &mut Vec<Agent>, c: &Config, Ghost(h): Ghost<Health>)
    requires
        c.valid(),
        all_placed(old(v)@, h, *c),
    ensures
        final(v)@ == moved_all(old(v)@, *c),
        all_placed(final(v)@, h, *c),
{
    let n = v.len();
    for i in 0..n
        invariant
            c.valid(),
            n == v.len() == old(v)@.len(),
            all_placed(old(v)@, h, *c),
            forall|k: int| 0 <= k < i ==> v@[k] == (#[trigger] old(v)@[k]).moved(*c),
            forall|k: int| i <= k < n ==> v@[k] == old(v)@[k],
            all_placed(v@, h, *c),
    {
        let mut a = v[i];
        a.advance(c);
        v.set(i, a);
    }
    assert(v@ =~= moved_all(old(v)@, *c));
}

/// Whether `b` lies within reach of `a`: their centres are closer than the
/// agent radius plus the infection radius.
pub open spec fn in_contact(c: Config, a: Agent, b: Agent) -> bool {
    let dx = a.x - b.x;
    let dy = a.y - b.y;
    let reach = c.radius + c.infection_radius;
    dx * dx + dy * dy < reach * reach
}

/// Whether `b` is within reach of `a` (see [`in_contact`]).
pub fn touches(c: &Config, a: &Agent, b: &Agent) -> (r: bool)
    requires
        c.valid(),
        a.placed(*c),
        b.placed(*c),
    ensures
        r == in_contact(*c, *a, *b),
{
    let dx: i64 = a.x - b.x;
    let dy: i64 = a.y - b.y;
    let reach: i64 = c.radius + c.infection_radius;
    assert(dx * dx <= 16 * MAX_EXTENT * MAX_EXTENT) by (nonlinear_arith)
        requires -4 * MAX_EXTENT <= dx <= 4 * MAX_EXTENT;
    assert(dy * dy <= 16 * MAX_EXTENT * MAX_EXTENT) by (nonlinear_arith)
        requires -4 * MAX_EXTENT <= dy <= 4 * MAX_EXTENT;
    assert(reach * reach <= 4 * MAX_EXTENT * MAX_EXTENT) by (nonlinear_arith)
        requires 0 <= reach <= 2 * MAX_EXTENT;
    assert(0 <= dx * dx && 0 <= dy * dy) by (nonlinear_arith);
    dx * dx + dy * dy < reach * reach
}

/// Which agents of `s` the transmitter `t` infects, given one chance drawn
/// per agent of `s` in `row`.
pub open spec fn catch_flags(c: Config, t: Agent, s: Seq<Agent>, row: Seq<u64>) -> Seq<bool> {
    Seq::new(s.len(), |k: int| in_contact(c, t, s[k]) && comes_up(row[k], c.infection_rate))
}

/// A Susceptible agent just infected: its infection clock starts at zero.
pub open spec fn infected_now(a: Agent) -> Agent {
    Agent { health: Health::Infected, infected_duration_ticks: 0, ..a }
}

/// The agents of `s` made Infected.
pub open spec fn infect_all(s: Seq<Agent>) -> Seq<Agent> {
    s.map_values(|a: Agent| infected_now(a))
}

/// Lets `t` infect the agents of `sus` within its reach whose chance comes up:
/// they leave `sus`, which keeps its order, and are appended to `newly` in
/// the order in which they stood.
pub fn spread_from(c: &Config, t: &Agent, sus: &mut Vec<Agent>, newly: &mut Vec<Agent>, row: &Vec<u64>)
    requires
        c.valid(),
        t.placed(*c),
        all_placed(old(sus)@, Health::Susceptible, *c),
        all_placed(old(newly)@, Health::Infected, *c),
        row.len() >= old(sus).len(),
    ensures
        final(sus)@ == pick(old(sus)@, catch_flags(*c, *t, old(sus)@, row@), false),
        final(newly)@ == old(newly)@ + infect_all(
            pick(old(sus)@, catch_flags(*c, *t, old(sus)@, row@), true),
        ),
        all_placed(final(sus)@, Health::Susceptible, *c),
        all_placed(final(newly)@, Health::Infected, *c),
{
    let ghost s0 = sus@;
    let ghost n0 = newly@;
    let ghost f = catch_flags(*c, *t, s0, row@);
    let mut kept: Vec<Agent> = Vec::new();
    let n = sus.len();
    for i in 0..n
        invariant
            c.valid(),
            t.placed(*c),
            sus@ == s0,
            n == s0.len(),
            row.len() >= n,
            f == catch_flags(*c, *t, s0, row@),
            all_placed(s0, Health::Susceptible, *c),
            kept@ == pick(s0.take(i as int), f, false),
            newly@ == n0 + infect_all(pick(s0.take(i as int), f, true)),
            all_placed(kept@, Health::Susceptible, *c),
            all_placed(newly@, Health::Infected, *c),
    {
        proof {
            lemma_pick_take(s0, f, true, i as int);
            lemma_pick_take(s0, f, false, i as int);
        }
        let a = sus[i];
        if touches(c, t, &a) && row[i] < c.infection_rate {
            let b = Agent { health: Health::Infected, infected_duration_ticks: 0, ..a };
            proof {
                let p = pick(s0.take(i as int), f, true);
                assert(infect_all(p.push(a)) =~= infect_all(p).push(b));
            }
            newly.push(b);
            proof {
                let p = pick(s0.take(i as int), f, true);
                assert(n0 + infect_all(p.push(a)) =~= (n0 + infect_all(p)).push(b));
            }
        } else {
            kept.push(a);
        }
    }
    assert(s0.take(n as int) =~= s0);
    *sus = kept;
}

/// The transmission pass: each agent of `ts` in turn infects what its row of
/// `draws` lets it among the Susceptible agents left. Returns the agents
/// left Susceptible and those infected, in the order of infection.
pub open spec fn transmit(c: Config, ts: Seq<Agent>, sus: Seq<Agent>, draws: Seq<Seq<u64>>) -> (Seq<Agent>, Seq<Agent>)
    decreases ts.len(),
{
    if ts.len() == 0 {
        (sus, Seq::empty())
    } else {
        let (rest, newly) = transmit(c, ts.drop_last(), sus, draws);
        let f = catch_flags(c, ts.last(), rest, draws[ts.len() - 1]);
        (pick(rest, f, false), newly + infect_all(pick(rest, f, true)))
    }
}

/// Whether an Infected agent's clock has reached its deadline.
pub open spec fn resolves(a: Agent) -> bool {
    a.infected_duration_ticks >= a.recovery_deadline_ticks
}

pub open spec fn stay_flags(s: Seq<Agent>) -> Seq<bool> {
    Seq::new(s.len(), |k: int| !resolves(s[k]))
}

pub open spec fn recover_flags(s: Seq<Agent>) -> Seq<bool> {
    Seq::new(s.len(), |k: int| resolves(s[k]) && !s[k].fated_to_die)
}

pub open spec fn die_flags(s: Seq<Agent>) -> Seq<bool> {
    Seq::new(s.len(), |k: int| resolves(s[k]) && s[k].fated_to_die)
}

/// An Infected agent one tick older.
pub open spec fn aged(a: Agent) -> Agent {
    Agent { infected_duration_ticks: (a.infected_duration_ticks + 1) as u64, ..a }
}

/// The agents of `s` that stay Infected, each one tick older.
pub open spec fn stayers(s: Seq<Agent>) -> Seq<Agent> {
    pick(s, stay_flags(s), true).map_values(|a: Agent| aged(a))
}

/// The agents of `s` whose infection ends in recovery now.
pub open spec fn recoverers(s: Seq<Agent>) -> Seq<Agent> {
    pick(s, recover_flags(s), true).map_values(|a: Agent| Agent { health: Health::Recovered, ..a })
}

/// The agents of `s` whose infection ends in death now.
pub open spec fn dyers(s: Seq<Agent>) -> Seq<Agent> {
    pick(s, die_flags(s), true).map_values(|a: Agent| Agent { health: Health::Dead, ..a })
}

/// One tick: every agent but the dead moves; then every agent that was
/// Infected when the tick began transmits, row `i` of `draws` holding the
/// chances of the `i`-th; then every agent that was Infected when the tick
/// began ages or resolves. Agents infected during the tick neither transmit
/// nor age in it.
pub open spec fn tick(v: Snapshot, c: Config, draws: Seq<Seq<u64>>) -> Snapshot {
    let inf = moved_all(v.infected, c);
    let (rest, newly) = transmit(c, inf, moved_all(v.susceptible, c), draws);
    Snapshot {
        susceptible: rest,
        infected: stayers(inf) + newly,
        recovered: moved_all(v.recovered, c) + recoverers(inf),
        dead: v.dead + dyers(inf),
    }
}

/// The rows of a matrix of draws, as sequences.
pub open spec fn rows(d: Seq<Vec<u64>>) -> Seq<Seq<u64>> {
    d.map_values(|r: Vec<u64>| r@)
}

/// Ages every agent of `inf` whose deadline has not come, and moves the
/// others to `recovered` or `dead` by their fate, keeping the order.
pub(crate) fn progress(inf: &mut Vec<Agent>, recovered: &mut Vec<Agent>, dead: &mut Vec<Agent>, Ghost(c): Ghost<Config>)
    requires
        all_placed(old(inf)@, Health::Infected, c),
        all_placed(old(recovered)@, Health::Recovered, c),
        all_placed(old(dead)@, Health::Dead, c),
    ensures
        final(inf)@ == stayers(old(inf)@),
        final(recovered)@ == old(recovered)@ + recoverers(old(inf)@),
        final(dead)@ == old(dead)@ + dyers(old(inf)@),
        all_placed(final(inf)@, Health::Infected, c),
        all_placed(final(recovered)@, Health::Recovered, c),
        all_placed(final(dead)@, Health::Dead, c),
{
    let ghost s0 = inf@;
    let ghost r0 = recovered@;
    let ghost d0 = dead@;
    let ghost fs = stay_flags(s0);
    let ghost fr = recover_flags(s0);
    let ghost fd = die_flags(s0);
    let mut kept: Vec<Agent> = Vec::new();
    let n = inf.len();
    for i in 0..n
        invariant
            inf@ == s0,
            n == s0.len(),
            fs == stay_flags(s0),
            fr == recover_flags(s0),
            fd == die_flags(s0),
            all_placed(s0, Health::Infected, c),
            kept@ == pick(s0.take(i as int), fs, true).map_values(|a: Agent| aged(a)),
            recovered@ == r0 + pick(s0.take(i as int), fr, true).map_values(
                |a: Agent| Agent { health: Health::Recovered, ..a },
            ),
            dead@ == d0 + pick(s0.take(i as int), fd, true).map_values(
                |a: Agent| Agent { health: Health::Dead, ..a },
            ),
            all_placed(kept@, Health::Infected, c),
            all_placed(recovered@, Health::Recovered, c),
            all_placed(dead@, Health::Dead, c),
    {
        proof {
            lemma_pick_take(s0, fs, true, i as int);
            lemma_pick_take(s0, fr, true, i as int);
            lemma_pick_take(s0, fd, true, i as int);
        }
        let a = inf[i];
        let ghost ps = pick(s0.take(i as int), fs, true);
        let ghost pr = pick(s0.take(i as int), fr, true);
        let ghost pd = pick(s0.take(i as int), fd, true);
        if a.infected_duration_ticks >= a.recovery_deadline_ticks {
            if a.fated_to_die {
                let b = Agent { health: Health::Dead, ..a };
                dead.push(b);
                proof {
                    assert(d0 + pd.push(a).map_values(|a: Agent| Agent { health: Health::Dead, ..a })
                        =~= (d0 + pd.map_values(|a: Agent| Agent { health: Health::Dead, ..a })).push(b));
                }
            } else {
                let b = Agent { health: Health::Recovered, ..a };
                recovered.push(b);
                proof {
                    assert(r0 + pr.push(a).map_values(|a: Agent| Agent { health: Health::Recovered, ..a })
                        =~= (r0 + pr.map_values(|a: Agent| Agent { health: Health::Recovered, ..a })).push(b));
                }
            }
        } else {
            let b = Agent { infected_duration_ticks: a.infected_duration_ticks + 1, ..a };
            kept.push(b);
            proof {
                assert(ps.push(a).map_values(|a: Agent| aged(a)) =~= ps.map_values(|a: Agent| aged(a)).push(b));
            }
        }
    }
    assert(s0.take(n as int) =~= s0);
    *inf = kept;
}

/// Whether every agent of `v` has health `h` and is placed.
fn all_fit(v: &Vec<Agent>, h: Health, c: &Config) -> (r: bool)
    requires
        c.valid(),
    ensures
        r == all_placed(v@, h, *c),
{
    let n = v.len();
    for i in 0..n
        invariant
            c.valid(),
            n == v.len(),
            all_placed(v@.take(i as int), h, *c),
    {
        if v[i].health != h || !v[i].is_placed(c) {
            assert(!(v@[i as int].health == h && v@[i as int].placed(*c)));
            return false;
        }
        assert(v@.take(i + 1)[i as int] == v@[i as int]);
    }
    assert(v@.take(n as int) =~= v@);
    true
}

impl Population {
    /// The collections hold agents of their own state only, all placed.
    pub open spec fn wf(&self, c: Config) -> bool {
        self@.wf(c)
    }

    /// Whether the collections hold agents of their own state only, all
    /// placed: what a tick asks of its population.
    pub fn is_well_formed(&self, c: &Config) -> (r: bool)
        requires
            c.valid(),
        ensures
            r == self.wf(*c),
    {
        all_fit(&self.susceptible, Health::Susceptible, c) && all_fit(&self.infected, Health::Infected, c)
            && all_fit(&self.recovered, Health::Recovered, c) && all_fit(&self.dead, Health::Dead, c)
    }

    /// Runs one tick (see [`tick`]) with the chances given: `draws[i][k]`,
    /// out of the chance scale, decides whether the `i`-th Infected agent
    /// infects the `k`-th Susceptible agent left when its turn comes, if
    /// that agent is within its reach.
    pub fn step_with_draws(&mut self, c: &Config, draws: &Vec<Vec<u64>>)
        requires
            c.valid(),
            old(self).wf(*c),
            draws.len() >= old(self).infected.len(),
            forall|i: int| 0 <= i < draws.len() ==> (#[trigger] draws[i]).len() >= old(self).susceptible.len(),
        ensures
            final(self)@ == tick(old(self)@, *c, rows(draws@)),
            final(self).wf(*c),
    {
        let ghost v0 = self@;
        let ghost d = rows(draws@);
        advance_all(&mut self.susceptible, c, Ghost(Health::Susceptible));
        advance_all(&mut self.infected, c, Ghost(Health::Infected));
        advance_all(&mut self.recovered, c, Ghost(Health::Recovered));
        let ghost sus1 = self.susceptible@;
        let ghost inf1 = self.infected@;
        let mut newly: Vec<Agent> = Vec::new();
        let n = self.infected.len();
        for i in 0..n
            invariant
                c.valid(),
                n == self.infected.len(),
                self.infected@ == inf1,
                all_placed(inf1, Health::Infected, *c),
                all_placed(self.susceptible@, Health::Susceptible, *c),
                all_placed(newly@, Health::Infected, *c),
                self.susceptible@.len() <= sus1.len() == v0.susceptible.len(),
                draws.len() >= n,
                d == rows(draws@),
                forall|j: int| 0 <= j < draws.len() ==> (#[trigger] draws[j]).len() >= v0.susceptible.len(),
                (self.susceptible@, newly@) == transmit(*c, inf1.take(i as int), sus1, d),
                self.recovered@ == moved_all(v0.recovered, *c),
                self.dead@ == v0.dead,
                all_placed(self.recovered@, Health::Recovered, *c),
                all_placed(self.dead@, Health::Dead, *c),
                sus1 == moved_all(v0.susceptible, *c),
                inf1 == moved_all(v0.infected, *c),
        {
            proof {
                assert(inf1.take(i + 1).drop_last() =~= inf1.take(i as int));
                assert(d[i as int] == draws[i as int]@);
                lemma_pick_splits(self.susceptible@, catch_flags(*c, inf1[i as int], self.susceptible@, d[i as int]));
            }
            spread_from(c, &self.infected[i], &mut self.susceptible, &mut newly, &draws[i]);
        }
        assert(inf1.take(n as int) =~= inf1);
        progress(&mut self.infected, &mut self.recovered, &mut self.dead, Ghost(*c));
        let ghost newly0 = newly@;
        self.infected.append(&mut newly);
        proof {
            let t = tick(v0, *c, d);
            assert(self.infected@ =~= t.infected);
            assert(self@ == t);
            assert forall|k: int| 0 <= k < self.infected@.len() implies
                (#[trigger] self.infected@[k]).health == Health::Infected && self.infected@[k].placed(*c) by {
                if k >= stayers(inf1).len() {
                    assert(self.infected@[k] == newly0[k - stayers(inf1).len()]);
                }
            }
        }
    }
}

} // verus!
