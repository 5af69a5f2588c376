use vstd::prelude::*;
use vstd::seq_lib::lemma_multiset_commutative;
use vstd::multiset::Multiset;
use crate::agent::{Agent, hits_wall, lemma_axis_step};
use crate::config::{Config, CHANCE_SCALE};
use crate::population::{
    Snapshot, ids, pick, lemma_pick_splits, transmit, catch_flags, infect_all, infected_now,
    in_contact, moved_all, tick, stayers, recoverers, dyers, stay_flags, recover_flags, die_flags,
    aged,
};
use crate::simulation::{chances, covers};

verus! {

/// Every agent that `pick` keeps stands in `s` at a place where `d` is `b`.
pub proof fn lemma_pick_members(s: Seq<Agent>, d: Seq<bool>, b: bool)
    ensures
        pick(s, d, b).len() <= s.len(),
        forall|k: int| #![trigger pick(s, d, b)[k]] 0 <= k < pick(s, d, b).len() ==>
            exists|j: int| #![trigger s[j]] 0 <= j < s.len() && d[j] == b && pick(s, d, b)[k] == s[j],
    decreases s.len(),
{
    if s.len() > 0 {
        let s0 = s.drop_last();
        lemma_pick_members(s0, d, b);
        let p = pick(s0, d, b);
        let q = pick(s, d, b);
        assert forall|k: int| #![trigger q[k]] 0 <= k < q.len() implies
            exists|j: int| #![trigger s[j]] 0 <= j < s.len() && d[j] == b && q[k] == s[j] by {
            if k < p.len() {
                let j = choose|j: int| #![trigger s0[j]] 0 <= j < s0.len() && d[j] == b && p[k] == s0[j];
                assert(q[k] == p[k]);
                assert(s0[j] == s[j]);
            } else {
                assert(d[s.len() - 1] == b);
                assert(q[k] == s[s.len() - 1]);
            }
        }
    }
}

/// Where no flag of `d` is set, `pick` keeps all of `s` on one side and
/// nothing on the other.
pub proof fn lemma_pick_none(s: Seq<Agent>, d: Seq<bool>)
    requires
        forall|k: int| 0 <= k < s.len() ==> !(#[trigger] d[k]),
    ensures
        pick(s, d, false) == s,
        pick(s, d, true).len() == 0,
    decreases s.len(),
{
    if s.len() > 0 {
        lemma_pick_none(s.drop_last(), d);
        assert(s.drop_last().push(s.last()) =~= s);
    }
}

/// The ids of a concatenation.
pub proof fn lemma_ids_add(a: Seq<Agent>, b: Seq<Agent>)
    ensures
        ids(a + b).to_multiset() =~= ids(a).to_multiset().add(ids(b).to_multiset()),
        (a + b).len() == a.len() + b.len(),
{
    assert(ids(a + b) =~= ids(a) + ids(b));
    lemma_multiset_commutative(ids(a), ids(b));
}

/// The transmission pass neither loses nor doubles an agent: each one stays
/// Susceptible or is infected, once.
pub proof fn lemma_transmit_counts(c: Config, ts: Seq<Agent>, sus: Seq<Agent>, d: Seq<Seq<u64>>)
    ensures
        transmit(c, ts, sus, d).0.len() + transmit(c, ts, sus, d).1.len() == sus.len(),
        ids(transmit(c, ts, sus, d).0).to_multiset().add(ids(transmit(c, ts, sus, d).1).to_multiset())
            =~= ids(sus).to_multiset(),
    decreases ts.len(),
{
    broadcast use vstd::multiset::group_multiset_axioms;
    if ts.len() == 0 {
        assert(ids(Seq::<Agent>::empty()) =~= Seq::<u64>::empty());
        assert(Seq::<u64>::empty().to_multiset() =~= Multiset::empty()) by {
            broadcast use vstd::seq_lib::group_to_multiset_ensures;
        }
    } else {
        let ts0 = ts.drop_last();
        lemma_transmit_counts(c, ts0, sus, d);
        let (rest0, newly0) = transmit(c, ts0, sus, d);
        let f = catch_flags(c, ts.last(), rest0, d[ts.len() - 1]);
        let got = pick(rest0, f, true);
        lemma_pick_splits(rest0, f);
        assert(ids(infect_all(got)) =~= ids(got));
        lemma_ids_add(newly0, infect_all(got));
    }
}

/// An agent left Susceptible by the transmission pass was Susceptible before it.
pub proof fn lemma_transmit_rest(c: Config, ts: Seq<Agent>, sus: Seq<Agent>, d: Seq<Seq<u64>>)
    ensures
        forall|k: int| 0 <= k < transmit(c, ts, sus, d).0.len() ==>
            sus.contains(#[trigger] transmit(c, ts, sus, d).0[k]),
    decreases ts.len(),
{
    let rest = transmit(c, ts, sus, d).0;
    if ts.len() == 0 {
        assert forall|k: int| 0 <= k < rest.len() implies sus.contains(#[trigger] rest[k]) by {
            assert(rest[k] == sus[k]);
        }
    } else {
        let ts0 = ts.drop_last();
        lemma_transmit_rest(c, ts0, sus, d);
        let rest0 = transmit(c, ts0, sus, d).0;
        let f = catch_flags(c, ts.last(), rest0, d[ts.len() - 1]);
        lemma_pick_members(rest0, f, false);
        assert forall|k: int| 0 <= k < rest.len() implies sus.contains(#[trigger] rest[k]) by {
            assert(rest[k] == pick(rest0, f, false)[k]);
            let m = choose|m: int| #![trigger rest0[m]] 0 <= m < rest0.len() && f[m] == false && pick(rest0, f, false)[k] == rest0[m];
            assert(sus.contains(rest0[m]));
        }
    }
}

/// An agent infected by the transmission pass was Susceptible, and within
/// reach of one of the transmitters.
pub proof fn lemma_transmit_sources(c: Config, ts: Seq<Agent>, sus: Seq<Agent>, d: Seq<Seq<u64>>)
    ensures
        forall|k: int| #![trigger transmit(c, ts, sus, d).1[k]] 0 <= k < transmit(c, ts, sus, d).1.len() ==>
            exists|i: int, j: int| #![trigger ts[i], sus[j]] 0 <= i < ts.len() && 0 <= j < sus.len()
                && transmit(c, ts, sus, d).1[k] == infected_now(sus[j]) && in_contact(c, ts[i], sus[j]),
    decreases ts.len(),
{
    if ts.len() > 0 {
        let ts0 = ts.drop_last();
        lemma_transmit_sources(c, ts0, sus, d);
        lemma_transmit_rest(c, ts0, sus, d);
        let (rest0, newly0) = transmit(c, ts0, sus, d);
        let f = catch_flags(c, ts.last(), rest0, d[ts.len() - 1]);
        let got = pick(rest0, f, true);
        lemma_pick_members(rest0, f, true);
        let newly = transmit(c, ts, sus, d).1;
        assert(newly == newly0 + infect_all(got));
        assert forall|k: int| #![trigger newly[k]] 0 <= k < newly.len() implies
            exists|i: int, j: int| #![trigger ts[i], sus[j]] 0 <= i < ts.len() && 0 <= j < sus.len()
                && newly[k] == infected_now(sus[j]) && in_contact(c, ts[i], sus[j]) by {
            if k < newly0.len() {
                assert(newly[k] == newly0[k]);
                let (i, j) = choose|i: int, j: int| #![trigger ts0[i], sus[j]] 0 <= i < ts0.len() && 0 <= j < sus.len()
                    && newly0[k] == infected_now(sus[j]) && in_contact(c, ts0[i], sus[j]);
                assert(ts[i] == ts0[i]);
            } else {
                let k1 = k - newly0.len();
                assert(newly[k] == infected_now(got[k1]));
                assert(got[k1] == pick(rest0, f, true)[k1]);
                let m = choose|m: int| #![trigger rest0[m]] 0 <= m < rest0.len() && f[m] == true && got[k1] == rest0[m];
                assert(sus.contains(rest0[m]));
                let j = choose|j: int| 0 <= j < sus.len() && sus[j] == rest0[m];
                assert(in_contact(c, ts[ts.len() - 1], sus[j]));
            }
        }
    }
}

/// With no chance of infection, the transmission pass changes nothing.
pub proof fn lemma_transmit_rate_zero(c: Config, ts: Seq<Agent>, sus: Seq<Agent>, d: Seq<Seq<u64>>)
    requires
        c.infection_rate == 0,
    ensures
        transmit(c, ts, sus, d).0 == sus,
        transmit(c, ts, sus, d).1.len() == 0,
    decreases ts.len(),
{
    if ts.len() > 0 {
        let ts0 = ts.drop_last();
        lemma_transmit_rate_zero(c, ts0, sus, d);
        let f = catch_flags(c, ts.last(), sus, d[ts.len() - 1]);
        lemma_pick_none(sus, f);
        assert(transmit(c, ts0, sus, d).1 + infect_all(pick(sus, f, true)) =~= Seq::<Agent>::empty());
    }
}

/// With certain infection, no agent left Susceptible by the transmission
/// pass is within reach of a transmitter.
pub proof fn lemma_transmit_certain(c: Config, ts: Seq<Agent>, sus: Seq<Agent>, d: Seq<Seq<u64>>)
    requires
        c.infection_rate == CHANCE_SCALE,
        chances(d),
        covers(d, ts.len(), sus.len()),
    ensures
        transmit(c, ts, sus, d).0.len() <= sus.len(),
        forall|k: int, i: int| 0 <= k < transmit(c, ts, sus, d).0.len() && 0 <= i < ts.len() ==>
            !#[trigger] in_contact(c, ts[i], transmit(c, ts, sus, d).0[k]),
    decreases ts.len(),
{
    if ts.len() > 0 {
        let ts0 = ts.drop_last();
        lemma_transmit_certain(c, ts0, sus, d);
        let rest0 = transmit(c, ts0, sus, d).0;
        let f = catch_flags(c, ts.last(), rest0, d[ts.len() - 1]);
        lemma_pick_members(rest0, f, false);
        let rest = transmit(c, ts, sus, d).0;
        assert(rest == pick(rest0, f, false));
        assert forall|k: int, i: int| 0 <= k < rest.len() && 0 <= i < ts.len() implies
            !#[trigger] in_contact(c, ts[i], rest[k]) by {
            assert(rest[k] == pick(rest0, f, false)[k]);
            let m = choose|m: int| #![trigger rest0[m]] 0 <= m < rest0.len() && f[m] == false && rest[k] == rest0[m];
            if i < ts0.len() {
                assert(ts[i] == ts0[i]);
            } else {
                assert(d[ts.len() - 1].len() >= sus.len());
                assert(d[ts.len() - 1][m] < CHANCE_SCALE);
            }
        }
    }
}

/// Picking by three flag sequences that split every place of `s` between
/// them neither loses nor doubles an agent.
pub proof fn lemma_pick_three(s: Seq<Agent>, d1: Seq<bool>, d2: Seq<bool>, d3: Seq<bool>)
    requires
        forall|k: int| #![trigger d1[k]] 0 <= k < s.len() ==>
            (d1[k] && !d2[k] && !d3[k]) || (!d1[k] && d2[k] && !d3[k]) || (!d1[k] && !d2[k] && d3[k]),
    ensures
        pick(s, d1, true).len() + pick(s, d2, true).len() + pick(s, d3, true).len() == s.len(),
        ids(pick(s, d1, true)).to_multiset().add(ids(pick(s, d2, true)).to_multiset())
            .add(ids(pick(s, d3, true)).to_multiset()) =~= ids(s).to_multiset(),
    decreases s.len(),
{
    broadcast use vstd::seq_lib::group_to_multiset_ensures, vstd::multiset::group_multiset_axioms;
    if s.len() == 0 {
        assert(ids(Seq::<Agent>::empty()) =~= Seq::<u64>::empty());
    } else {
        let s0 = s.drop_last();
        let a = s.last();
        lemma_pick_three(s0, d1, d2, d3);
        let k = s.len() - 1;
        assert((d1[k] && !d2[k] && !d3[k]) || (!d1[k] && d2[k] && !d3[k]) || (!d1[k] && !d2[k] && d3[k]));
        assert(ids(s) =~= ids(s0).push(a.id));
        assert(ids(pick(s0, d1, true).push(a)) =~= ids(pick(s0, d1, true)).push(a.id));
        assert(ids(pick(s0, d2, true).push(a)) =~= ids(pick(s0, d2, true)).push(a.id));
        assert(ids(pick(s0, d3, true).push(a)) =~= ids(pick(s0, d3, true)).push(a.id));
    }
}

/// Progression sends each Infected agent to exactly one place: it stays,
/// recovers or dies.
pub proof fn lemma_progress_counts(s: Seq<Agent>)
    ensures
        stayers(s).len() + recoverers(s).len() + dyers(s).len() == s.len(),
        ids(stayers(s)).to_multiset().add(ids(recoverers(s)).to_multiset()).add(ids(dyers(s)).to_multiset())
            =~= ids(s).to_multiset(),
{
    lemma_pick_three(s, stay_flags(s), recover_flags(s), die_flags(s));
    assert(ids(stayers(s)) =~= ids(pick(s, stay_flags(s), true)));
    assert(ids(recoverers(s)) =~= ids(pick(s, recover_flags(s), true)));
    assert(ids(dyers(s)) =~= ids(pick(s, die_flags(s), true)));
}

/// Movement keeps every id in its place.
pub proof fn lemma_moved_ids(s: Seq<Agent>, c: Config)
    ensures
        ids(moved_all(s, c)) == ids(s),
        moved_all(s, c).len() == s.len(),
{
    assert(ids(moved_all(s, c)) =~= ids(s));
}

/// A tick neither creates nor destroys agents: the four collections hold
/// as many agents after it as before.
pub proof fn law_population_conserved(v: Snapshot, c: Config, d: Seq<Seq<u64>>)
    ensures
        tick(v, c, d).total() == v.total(),
{
    let inf = moved_all(v.infected, c);
    lemma_moved_ids(v.susceptible, c);
    lemma_moved_ids(v.infected, c);
    lemma_moved_ids(v.recovered, c);
    lemma_transmit_counts(c, inf, moved_all(v.susceptible, c), d);
    lemma_progress_counts(inf);
    assert(infect_all(Seq::<Agent>::empty()).len() == 0);
}

/// A tick moves each agent into exactly one collection: every id is held
/// as many times after it as before, so no agent is reclassified twice.
pub proof fn law_each_agent_once(v: Snapshot, c: Config, d: Seq<Seq<u64>>)
    ensures
        tick(v, c, d).roster() =~= v.roster(),
{
    broadcast use vstd::multiset::group_multiset_axioms;
    let sus = moved_all(v.susceptible, c);
    let inf = moved_all(v.infected, c);
    let rec = moved_all(v.recovered, c);
    let t = tick(v, c, d);
    let (rest, newly) = transmit(c, inf, sus, d);
    lemma_moved_ids(v.susceptible, c);
    lemma_moved_ids(v.infected, c);
    lemma_moved_ids(v.recovered, c);
    lemma_transmit_counts(c, inf, sus, d);
    lemma_progress_counts(inf);
    lemma_ids_add(stayers(inf), newly);
    lemma_ids_add(rec, recoverers(inf));
    lemma_ids_add(v.dead, dyers(inf));
}

/// Recovered and Dead are final: every agent that was Recovered or Dead
/// before a tick keeps its place, its id and its state after it.
pub proof fn law_terminal_states_absorb(v: Snapshot, c: Config, d: Seq<Seq<u64>>)
    ensures
        tick(v, c, d).recovered.len() >= v.recovered.len(),
        tick(v, c, d).dead.len() >= v.dead.len(),
        forall|k: int| 0 <= k < v.recovered.len() ==>
            (#[trigger] tick(v, c, d).recovered[k]).id == v.recovered[k].id
                && tick(v, c, d).recovered[k].health == v.recovered[k].health,
        forall|k: int| 0 <= k < v.dead.len() ==> #[trigger] tick(v, c, d).dead[k] == v.dead[k],
{
}

/// An agent infected during a tick was infected by an agent that was
/// Infected when the tick began, never by one infected in the same tick;
/// its clock has not started yet.
pub proof fn law_new_infections_come_from_earlier_ones(v: Snapshot, c: Config, d: Seq<Seq<u64>>)
    ensures
        forall|k: int| stayers(moved_all(v.infected, c)).len() <= k < tick(v, c, d).infected.len() ==>
            (#[trigger] tick(v, c, d).infected[k]).infected_duration_ticks == 0
                && exists|i: int| 0 <= i < v.infected.len()
                    && #[trigger] in_contact(c, v.infected[i].moved(c), tick(v, c, d).infected[k]),
{
    let inf = moved_all(v.infected, c);
    let sus = moved_all(v.susceptible, c);
    let t = tick(v, c, d);
    let newly = transmit(c, inf, sus, d).1;
    let n0 = stayers(inf).len();
    lemma_transmit_sources(c, inf, sus, d);
    assert forall|k: int| n0 <= k < t.infected.len() implies
        (#[trigger] t.infected[k]).infected_duration_ticks == 0
            && exists|i: int| 0 <= i < v.infected.len()
                && #[trigger] in_contact(c, v.infected[i].moved(c), t.infected[k]) by {
        assert(t.infected[k] == newly[k - n0]);
        let (i, j) = choose|i: int, j: int| #![trigger inf[i], sus[j]] 0 <= i < inf.len() && 0 <= j < sus.len()
            && newly[k - n0] == infected_now(sus[j]) && in_contact(c, inf[i], sus[j]);
        assert(in_contact(c, v.infected[i].moved(c), t.infected[k]));
    }
}

/// Two records of one agent with the same fate and the same deadline.
pub open spec fn same_destiny(a: Agent, b: Agent) -> bool {
    a.id == b.id && a.fated_to_die == b.fated_to_die && a.recovery_deadline_ticks == b.recovery_deadline_ticks
}

/// A tick never draws an agent's fate or deadline anew: every agent
/// Infected after it carries those it had before it, as an Infected or a
/// Susceptible agent.
pub proof fn law_destiny_fixed(v: Snapshot, c: Config, d: Seq<Seq<u64>>)
    ensures
        forall|k: int| 0 <= k < tick(v, c, d).infected.len() ==>
            (exists|j: int| 0 <= j < v.infected.len() && same_destiny(#[trigger] tick(v, c, d).infected[k], v.infected[j]))
            || (exists|j: int| 0 <= j < v.susceptible.len() && same_destiny(tick(v, c, d).infected[k], v.susceptible[j])),
{
    let inf = moved_all(v.infected, c);
    let sus = moved_all(v.susceptible, c);
    let t = tick(v, c, d);
    let newly = transmit(c, inf, sus, d).1;
    let st = stayers(inf);
    let fs = stay_flags(inf);
    lemma_transmit_sources(c, inf, sus, d);
    lemma_pick_members(inf, fs, true);
    assert forall|k: int| 0 <= k < t.infected.len() implies
        (exists|j: int| 0 <= j < v.infected.len() && same_destiny(#[trigger] t.infected[k], v.infected[j]))
        || (exists|j: int| 0 <= j < v.susceptible.len() && same_destiny(t.infected[k], v.susceptible[j])) by {
        if k < st.len() {
            assert(t.infected[k] == st[k]);
            assert(st[k] == aged(pick(inf, fs, true)[k]));
            let j = choose|j: int| #![trigger inf[j]] 0 <= j < inf.len() && fs[j] == true && pick(inf, fs, true)[k] == inf[j];
            assert(same_destiny(t.infected[k], v.infected[j]));
        } else {
            assert(t.infected[k] == newly[k - st.len()]);
            let (i, j) = choose|i: int, j: int| #![trigger inf[i], sus[j]] 0 <= i < inf.len() && 0 <= j < sus.len()
                && newly[k - st.len()] == infected_now(sus[j]) && in_contact(c, inf[i], sus[j]);
            assert(same_destiny(t.infected[k], v.susceptible[j]));
        }
    }
}

/// With no chance of infection, a tick infects nobody: the Susceptible
/// collection keeps its size and the Infected one does not grow.
pub proof fn law_no_infection_without_chance(v: Snapshot, c: Config, d: Seq<Seq<u64>>)
    requires
        c.infection_rate == 0,
    ensures
        tick(v, c, d).susceptible.len() == v.susceptible.len(),
        tick(v, c, d).infected.len() <= v.infected.len(),
{
    let inf = moved_all(v.infected, c);
    lemma_moved_ids(v.susceptible, c);
    lemma_moved_ids(v.infected, c);
    lemma_transmit_rate_zero(c, inf, moved_all(v.susceptible, c), d);
    lemma_progress_counts(inf);
}

/// With certain infection, a tick leaves no Susceptible agent within reach
/// of an agent that was Infected when it began.
pub proof fn law_certain_infection(v: Snapshot, c: Config, d: Seq<Seq<u64>>)
    requires
        c.infection_rate == CHANCE_SCALE,
        chances(d),
        covers(d, v.infected.len(), v.susceptible.len()),
    ensures
        forall|k: int, i: int| 0 <= k < tick(v, c, d).susceptible.len() && 0 <= i < v.infected.len() ==>
            !#[trigger] in_contact(c, v.infected[i].moved(c), tick(v, c, d).susceptible[k]),
{
    let inf = moved_all(v.infected, c);
    lemma_moved_ids(v.susceptible, c);
    lemma_moved_ids(v.infected, c);
    lemma_transmit_certain(c, inf, moved_all(v.susceptible, c), d);
    assert forall|k: int, i: int| 0 <= k < tick(v, c, d).susceptible.len() && 0 <= i < v.infected.len() implies
        !#[trigger] in_contact(c, v.infected[i].moved(c), tick(v, c, d).susceptible[k]) by {
        assert(inf[i] == v.infected[i].moved(c));
    }
}

/// A step that ends with the agent touching or crossing a wall turns the
/// velocity component across that wall around, and leaves it alone
/// otherwise.
pub proof fn law_wall_reflection(a: Agent, c: Config)
    requires
        c.valid(),
        a.placed(c),
    ensures
        hits_wall(a.x + a.vx, c.radius as int, c.width as int) ==> a.moved(c).vx == -a.vx,
        !hits_wall(a.x + a.vx, c.radius as int, c.width as int) ==> a.moved(c).vx == a.vx,
        hits_wall(a.y + a.vy, c.radius as int, c.height as int) ==> a.moved(c).vy == -a.vy,
        !hits_wall(a.y + a.vy, c.radius as int, c.height as int) ==> a.moved(c).vy == a.vy,
        a.moved(c).x == a.x + a.vx,
        a.moved(c).y == a.y + a.vy,
{
    lemma_axis_step(a.x as int, a.vx as int, c.radius as int, c.width as int);
    lemma_axis_step(a.y as int, a.vy as int, c.radius as int, c.height as int);
}

/// The snapshot after one tick for each entry of `ds`, in order.
pub open spec fn run(v: Snapshot, c: Config, ds: Seq<Seq<Seq<u64>>>) -> Snapshot
    decreases ds.len(),
{
    if ds.len() == 0 {
        v
    } else {
        tick(run(v, c, ds.drop_last()), c, ds.last())
    }
}

/// However many ticks a run takes, it holds as many agents as it began
/// with, each id as many times.
pub proof fn law_run_conserves_population(v: Snapshot, c: Config, ds: Seq<Seq<Seq<u64>>>)
    ensures
        run(v, c, ds).total() == v.total(),
        run(v, c, ds).roster() =~= v.roster(),
    decreases ds.len(),
{
    if ds.len() > 0 {
        law_run_conserves_population(v, c, ds.drop_last());
        law_population_conserved(run(v, c, ds.drop_last()), c, ds.last());
        law_each_agent_once(run(v, c, ds.drop_last()), c, ds.last());
    }
}

/// Once Recovered or Dead, an agent stays so for the rest of the run, in
/// its place.
pub proof fn law_run_terminal_states_absorb(v: Snapshot, c: Config, ds: Seq<Seq<Seq<u64>>>)
    ensures
        run(v, c, ds).recovered.len() >= v.recovered.len(),
        run(v, c, ds).dead.len() >= v.dead.len(),
        forall|k: int| 0 <= k < v.recovered.len() ==>
            (#[trigger] run(v, c, ds).recovered[k]).id == v.recovered[k].id
                && run(v, c, ds).recovered[k].health == v.recovered[k].health,
        forall|k: int| 0 <= k < v.dead.len() ==> #[trigger] run(v, c, ds).dead[k] == v.dead[k],
    decreases ds.len(),
{
    if ds.len() > 0 {
        let w = run(v, c, ds.drop_last());
        law_run_terminal_states_absorb(v, c, ds.drop_last());
        law_terminal_states_absorb(w, c, ds.last());
        assert forall|k: int| 0 <= k < v.recovered.len() implies
            (#[trigger] run(v, c, ds).recovered[k]).id == v.recovered[k].id
                && run(v, c, ds).recovered[k].health == v.recovered[k].health by {
            assert(run(v, c, ds).recovered[k] == tick(w, c, ds.last()).recovered[k]);
            assert(w.recovered[k].id == v.recovered[k].id);
        }
        assert forall|k: int| 0 <= k < v.dead.len() implies #[trigger] run(v, c, ds).dead[k] == v.dead[k] by {
            assert(run(v, c, ds).dead[k] == tick(w, c, ds.last()).dead[k]);
            assert(w.dead[k] == v.dead[k]);
        }
    }
}

/// With no chance of infection, however many ticks a run takes, the
/// Susceptible collection keeps its size and the Infected one never grows.
pub proof fn law_run_no_infection_without_chance(v: Snapshot, c: Config, ds: Seq<Seq<Seq<u64>>>)
    requires
        c.infection_rate == 0,
    ensures
        run(v, c, ds).susceptible.len() == v.susceptible.len(),
        run(v, c, ds).infected.len() <= v.infected.len(),
    decreases ds.len(),
{
    if ds.len() > 0 {
        law_run_no_infection_without_chance(v, c, ds.drop_last());
        law_no_infection_without_chance(run(v, c, ds.drop_last()), c, ds.last());
    }
}

} // verus!
