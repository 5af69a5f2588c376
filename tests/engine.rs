use pandemic_sim::agent::{make_agent, Agent, Health};
use pandemic_sim::config::{Config, ConfigError, CHANCE_SCALE};
use pandemic_sim::population::{touches, Population};
use pandemic_sim::simulation::{create_agent, draw_chances, Simulation};
use rand::SeedableRng;

fn cfg() -> Config {
    Config {
        width: 100,
        height: 100,
        radius: 5,
        infection_radius: 2,
        max_speed: 3,
        population: 10,
        initial_infected: 2,
        infection_rate: 1000,
        fatality_rate: 100,
        recovery_base_ticks: 10,
        recovery_jitter_ticks: 2,
    }
}

fn agent(id: u64, x: i64, y: i64, vx: i64, vy: i64, health: Health) -> Agent {
    Agent {
        id,
        x,
        y,
        vx,
        vy,
        health,
        infected_duration_ticks: 0,
        recovery_deadline_ticks: 100,
        fated_to_die: false,
    }
}

fn only_infected(a: Agent) -> Population {
    Population { susceptible: vec![], infected: vec![a], recovered: vec![], dead: vec![] }
}

fn step(p: &mut Population, c: &Config, d: &Vec<Vec<u64>>) {
    assert!(p.is_well_formed(c));
    assert!(d.len() >= p.infected.len());
    assert!(d.iter().all(|r| r.len() >= p.susceptible.len()));
    p.step_with_draws(c, d);
}

fn all_ids(p: &Population) -> Vec<u64> {
    let mut ids: Vec<u64> = p
        .susceptible
        .iter()
        .chain(p.infected.iter())
        .chain(p.recovered.iter())
        .chain(p.dead.iter())
        .map(|a| a.id)
        .collect();
    ids.sort();
    ids
}

fn total(p: &Population) -> usize {
    p.susceptible.len() + p.infected.len() + p.recovered.len() + p.dead.len()
}

#[test]
fn validate_accepts_sound_config() {
    assert_eq!(cfg().validate(), Ok(()));
}

#[test]
fn validate_rejects_negative_length() {
    let mut c = cfg();
    c.radius = -1;
    c.width = 200_000_000;
    assert_eq!(c.validate(), Err(ConfigError::NegativeLength));
    let mut c = cfg();
    c.max_speed = -2;
    assert_eq!(c.validate(), Err(ConfigError::NegativeLength));
}

#[test]
fn validate_rejects_too_large() {
    let mut c = cfg();
    c.width = 200_000_000;
    assert_eq!(c.validate(), Err(ConfigError::TooLarge));
    let mut c = cfg();
    c.population = 20_000_000;
    c.initial_infected = 1;
    assert_eq!(c.validate(), Err(ConfigError::TooLarge));
}

#[test]
fn validate_rejects_small_arena() {
    let mut c = cfg();
    c.width = 10;
    assert_eq!(c.validate(), Err(ConfigError::ArenaTooSmall));
    c.width = 11;
    assert_eq!(c.validate(), Ok(()));
}

#[test]
fn validate_rejects_too_many_initial_infected() {
    let mut c = cfg();
    c.initial_infected = 11;
    assert_eq!(c.validate(), Err(ConfigError::TooManyInitialInfected));
}

#[test]
fn validate_rejects_chance_out_of_range() {
    let mut c = cfg();
    c.infection_rate = CHANCE_SCALE + 1;
    assert_eq!(c.validate(), Err(ConfigError::ChanceOutOfRange));
    let mut c = cfg();
    c.fatality_rate = CHANCE_SCALE + 1;
    assert_eq!(c.validate(), Err(ConfigError::ChanceOutOfRange));
}

#[test]
fn validate_rejects_jitter_above_base() {
    let mut c = cfg();
    c.recovery_jitter_ticks = 11;
    assert_eq!(c.validate(), Err(ConfigError::JitterExceedsBase));
}

#[test]
fn advance_moves_by_velocity() {
    let c = cfg();
    let mut a = agent(0, 50, 50, 3, -2, Health::Susceptible);
    a.advance(&c);
    assert_eq!((a.x, a.y, a.vx, a.vy), (53, 48, 3, -2));
}

#[test]
fn advance_reflects_at_right_wall_without_clamping() {
    let c = cfg();
    let mut a = agent(0, 94, 50, 3, 1, Health::Recovered);
    a.advance(&c);
    assert_eq!((a.x, a.y, a.vx, a.vy), (97, 51, -3, 1));
    a.advance(&c);
    assert_eq!((a.x, a.vx), (94, -3));
}

#[test]
fn advance_reflects_at_left_and_top_walls() {
    let c = cfg();
    let mut a = agent(0, 6, 7, -3, -3, Health::Infected);
    a.advance(&c);
    assert_eq!((a.x, a.y, a.vx, a.vy), (3, 4, 3, 3));
}

#[test]
fn make_agent_from_draws() {
    let c = cfg();
    let a = make_agent(&c, 7, Health::Susceptible, 10, 20, 3, 5, 1, 99);
    assert_eq!(a.id, 7);
    assert_eq!((a.x, a.y), (15, 25));
    assert_eq!((a.vx, a.vy), (1, 2));
    assert_eq!(a.recovery_deadline_ticks, 9);
    assert_eq!(a.infected_duration_ticks, 0);
    assert!(a.fated_to_die);
    assert_eq!(a.health, Health::Susceptible);
    let b = make_agent(&c, 8, Health::Infected, 0, 89, 6, 0, 4, 100);
    assert_eq!((b.x, b.y, b.vx, b.vy), (5, 94, 3, -3));
    assert_eq!(b.recovery_deadline_ticks, 12);
    assert!(!b.fated_to_die);
}

#[test]
fn touches_is_strict_distance_test() {
    let c = cfg();
    let a = agent(0, 50, 50, 1, 1, Health::Infected);
    assert!(!touches(&c, &a, &agent(1, 57, 50, 1, 1, Health::Susceptible)));
    assert!(touches(&c, &a, &agent(1, 56, 50, 1, 1, Health::Susceptible)));
    assert!(!touches(&c, &a, &agent(1, 55, 55, 1, 1, Health::Susceptible)));
    assert!(touches(&c, &a, &agent(1, 54, 55, 1, 1, Health::Susceptible)));
    assert!(touches(&c, &a, &a));
}

#[test]
fn certain_infection_of_colocated_agent() {
    let mut c = cfg();
    c.infection_rate = CHANCE_SCALE;
    let mut p = Population {
        susceptible: vec![agent(1, 50, 50, 1, 1, Health::Susceptible)],
        infected: vec![agent(0, 50, 50, 1, 1, Health::Infected)],
        recovered: vec![],
        dead: vec![],
    };
    step(&mut p, &c, &vec![vec![CHANCE_SCALE - 1]]);
    assert!(p.susceptible.is_empty());
    assert_eq!(p.infected.len(), 2);
    assert_eq!(p.infected[0].id, 0);
    assert_eq!(p.infected[0].infected_duration_ticks, 1);
    assert_eq!(p.infected[1].id, 1);
    assert_eq!(p.infected[1].health, Health::Infected);
    assert_eq!(p.infected[1].infected_duration_ticks, 0);
    assert_eq!((p.infected[1].x, p.infected[1].y), (51, 51));
}

#[test]
fn chance_decides_a_contact() {
    let c = cfg();
    let base = Population {
        susceptible: vec![agent(1, 50, 50, 1, 1, Health::Susceptible)],
        infected: vec![agent(0, 50, 50, 1, 1, Health::Infected)],
        recovered: vec![],
        dead: vec![],
    };
    let mut p = base.clone();
    step(&mut p, &c, &vec![vec![999]]);
    assert_eq!(p.infected.len(), 2);
    let mut q = base.clone();
    step(&mut q, &c, &vec![vec![1000]]);
    assert_eq!(q.infected.len(), 1);
    assert_eq!(q.susceptible.len(), 1);
}

#[test]
fn agents_out_of_reach_are_not_infected() {
    let mut c = cfg();
    c.infection_rate = CHANCE_SCALE;
    let mut p = Population {
        susceptible: vec![agent(1, 80, 80, 1, 1, Health::Susceptible)],
        infected: vec![agent(0, 20, 20, 1, 1, Health::Infected)],
        recovered: vec![],
        dead: vec![],
    };
    step(&mut p, &c, &vec![vec![0]]);
    assert_eq!(p.susceptible.len(), 1);
    assert_eq!(p.infected.len(), 1);
}

#[test]
fn newly_infected_do_not_transmit_in_same_tick() {
    let mut c = cfg();
    c.infection_rate = CHANCE_SCALE;
    let mut p = Population {
        susceptible: vec![
            agent(1, 25, 50, 1, 0, Health::Susceptible),
            agent(2, 30, 50, 1, 0, Health::Susceptible),
        ],
        infected: vec![agent(0, 20, 50, 1, 0, Health::Infected)],
        recovered: vec![],
        dead: vec![],
    };
    step(&mut p, &c, &vec![vec![0, 0]]);
    assert_eq!(p.infected.iter().map(|a| a.id).collect::<Vec<u64>>(), vec![0, 1]);
    assert_eq!(p.susceptible.iter().map(|a| a.id).collect::<Vec<u64>>(), vec![2]);
    step(&mut p, &c, &vec![vec![0], vec![0]]);
    assert_eq!(p.infected.iter().map(|a| a.id).collect::<Vec<u64>>(), vec![0, 1, 2]);
    assert!(p.susceptible.is_empty());
}

#[test]
fn forced_recovery() {
    let c = cfg();
    let mut a = agent(0, 50, 50, 1, 1, Health::Infected);
    a.recovery_deadline_ticks = 3;
    a.fated_to_die = false;
    let mut p = only_infected(a);
    for _ in 0..3 {
        step(&mut p, &c, &vec![vec![]]);
    }
    // the clock reaches the deadline on the third tick and resolves on the next
    assert_eq!(p.infected.len(), 1);
    assert_eq!(p.infected[0].infected_duration_ticks, 3);
    step(&mut p, &c, &vec![vec![]]);
    assert!(p.infected.is_empty());
    assert!(p.dead.is_empty());
    assert_eq!(p.recovered.len(), 1);
    assert_eq!(p.recovered[0].id, 0);
    assert_eq!(p.recovered[0].health, Health::Recovered);
}

#[test]
fn forced_death() {
    let c = cfg();
    let mut a = agent(0, 50, 50, 1, 1, Health::Infected);
    a.recovery_deadline_ticks = 3;
    a.fated_to_die = true;
    let mut p = only_infected(a);
    for _ in 0..3 {
        step(&mut p, &c, &vec![vec![]]);
    }
    assert_eq!(p.infected.len(), 1);
    step(&mut p, &c, &vec![vec![]]);
    assert!(p.infected.is_empty());
    assert!(p.recovered.is_empty());
    assert_eq!(p.dead.len(), 1);
    assert_eq!(p.dead[0].health, Health::Dead);
    let (x, y) = (p.dead[0].x, p.dead[0].y);
    step(&mut p, &c, &vec![]);
    assert_eq!((p.dead[0].x, p.dead[0].y), (x, y));
}

#[test]
fn destiny_is_kept_while_infected() {
    let c = cfg();
    let mut a = agent(4, 50, 50, 2, -1, Health::Infected);
    a.recovery_deadline_ticks = 5;
    a.fated_to_die = true;
    let mut p = only_infected(a);
    for t in 1..=5u64 {
        step(&mut p, &c, &vec![vec![]]);
        assert_eq!(p.infected[0].recovery_deadline_ticks, 5);
        assert!(p.infected[0].fated_to_die);
        assert_eq!(p.infected[0].infected_duration_ticks, t);
    }
}

#[test]
fn zero_infection_rate_never_spreads() {
    let mut c = cfg();
    c.population = 50;
    c.initial_infected = 5;
    c.infection_rate = 0;
    c.infection_radius = 40;
    let mut s = Simulation::new(c, 7).unwrap();
    let mut sus = s.population().susceptible.len();
    assert_eq!(sus, 45);
    for _ in 0..100 {
        s.step();
        assert!(s.population().infected.len() <= 5);
        assert!(s.population().susceptible.len() >= sus);
        sus = s.population().susceptible.len();
    }
}

#[test]
fn population_is_conserved_and_each_agent_held_once() {
    let mut c = cfg();
    c.population = 60;
    c.initial_infected = 3;
    c.infection_rate = 5000;
    c.fatality_rate = 5000;
    c.recovery_base_ticks = 3;
    c.recovery_jitter_ticks = 1;
    c.infection_radius = 10;
    let mut s = Simulation::new(c, 11).unwrap();
    let expected: Vec<u64> = (0..60).collect();
    for _ in 0..200 {
        s.step();
        assert_eq!(total(s.population()), 60);
        assert_eq!(all_ids(s.population()), expected);
    }
}

#[test]
fn recovered_and_dead_stay_so() {
    let mut c = cfg();
    c.population = 40;
    c.initial_infected = 4;
    c.infection_rate = 8000;
    c.fatality_rate = 3000;
    c.recovery_base_ticks = 2;
    c.recovery_jitter_ticks = 1;
    c.infection_radius = 15;
    let mut s = Simulation::new(c, 3).unwrap();
    let mut rec: Vec<u64> = vec![];
    let mut dead: Vec<u64> = vec![];
    for _ in 0..150 {
        s.step();
        let p = s.population();
        let now_rec: Vec<u64> = p.recovered.iter().map(|a| a.id).collect();
        let now_dead: Vec<u64> = p.dead.iter().map(|a| a.id).collect();
        assert_eq!(&now_rec[..rec.len()], &rec[..]);
        assert_eq!(&now_dead[..dead.len()], &dead[..]);
        assert!(p.recovered.iter().all(|a| a.health == Health::Recovered));
        assert!(p.dead.iter().all(|a| a.health == Health::Dead));
        rec = now_rec;
        dead = now_dead;
    }
}

#[test]
fn new_simulation_seeds_population() {
    let c = cfg();
    let s = Simulation::new(c, 42).unwrap();
    let p = s.population();
    assert_eq!(p.infected.iter().map(|a| a.id).collect::<Vec<u64>>(), vec![0, 1]);
    assert_eq!(p.susceptible.iter().map(|a| a.id).collect::<Vec<u64>>(), (2..10).collect::<Vec<u64>>());
    assert!(p.recovered.is_empty() && p.dead.is_empty());
    for a in p.infected.iter().chain(p.susceptible.iter()) {
        assert!(a.x >= 5 && a.x < 95 && a.y >= 5 && a.y < 95);
        assert!(a.vx != 0 && a.vy != 0 && a.vx.abs() <= 3 && a.vy.abs() <= 3);
        assert!(a.recovery_deadline_ticks >= 8 && a.recovery_deadline_ticks <= 12);
        assert_eq!(a.infected_duration_ticks, 0);
    }
    assert!(p.infected.iter().all(|a| a.health == Health::Infected));
    assert!(p.susceptible.iter().all(|a| a.health == Health::Susceptible));
    assert_eq!(*s.config(), c);
}

#[test]
fn new_simulation_rejects_bad_config() {
    let mut c = cfg();
    c.infection_rate = CHANCE_SCALE + 5;
    assert!(matches!(Simulation::new(c, 1), Err(ConfigError::ChanceOutOfRange)));
}

#[test]
fn same_seed_same_run() {
    let c = cfg();
    let mut a = Simulation::new(c, 99).unwrap();
    let mut b = Simulation::new(c, 99).unwrap();
    for _ in 0..30 {
        a.step();
        b.step();
    }
    assert_eq!(a.population().susceptible, b.population().susceptible);
    assert_eq!(a.population().infected, b.population().infected);
    assert_eq!(a.population().recovered, b.population().recovered);
    assert_eq!(a.population().dead, b.population().dead);
}

#[test]
fn reset_reseeds_or_keeps_state() {
    let c = cfg();
    let mut s = Simulation::new(c, 5).unwrap();
    s.step();
    let before = s.population().susceptible.clone();
    let mut bad = c;
    bad.width = 4;
    assert_eq!(s.reset(bad), Err(ConfigError::ArenaTooSmall));
    assert_eq!(s.population().susceptible, before);
    let mut other = c;
    other.population = 20;
    other.initial_infected = 1;
    assert_eq!(s.reset(other), Ok(()));
    assert_eq!(s.population().infected.len(), 1);
    assert_eq!(s.population().susceptible.len(), 19);
    assert_eq!(*s.config(), other);
}

#[test]
fn created_agents_stay_inside_spawn_band() {
    let mut c = cfg();
    c.width = 12;
    c.height = 12;
    c.max_speed = 0;
    c.recovery_jitter_ticks = 0;
    c.fatality_rate = CHANCE_SCALE;
    let mut rng = rand::rngs::StdRng::seed_from_u64(1);
    let mut seen_six = false;
    for id in 0..300 {
        let a = create_agent(&c, &mut rng, id, Health::Susceptible);
        assert!(a.x == 5 || a.x == 6);
        assert!(a.y == 5 || a.y == 6);
        seen_six |= a.x == 6;
        assert_eq!((a.vx, a.vy), (1, 1));
        assert_eq!(a.recovery_deadline_ticks, 10);
        assert!(a.fated_to_die);
    }
    assert!(seen_six);
}

#[test]
fn drawn_chances_have_shape_and_range() {
    let mut rng = rand::rngs::StdRng::seed_from_u64(2);
    let d = draw_chances(&mut rng, 3, 200);
    assert_eq!(d.len(), 3);
    assert!(d.iter().all(|r| r.len() == 200));
    assert!(d.iter().flatten().all(|&x| x < CHANCE_SCALE));
    assert!(d.iter().flatten().any(|&x| x != d[0][0]));
}


#[test]
fn well_formedness_check() {
    let c = cfg();
    let good = only_infected(agent(0, 50, 50, 1, 1, Health::Infected));
    assert!(good.is_well_formed(&c));
    let wrong_state = only_infected(agent(0, 50, 50, 1, 1, Health::Recovered));
    assert!(!wrong_state.is_well_formed(&c));
    let far_outside = only_infected(agent(0, 200, 50, 1, 1, Health::Infected));
    assert!(!far_outside.is_well_formed(&c));
    let heading_out = only_infected(agent(0, 97, 50, 3, 1, Health::Infected));
    assert!(!heading_out.is_well_formed(&c));
    let heading_in = only_infected(agent(0, 97, 50, -3, 1, Health::Infected));
    assert!(heading_in.is_well_formed(&c));
    assert!(agent(0, 5, 95, 1, -1, Health::Dead).is_placed(&c));
    assert!(!agent(0, 4, 50, 0, 1, Health::Dead).is_placed(&c));
}
