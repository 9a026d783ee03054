use spread_sim_rocket::geometry::{Rectangle, Xy};
use spread_sim_rocket::model::{
    Health, Parameters, Partition, Person, PersonInfo, Query, Scenario,
};
use spread_sim_rocket::patch::{Patch, sort_persons_by_id, HealthClass};

fn healthy() -> Health {
    Health {
        susceptible: true,
        infected: false,
        infectious: false,
        coughing: false,
        breathing: true,
        recovered: false,
    }
}

fn spreader() -> Health {
    Health {
        susceptible: false,
        infected: true,
        infectious: true,
        coughing: true,
        breathing: true,
        recovered: false,
    }
}

fn person(id: u64, x: i64, y: i64, health: Health) -> Person {
    Person {
        id,
        position: Xy::new(x, y),
        health,
    }
}

/// A 10x5 grid split at x = 5 into two patches.
fn two_patch_scenario() -> Scenario {
    Scenario {
        parameters: Parameters {
            infection_radius: 2,
            incubation_time: 2,
        },
        grid_size: Xy::new(10, 5),
        partition: Partition::new(vec![5], vec![]),
        obstacles: vec![],
        queries: vec![Query {
            name: "all".to_string(),
            area: Rectangle::new(Xy::new(0, 0), Xy::new(10, 5)),
        }],
        trace: true,
        ticks: 4,
        population: vec![],
    }
}

fn global_population() -> Vec<Person> {
    vec![
        person(0, 1, 1, healthy()),
        person(1, 4, 2, spreader()),
        person(2, 6, 3, healthy()),
        person(3, 8, 1, healthy()),
        person(4, 2, 4, healthy()),
    ]
}

#[test]
fn patch_new_filters_population_to_padded() {
    let scenario = two_patch_scenario();
    let pop = global_population();
    // Patch 1 owns x in [5, 10); with padding 4 its halo starts at x = 1.
    let patch = Patch::new(&scenario, &pop, 1, 1, 4);
    assert_eq!(patch.owned_patch, Rectangle::new(Xy::new(5, 0), Xy::new(5, 5)));
    assert_eq!(patch.padded_patch, Rectangle::new(Xy::new(1, 0), Xy::new(9, 5)));
    // Person 0 at x = 1 stands exactly on the halo edge and is kept.
    let ids: Vec<u64> = patch.population.iter().map(|p| p.id).collect();
    assert_eq!(ids, vec![0, 1, 2, 3, 4]);
    assert_eq!(patch.positions.len(), 5);
    assert_eq!(patch.positions[2], Xy::new(6, 3));
}

#[test]
fn patch_new_records_tick_zero_output() {
    let scenario = two_patch_scenario();
    let pop = global_population();
    let patch = Patch::new(&scenario, &pop, 0, 1, 4);
    // One trace entry before any tick: the owned persons of patch 0.
    assert_eq!(patch.trace.len(), 1);
    let ids: Vec<u64> = patch.trace[0].population.iter().map(|r| r.1).collect();
    assert_eq!(ids, vec![0, 1, 4]);
    // One statistics row for the single query: 2 susceptible + 1 infected
    // stand in the owned tile.
    assert_eq!(patch.statistics.len(), 1);
    assert_eq!(patch.statistics[0].len(), 1);
    let st = patch.statistics[0][0];
    assert_eq!(st.susceptible, 2);
    assert_eq!(st.infected, 1);
    assert_eq!(st.infectious, 1);
    assert_eq!(st.recovered, 0);
}

#[test]
fn trace_disabled_records_no_entries() {
    let mut scenario = two_patch_scenario();
    scenario.trace = false;
    let pop = global_population();
    let mut patch = Patch::new(&scenario, &pop, 0, 1, 4);
    patch.extend_output();
    assert_eq!(patch.trace.len(), 0);
    assert_eq!(patch.statistics[0].len(), 2);
}

#[test]
fn wipe_padding_keeps_owned_persons_only() {
    let scenario = two_patch_scenario();
    let pop = global_population();
    let mut patch = Patch::new(&scenario, &pop, 1, 1, 4);
    patch.wipe_padding();
    let ids: Vec<u64> = patch.population.iter().map(|p| p.id).collect();
    assert_eq!(ids, vec![2, 3]);
    assert_eq!(patch.positions.len(), 2);
}

#[test]
fn wipe_then_refill_restores_padded_projection() {
    // The round-trip law on concrete values: after a wipe, absorbing every
    // peer's post-wipe owned population rebuilds exactly the padded
    // projection of the global population.
    let scenario = two_patch_scenario();
    let pop = global_population();
    let mut receiver = Patch::new(&scenario, &pop, 1, 1, 4);
    let mut peer = Patch::new(&scenario, &pop, 0, 1, 4);
    receiver.wipe_padding();
    peer.wipe_padding();
    receiver.sync_absorb(&peer.population);
    receiver.sync_finish();
    let mut got: Vec<(u64, Xy)> = receiver
        .population
        .iter()
        .map(|p| (p.id, p.position))
        .collect();
    got.sort_by_key(|e| e.0);
    let want: Vec<(u64, Xy)> = global_population()
        .iter()
        .filter(|p| receiver.padded_patch.contains(&p.position))
        .map(|p| (p.id, p.position))
        .collect();
    assert_eq!(got, want);
}

#[test]
fn sync_finish_sorts_by_id() {
    let v = vec![
        person(3, 1, 1, healthy()),
        person(0, 2, 2, healthy()),
        person(2, 3, 3, healthy()),
        person(1, 4, 4, healthy()),
    ];
    let sorted = sort_persons_by_id(&v);
    let ids: Vec<u64> = sorted.iter().map(|p| p.id).collect();
    assert_eq!(ids, vec![0, 1, 2, 3]);
}

#[test]
fn sync_due_follows_the_cycle() {
    let scenario = two_patch_scenario();
    let pop = global_population();
    let patch = Patch::new(&scenario, &pop, 0, 3, 4);
    // ticks_independent = 3: sync before ticks 2, 5, 8, ...
    assert!(!patch.sync_due(0));
    assert!(!patch.sync_due(1));
    assert!(patch.sync_due(2));
    assert!(!patch.sync_due(3));
}

#[test]
fn ghosts_record_start_positions_and_clear() {
    let scenario = two_patch_scenario();
    let pop = global_population();
    let mut patch = Patch::new(&scenario, &pop, 0, 1, 4);
    patch.record_ghost(0);
    patch.record_ghost(1);
    assert_eq!(patch.ghosts, vec![Xy::new(1, 1), Xy::new(4, 2)]);
    patch.clear_ghosts();
    assert!(patch.ghosts.is_empty());
}

#[test]
fn apply_move_updates_position_and_index() {
    let scenario = two_patch_scenario();
    let pop = global_population();
    let mut patch = Patch::new(&scenario, &pop, 0, 1, 4);
    patch.apply_move(0, Xy::new(3, 3));
    assert_eq!(patch.population[0].position, Xy::new(3, 3));
    assert_eq!(patch.positions[0], Xy::new(3, 3));
    assert_eq!(patch.population[0].id, 0);
}

#[test]
fn contagion_pairs_lists_close_pairs_in_order() {
    let scenario = two_patch_scenario();
    // Persons 0 and 1 are 2 apart, 1 and 2 are 1 apart; 0 and 2 are 3 apart.
    let pop = vec![
        person(0, 1, 1, healthy()),
        person(1, 2, 2, spreader()),
        person(2, 2, 3, healthy()),
    ];
    let patch = Patch::new(&scenario, &pop, 0, 1, 4);
    let pairs = patch.contagion_pairs();
    assert_eq!(pairs, vec![(0, 1), (1, 2)]);
}

#[test]
fn should_infect_needs_radius_and_predicates() {
    let scenario = two_patch_scenario();
    let pop = vec![
        person(0, 1, 1, spreader()),
        person(1, 2, 2, healthy()),
        person(2, 8, 4, healthy()),
    ];
    let patch = Patch::new(&scenario, &pop, 0, 1, 4);
    // 0 is infectious and coughing, 1 breathes and stands within radius 2.
    assert!(patch.should_infect(0, 1));
    // The reverse direction has a healthy source.
    assert!(!patch.should_infect(1, 0));
    // 2 is too far from 0.
    assert!(!patch.should_infect(0, 2));
}

#[test]
fn set_health_changes_only_the_target() {
    let scenario = two_patch_scenario();
    let pop = global_population();
    let mut patch = Patch::new(&scenario, &pop, 0, 1, 4);
    let h = spreader();
    patch.set_health(0, h);
    assert_eq!(patch.population[0].health, h);
    assert_eq!(patch.population[0].position, Xy::new(1, 1));
    assert_eq!(patch.population[1].health, spreader());
}

#[test]
fn count_persons_restricts_to_query_and_owned() {
    let scenario = two_patch_scenario();
    let pop = global_population();
    let patch = Patch::new(&scenario, &pop, 0, 1, 4);
    // Query area covering only the column x = 1.
    let area = Rectangle::new(Xy::new(1, 0), Xy::new(1, 5));
    assert_eq!(patch.count_persons(HealthClass::Susceptible, &area), 1);
    assert_eq!(patch.count_persons(HealthClass::Infected, &area), 0);
}

#[test]
fn into_output_hands_over_trace_and_statistics() {
    let scenario = two_patch_scenario();
    let pop = global_population();
    let patch = Patch::new(&scenario, &pop, 0, 1, 4);
    let trace_len = patch.trace.len();
    let out = patch.into_output();
    assert_eq!(out.trace.len(), trace_len);
    assert_eq!(out.statistics.len(), 1);
}

#[test]
fn owned_tiles_conserve_the_population() {
    // Every person of the global population is owned by exactly one patch:
    // the per-patch owned counts sum to the population size.
    let scenario = two_patch_scenario();
    let pop = global_population();
    let patch0 = Patch::new(&scenario, &pop, 0, 1, 4);
    let patch1 = Patch::new(&scenario, &pop, 1, 1, 4);
    let owned0 = pop.iter().filter(|p| patch0.owned_patch.contains(&p.position)).count();
    let owned1 = pop.iter().filter(|p| patch1.owned_patch.contains(&p.position)).count();
    assert_eq!(owned0 + owned1, pop.len());
}
