use turmite::action::Action;
use turmite::colony::{Colony, ColonyConfig};
use turmite::machine::Agent;
use turmite::random::SimRng;
use turmite::table::{TableError, Transition, TransitionTable};

fn config(steps: u32, cost: u32, replication_cost: u32, num_symbols: u16) -> ColonyConfig {
    ColonyConfig {
        steps_per_frame: steps,
        step_cost: cost,
        gain_divisor: 10,
        start_energy: 10,
        replication_cost,
        min_population: 0,
        num_states: 1,
        num_symbols,
    }
}

fn table(entries: &[(u8, Action)]) -> TransitionTable {
    let e: Vec<Transition> = entries.iter().map(|&(symbol, action)| Transition { state: 0, symbol, action }).collect();
    TransitionTable::from_entries(1, e.len() as u16, &e).unwrap()
}

fn waiting() -> TransitionTable {
    table(&[(0, Action::Wait), (0, Action::Wait)])
}

#[test]
fn standard_config() {
    let c = ColonyConfig::standard();
    assert_eq!(c.steps_per_frame, 10);
    assert_eq!(c.step_cost, 1);
    assert_eq!(c.gain_divisor, 10);
    assert_eq!(c.start_energy, 10);
    assert_eq!(c.replication_cost, 500);
    assert_eq!(c.min_population, 1);
    assert_eq!((c.num_states, c.num_symbols), (50, 64));
    assert!(c.is_valid());
}

#[test]
fn invalid_config_is_refused() {
    let mut c = ColonyConfig::standard();
    c.gain_divisor = 0;
    assert!(!c.is_valid());
    assert_eq!(Colony::new(c, 8, 8).err(), Some(TableError::InvalidConfiguration));
    let mut c = ColonyConfig::standard();
    c.num_symbols = 1;
    assert_eq!(Colony::new(c, 8, 8).err(), Some(TableError::InvalidConfiguration));
}

#[test]
fn energy_drains_by_the_step_cost() {
    let mut colony = Colony::new(config(3, 2, 500, 2), 8, 8).unwrap();
    colony.add(Agent::new(waiting(), 1, 1, 10));
    colony.advance();
    assert_eq!(colony.agents().len(), 1);
    assert_eq!(colony.agents()[0].energy(), 4);
    assert_eq!(colony.agents()[0].steps(), 3);
    colony.advance();
    assert_eq!(colony.agents().len(), 0);
}

#[test]
fn machine_is_pruned_when_energy_reaches_zero() {
    let mut colony = Colony::new(config(5, 1, 500, 2), 8, 8).unwrap();
    colony.add(Agent::new(waiting(), 0, 0, 5));
    colony.add(Agent::new(waiting(), 1, 0, 6));
    colony.advance();
    assert_eq!(colony.agents().len(), 1);
    assert_eq!(colony.agents()[0].x(), 1);
    assert_eq!(colony.agents()[0].energy(), 1);
    colony.advance();
    assert_eq!(colony.agents().len(), 0);
}

#[test]
fn dead_machine_stops_stepping() {
    let mut colony = Colony::new(config(5, 1, 500, 2), 8, 8).unwrap();
    colony.add(Agent::new(table(&[(1, Action::Left), (1, Action::Left)]), 0, 0, 2));
    colony.add(Agent::new(waiting(), 0, 5, 20));
    colony.advance();
    // It took two steps, writing two cells, then had no energy left.
    assert_eq!(colony.grid().cells()[..8], [1, 1, 0, 0, 0, 0, 0, 0]);
    assert_eq!(colony.agents().len(), 1);
    assert_eq!(colony.agents()[0].energy(), 15);
}

#[test]
fn energy_is_gained_from_the_symbol_read_before_writing() {
    let mut entries = vec![(0u8, Action::Wait); 64];
    entries[0] = (50, Action::Wait);
    entries[50] = (50, Action::Wait);
    let mut colony = Colony::new(config(3, 1, 500, 64), 8, 8).unwrap();
    colony.add(Agent::new(table(&entries), 2, 2, 10));
    colony.advance();
    // 10 - 1 + 0, then - 1 + 5 twice.
    assert_eq!(colony.agents()[0].energy(), 17);
    assert_eq!(colony.grid().read(2, 2), 50);
    colony.decay();
    assert_eq!(colony.grid().read(2, 2), 49);
    assert_eq!(colony.agents()[0].energy(), 17);
}

#[test]
fn replication_spawns_copies_that_wait_for_the_next_frame() {
    let mut colony = Colony::new(config(2, 1, 5, 2), 8, 8).unwrap();
    colony.add(Agent::new(table(&[(1, Action::Replicate), (1, Action::Replicate)]), 2, 3, 20));
    colony.advance();
    let agents = colony.agents();
    assert_eq!(agents.len(), 3);
    assert_eq!((agents[0].x(), agents[0].y(), agents[0].energy(), agents[0].steps()), (2, 3, 8, 2));
    assert_eq!((agents[1].x(), agents[1].y(), agents[1].energy(), agents[1].steps()), (3, 4, 10, 1));
    assert_eq!((agents[2].x(), agents[2].y(), agents[2].energy(), agents[2].steps()), (3, 4, 10, 2));
    assert_eq!(colony.grid().read(2, 3), 1);
    assert_eq!(colony.grid().read(3, 4), 0);
}

#[test]
fn replication_needs_more_than_the_cost() {
    let mut colony = Colony::new(config(1, 1, 9, 2), 8, 8).unwrap();
    colony.add(Agent::new(table(&[(1, Action::Replicate), (1, Action::Replicate)]), 0, 0, 10));
    colony.advance();
    assert_eq!(colony.agents().len(), 1);
    assert_eq!(colony.agents()[0].energy(), 9);
}

#[test]
fn newborn_wraps_around_the_corner() {
    let mut colony = Colony::new(config(1, 1, 5, 2), 8, 6).unwrap();
    colony.add(Agent::new(table(&[(1, Action::Replicate), (1, Action::Replicate)]), 7, 5, 20));
    colony.advance();
    let agents = colony.agents();
    assert_eq!(agents.len(), 2);
    assert_eq!((agents[1].x(), agents[1].y()), (0, 0));
}

#[test]
fn tick_tops_up_the_population() {
    let mut c = ColonyConfig::standard();
    c.min_population = 3;
    let mut colony = Colony::new(c, 16, 16).unwrap();
    let mut rng = SimRng::from_seed(4);
    colony.tick(&mut rng);
    assert_eq!(colony.agents().len(), 3);
    for a in colony.agents() {
        assert_eq!((a.state(), a.steps(), a.energy()), (0, 0, 10));
        assert!(a.x() < 16 && a.y() < 16);
        assert_eq!((a.table().num_states(), a.table().num_symbols()), (50, 64));
    }
    colony.tick(&mut rng);
    assert!(colony.agents().len() >= 3);
}

#[test]
fn colony_reset_clears_everything() {
    let mut colony = Colony::new(config(3, 1, 500, 2), 4, 4).unwrap();
    colony.add(Agent::new(table(&[(1, Action::Left), (1, Action::Left)]), 0, 0, 10));
    colony.advance();
    assert!(colony.grid().cells().iter().any(|&c| c != 0));
    colony.reset();
    assert!(colony.grid().cells().iter().all(|&c| c == 0));
    assert_eq!(colony.agents().len(), 0);
    assert_eq!(colony.config().steps_per_frame, 3);
}
