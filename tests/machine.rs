use turmite::action::Action;
use turmite::grid::Grid;
use turmite::machine::{move_head, Agent, Simulation};
use turmite::random::SimRng;
use turmite::table::TransitionTable;

const FULL: &str = "3,4,2,2,0,1,3,1,0,1,2,2,0,3,1,1,0,0,2,1,0,0,3,1,2,2,1,0,0,0,2,0,1,2,0,2,1,3";

#[test]
fn moves_wrap_around_the_edges() {
    assert_eq!(move_head(Action::Right, 0, 3, 10, 8), (9, 3));
    assert_eq!(move_head(Action::Left, 9, 3, 10, 8), (0, 3));
    assert_eq!(move_head(Action::Up, 4, 0, 10, 8), (4, 7));
    assert_eq!(move_head(Action::Down, 4, 7, 10, 8), (4, 0));
}

#[test]
fn moves_inside_the_grid() {
    assert_eq!(move_head(Action::Left, 4, 5, 10, 8), (5, 5));
    assert_eq!(move_head(Action::Right, 4, 5, 10, 8), (3, 5));
    assert_eq!(move_head(Action::Up, 4, 5, 10, 8), (4, 4));
    assert_eq!(move_head(Action::Down, 4, 5, 10, 8), (4, 6));
    assert_eq!(move_head(Action::Wait, 4, 5, 10, 8), (4, 5));
    assert_eq!(move_head(Action::Replicate, 4, 5, 10, 8), (4, 5));
    assert_eq!(move_head(Action::Left, 0, 0, 1, 1), (0, 0));
}

#[test]
fn grid_addresses_wrap() {
    let mut g = Grid::new(4, 3);
    assert_eq!(g.cells().len(), 12);
    assert!(g.cells().iter().all(|&c| c == 0));
    g.write(1, 2, 9);
    assert_eq!(g.read(1, 2), 9);
    assert_eq!(g.read(5, 5), 9);
    assert_eq!(g.cells()[2 * 4 + 1], 9);
    g.write(7, 0, 4);
    assert_eq!(g.read(3, 0), 4);
    assert_eq!(g.cells()[3], 4);
}

#[test]
fn grid_reset_and_decay() {
    let mut g = Grid::new(3, 2);
    g.write(0, 0, 2);
    g.write(2, 1, 1);
    g.write(1, 0, 5);
    g.decay_tick();
    assert_eq!(g.cells(), &[1, 4, 0, 0, 0, 0]);
    g.decay_tick();
    assert_eq!(g.cells(), &[0, 3, 0, 0, 0, 0]);
    g.reset();
    assert_eq!(g.cells(), &[0; 6]);
    assert_eq!((g.width(), g.height()), (3, 2));
}

#[test]
fn first_step_of_decoded_table() {
    let table = TransitionTable::from_encoding(FULL).unwrap();
    let mut sim = Simulation::new(table, 16, 16);
    sim.step(1);
    assert_eq!(sim.grid().read(0, 0), 2);
    assert_eq!(sim.agent().state(), 2);
    assert_eq!((sim.agent().x(), sim.agent().y()), (1, 0));
    assert_eq!(sim.agent().steps(), 1);
}

#[test]
fn agent_step_reads_writes_then_moves() {
    let table = TransitionTable::from_encoding(FULL).unwrap();
    let mut grid = Grid::new(5, 5);
    grid.write(0, 4, 1);
    // state 0 on symbol 1: entry 3, (2, 0, Down); the head wraps to row 0.
    let mut agent = Agent::new(table, 0, 4, 0);
    let t = agent.step(&mut grid);
    assert_eq!(t.state, 2);
    assert_eq!(t.symbol, 0);
    assert_eq!(t.action, Action::Down);
    assert_eq!(grid.read(0, 4), 0);
    assert_eq!(agent.state(), 2);
    assert_eq!((agent.x(), agent.y()), (0, 0));
    // state 2 on symbol 0: entry 2, (0, 1, Up); the head wraps to row 4.
    let t = agent.step(&mut grid);
    assert_eq!(t.action, Action::Up);
    assert_eq!(grid.read(0, 0), 1);
    assert_eq!((agent.x(), agent.y(), agent.state()), (0, 4, 0));
    assert_eq!(agent.steps(), 2);
}

#[test]
fn stepping_in_chunks_equals_stepping_at_once() {
    let table = TransitionTable::new(5, 6, &mut SimRng::from_seed(9)).unwrap();
    let mut a = Simulation::new(table.duplicate(), 32, 24);
    let mut b = Simulation::new(table, 32, 24);
    a.step(5);
    a.step(5);
    b.step(10);
    assert_eq!(a.grid().cells(), b.grid().cells());
    let (p, q) = (a.agent(), b.agent());
    assert_eq!((p.x(), p.y(), p.state(), p.steps()), (q.x(), q.y(), q.state(), q.steps()));
    a.step(300);
    for _ in 0..3 {
        b.step(100);
    }
    assert_eq!(a.grid().cells(), b.grid().cells());
    let (p, q) = (a.agent(), b.agent());
    assert_eq!((p.x(), p.y(), p.state(), p.steps()), (q.x(), q.y(), q.state(), q.steps()));
    assert_eq!(p.steps(), 310);
}

#[test]
fn reset_twice_equals_reset_once() {
    let table = TransitionTable::new(4, 5, &mut SimRng::from_seed(2)).unwrap();
    let mut sim = Simulation::new(table, 10, 10);
    sim.step(57);
    sim.reset();
    let once: Vec<u8> = sim.grid().cells().to_vec();
    let a = (sim.agent().x(), sim.agent().y(), sim.agent().state(), sim.agent().steps());
    sim.reset();
    assert_eq!(sim.grid().cells(), &once[..]);
    assert_eq!((sim.agent().x(), sim.agent().y(), sim.agent().state(), sim.agent().steps()), a);
    assert!(once.iter().all(|&c| c == 0));
    assert_eq!(a, (0, 0, 0, 0));
}

#[test]
fn reseed_draws_a_fresh_machine() {
    let table = TransitionTable::new(4, 5, &mut SimRng::from_seed(2)).unwrap();
    let mut sim = Simulation::new(table, 10, 12);
    sim.step(40);
    let mut rng = SimRng::from_seed(77);
    sim.reseed(&mut rng);
    assert!(sim.grid().cells().iter().all(|&c| c == 0));
    let a = sim.agent();
    assert_eq!((a.state(), a.steps()), (0, 0));
    assert!(a.x() < 10 && a.y() < 12);
    assert_eq!((a.table().num_states(), a.table().num_symbols()), (4, 5));
}

#[test]
fn spawn_copies_the_machine() {
    let table = TransitionTable::from_encoding(FULL).unwrap();
    let mut grid = Grid::new(4, 4);
    let mut agent = Agent::new(table, 1, 1, 30);
    agent.step(&mut grid);
    let child = agent.spawn(3, 2, 10);
    assert_eq!((child.x(), child.y(), child.energy()), (3, 2, 10));
    assert_eq!((child.state(), child.steps()), (agent.state(), agent.steps()));
    for i in 0..12 {
        assert_eq!(child.table().entry(i), agent.table().entry(i));
    }
    agent.restart(2, 2);
    assert_eq!((agent.x(), agent.y(), agent.state(), agent.steps(), agent.energy()), (2, 2, 0, 0, 30));
}
