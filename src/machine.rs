//! A machine on the grid, and the single-machine simulation.

use vstd::prelude::*;

use crate::action::Action;
use crate::grid::{Grid, GridModel};
use crate::random::SimRng;
use crate::table::{lemma_entry_index_in_bounds, TableModel, Transition, TransitionTable};

verus! {

/// Where the head lands after `action` from `(x, y)` on a `width` by
/// `height` grid. `Left` goes to the next column and `Right` to the previous
/// one, `Up` to the previous row and `Down` to the next one, each wrapping
/// around the edge.
pub open spec fn moved(action: Action, x: nat, y: nat, width: nat, height: nat) -> (nat, nat) {
    match action {
        Action::Left => (if x + 1 >= width { 0 } else { x + 1 }, y),
        Action::Right => (if x == 0 { (width - 1) as nat } else { (x - 1) as nat }, y),
        Action::Up => (x, if y == 0 { (height - 1) as nat } else { (y - 1) as nat }),
        Action::Down => (x, if y + 1 >= height { 0 } else { y + 1 }),
        Action::Wait | Action::Replicate => (x, y),
    }
}

/// Moving off one edge of the grid comes back in at the opposite edge.
pub proof fn lemma_wraparound(x: nat, y: nat, width: nat, height: nat)
    requires
        x < width,
        y < height,
    ensures
        moved(Action::Right, 0, y, width, height) == ((width - 1) as nat, y),
        moved(Action::Left, (width - 1) as nat, y, width, height) == (0nat, y),
        moved(Action::Up, x, 0, width, height) == (x, (height - 1) as nat),
        moved(Action::Down, x, (height - 1) as nat, width, height) == (x, 0nat),
        moved(Action::Left, x, y, width, height).0 < width,
        moved(Action::Right, x, y, width, height).0 < width,
        moved(Action::Up, x, y, width, height).1 < height,
        moved(Action::Down, x, y, width, height).1 < height,
{
}

/// The head's new position, wrapping around the grid's edges.
pub fn move_head(action: Action, x: usize, y: usize, width: usize, height: usize) -> (r: (
    usize,
    usize,
))
    requires
        x < width,
        y < height,
    ensures
        (r.0 as nat, r.1 as nat) == moved(action, x as nat, y as nat, width as nat, height as nat),
{
    match action {
        Action::Left => (if x + 1 >= width { 0 } else { x + 1 }, y),
        Action::Right => (if x == 0 { width - 1 } else { x - 1 }, y),
        Action::Up => (x, if y == 0 { height - 1 } else { y - 1 }),
        Action::Down => (x, if y + 1 >= height { 0 } else { y + 1 }),
        Action::Wait | Action::Replicate => (x, y),
    }
}

/// What a machine is: its table, head position, state, energy and the number
/// of steps it has taken (which stops counting at `u64::MAX`).
pub ghost struct AgentModel {
    pub table: TableModel,
    pub x: nat,
    pub y: nat,
    pub state: nat,
    pub energy: nat,
    pub steps: nat,
}

impl AgentModel {
    /// The machine can run on `grid`: its table is sound, its head is on the
    /// grid, its state is one of the table's, and every cell holds one of the
    /// table's symbols.
    pub open spec fn runs_on(self, grid: GridModel) -> bool {
        &&& self.table.wf()
        &&& grid.wf()
        &&& self.x < grid.width
        &&& self.y < grid.height
        &&& self.state < self.table.num_states
        &&& grid.symbols_below(self.table.num_symbols)
    }

    /// The entry that the machine's next step on `grid` follows.
    pub open spec fn transition_on(self, grid: GridModel) -> Transition {
        self.table.lookup(self.state, grid.cell(self.x, self.y) as nat)
    }

    /// The machine after one step on `grid`.
    pub open spec fn stepped(self, grid: GridModel) -> AgentModel {
        let t = self.transition_on(grid);
        let p = moved(t.action, self.x, self.y, grid.width, grid.height);
        AgentModel {
            state: t.state as nat,
            x: p.0,
            y: p.1,
            steps: if self.steps < u64::MAX { self.steps + 1 } else { self.steps },
            ..self
        }
    }

    /// The grid after the machine's next step: the cell under the head holds
    /// the entry's symbol.
    pub open spec fn grid_after(self, grid: GridModel) -> GridModel {
        grid.with_cell(self.x, self.y, self.transition_on(grid).symbol)
    }
}

/// A step keeps a machine able to run on the grid it changed.
pub proof fn lemma_step_runs_on(a: AgentModel, grid: GridModel)
    requires
        a.runs_on(grid),
    ensures
        grid.cell(a.x, a.y) < a.table.num_symbols,
        a.stepped(grid).runs_on(a.grid_after(grid)),
        a.grid_after(grid).width == grid.width,
        a.grid_after(grid).height == grid.height,
{
    let sym = grid.cell(a.x, a.y);
    assert(a.x % grid.width == a.x && a.y % grid.height == a.y) by {
        vstd::arithmetic::div_mod::lemma_small_mod(a.x, grid.width);
        vstd::arithmetic::div_mod::lemma_small_mod(a.y, grid.height);
    }
    crate::grid::lemma_index_in_bounds(a.x, a.y, grid.width, grid.height);
    assert(sym < a.table.num_symbols);
    lemma_entry_index_in_bounds(a.table, a.state, sym as nat);
    let t = a.transition_on(grid);
    assert(t.state < a.table.num_states && t.symbol < a.table.num_symbols);
    lemma_wraparound(a.x, a.y, grid.width, grid.height);
    let g2 = a.grid_after(grid);
    assert forall|i: int| 0 <= i < g2.cells.len() implies (#[trigger] g2.cells[i])
        < a.table.num_symbols by {
        if i != grid.index(a.x, a.y) {
            assert(g2.cells[i] == grid.cells[i]);
        }
    }
}

/// A machine: a transition table and a head on a grid that it does not own.
pub struct Agent {
    table: TransitionTable,
    state: u16,
    x: usize,
    y: usize,
    energy: u32,
    steps: u64,
}

impl View for Agent {
    type V = AgentModel;

    closed spec fn view(&self) -> AgentModel {
        AgentModel {
            table: self.table@,
            x: self.x as nat,
            y: self.y as nat,
            state: self.state as nat,
            energy: self.energy as nat,
            steps: self.steps as nat,
        }
    }
}

impl Agent {
    /// A machine in the start state 0 with its head at `(x, y)`, holding
    /// `energy`, that has taken no step.
    pub fn new(table: TransitionTable, x: usize, y: usize, energy: u32) -> (a: Agent)
        ensures
            a@ == (AgentModel {
                table: table@,
                x: x as nat,
                y: y as nat,
                state: 0,
                energy: energy as nat,
                steps: 0,
            }),
    {
        Agent { table, state: 0, x, y, energy, steps: 0 }
    }

    pub fn table(&self) -> (r: &TransitionTable)
        ensures
            r@ == self@.table,
    {
        &self.table
    }

    pub fn state(&self) -> (r: u16)
        ensures
            r == self@.state,
    {
        self.state
    }

    pub fn x(&self) -> (r: usize)
        ensures
            r == self@.x,
    {
        self.x
    }

    pub fn y(&self) -> (r: usize)
        ensures
            r == self@.y,
    {
        self.y
    }

    pub fn energy(&self) -> (r: u32)
        ensures
            r == self@.energy,
    {
        self.energy
    }

    pub fn steps(&self) -> (r: u64)
        ensures
            r == self@.steps,
    {
        self.steps
    }

    pub fn set_energy(&mut self, energy: u32)
        ensures
            final(self)@ == (AgentModel { energy: energy as nat, ..old(self)@ }),
    {
        self.energy = energy;
    }

    /// An exact copy of this machine, table, state and step count included,
    /// with its head at `(x, y)` and holding `energy`.
    pub fn spawn(&self, x: usize, y: usize, energy: u32) -> (a: Agent)
        ensures
            a@ == (AgentModel { x: x as nat, y: y as nat, energy: energy as nat, ..self@ }),
    {
        Agent {
            table: self.table.duplicate(),
            state: self.state,
            x,
            y,
            energy,
            steps: self.steps,
        }
    }

    /// Puts the machine back in the start state at `(x, y)` with no step
    /// taken. The table and the energy stay.
    pub fn restart(&mut self, x: usize, y: usize)
        ensures
            final(self)@ == (AgentModel {
                x: x as nat,
                y: y as nat,
                state: 0,
                steps: 0,
                ..old(self)@
            }),
    {
        self.x = x;
        self.y = y;
        self.state = 0;
        self.steps = 0;
    }

    /// One step: read the symbol under the head, look up the entry for the
    /// state and that symbol, take the entry's state, write its symbol where
    /// the head is, then move the head from where it was. Returns the entry
    /// followed.
    pub fn step(&mut self, grid: &mut Grid) -> (t: Transition)
        requires
            old(self)@.runs_on(old(grid)@),
        ensures
            t == old(self)@.transition_on(old(grid)@),
            final(self)@ == old(self)@.stepped(old(grid)@),
            final(grid)@ == old(self)@.grid_after(old(grid)@),
            final(self)@.runs_on(final(grid)@),
    {
        proof {
            lemma_step_runs_on(self@, grid@);
        }
        let symbol = grid.read(self.x, self.y);
        let t = self.table.lookup(self.state, symbol);
        self.state = t.state;
        grid.write(self.x, self.y, t.symbol);
        let (nx, ny) = move_head(t.action, self.x, self.y, grid.width(), grid.height());
        self.x = nx;
        self.y = ny;
        if self.steps < u64::MAX {
            self.steps = self.steps + 1;
        }
        t
    }
}

/// What a single-machine simulation is: its grid and its machine.
pub ghost struct SimModel {
    pub grid: GridModel,
    pub agent: AgentModel,
}

impl SimModel {
    pub open spec fn wf(self) -> bool {
        self.agent.runs_on(self.grid)
    }

    /// The simulation after one step of its machine.
    pub open spec fn stepped(self) -> SimModel {
        SimModel { grid: self.agent.grid_after(self.grid), agent: self.agent.stepped(self.grid) }
    }

    /// The simulation after `n` steps.
    pub open spec fn run(self, n: nat) -> SimModel
        decreases n,
    {
        if n == 0 {
            self
        } else {
            self.run((n - 1) as nat).stepped()
        }
    }

    /// The simulation after a reset: a blank grid and the machine back at
    /// the origin in the start state with no step taken.
    pub open spec fn reset(self) -> SimModel {
        SimModel {
            grid: self.grid.cleared(),
            agent: AgentModel { x: 0, y: 0, state: 0, steps: 0, ..self.agent },
        }
    }
}

/// Running `a` steps and then `b` more is running `a + b` steps.
pub proof fn lemma_run_split(s: SimModel, a: nat, b: nat)
    ensures
        s.run(a).run(b) == s.run(a + b),
    decreases b,
{
    if b > 0 {
        lemma_run_split(s, a, (b - 1) as nat);
        assert(s.run(a + b) == s.run((a + b - 1) as nat).stepped());
    }
}

/// Resetting twice leaves the simulation as resetting once does.
pub proof fn lemma_reset_idempotent(s: SimModel)
    ensures
        s.reset().reset() == s.reset(),
{
    assert(s.reset().grid.cleared().cells =~= s.reset().grid.cells);
}

/// One machine alone on its own grid.
pub struct Simulation {
    grid: Grid,
    agent: Agent,
}

impl View for Simulation {
    type V = SimModel;

    closed spec fn view(&self) -> SimModel {
        SimModel { grid: self.grid@, agent: self.agent@ }
    }
}

impl Simulation {
    /// A simulation on a blank `width` by `height` grid, with a machine
    /// following `table` from the start state at the origin.
    pub fn new(table: TransitionTable, width: usize, height: usize) -> (s: Simulation)
        requires
            table@.wf(),
            width > 0,
            height > 0,
            width * height <= usize::MAX,
        ensures
            s@.wf(),
            s@.grid.width == width,
            s@.grid.height == height,
            s@.grid.cells == Seq::new((width * height) as nat, |i: int| 0u8),
            s@.agent == (AgentModel { table: table@, x: 0, y: 0, state: 0, energy: 0, steps: 0 }),
    {
        let grid = Grid::new(width, height);
        let agent = Agent::new(table, 0, 0, 0);
        Simulation { grid, agent }
    }

    pub fn grid(&self) -> (r: &Grid)
        ensures
            r@ == self@.grid,
    {
        &self.grid
    }

    pub fn agent(&self) -> (r: &Agent)
        ensures
            r@ == self@.agent,
    {
        &self.agent
    }

    /// Advances the machine by `n` steps.
    pub fn step(&mut self, n: u32)
        requires
            old(self)@.wf(),
        ensures
            final(self)@ == old(self)@.run(n as nat),
            final(self)@.wf(),
    {
        let mut i: u32 = 0;
        while i < n
            invariant
                0 <= i <= n,
                self@ == old(self)@.run(i as nat),
                self@.wf(),
            decreases n - i,
        {
            self.agent.step(&mut self.grid);
            i = i + 1;
        }
    }

    /// Clears the grid and puts the machine back at the origin in the start
    /// state, in place.
    pub fn reset(&mut self)
        requires
            old(self)@.wf(),
        ensures
            final(self)@ == old(self)@.reset(),
            final(self)@.wf(),
    {
        self.grid.reset();
        self.agent.restart(0, 0);
        assert(self@.grid.symbols_below(self@.agent.table.num_symbols));
    }

    /// Discards the machine for one with a fresh random table of the same
    /// size, at a random position, on a cleared grid.
    pub fn reseed(&mut self, rng: &mut SimRng)
        requires
            old(self)@.wf(),
        ensures
            final(self)@.wf(),
            final(self)@.grid == old(self)@.grid.cleared(),
            final(self)@.agent.table.num_states == old(self)@.agent.table.num_states,
            final(self)@.agent.table.num_symbols == old(self)@.agent.table.num_symbols,
            final(self)@.agent.state == 0,
            final(self)@.agent.steps == 0,
            final(self)@.agent.energy == old(self)@.agent.energy,
    {
        let ns = self.agent.table().num_states();
        let nk = self.agent.table().num_symbols();
        let table = match TransitionTable::new(ns, nk, rng) {
            Ok(t) => t,
            Err(_) => {
                // Unreachable: the sizes are those of a sound table.
                proof {
                    assert(false);
                }
                return;
            },
        };
        self.grid.reset();
        let w = self.grid.width();
        let h = self.grid.height();
        let x = rng.below(w);
        let y = rng.below(h);
        let energy = self.agent.energy();
        self.agent = Agent::new(table, x, y, energy);
    }
}

} // verus!
