//! Colonies: many machines on one grid, living on energy. Each step costs a
//! machine energy, and it gains energy from the symbol under its head. A
//! machine whose energy runs out dies; one that replicates with enough energy
//! gives birth to a copy of itself.

use vstd::prelude::*;

use crate::action::Action;
use crate::grid::{Grid, GridModel};
use crate::machine::{lemma_step_runs_on, Agent, AgentModel};
use crate::random::SimRng;
use crate::table::{check_params, valid_params, TableError, TransitionTable};

verus! {

/// The tunable constants of a colony.
#[derive(Clone, Copy, Debug, PartialEq, Eq, Structural)]
pub struct ColonyConfig {
    /// Steps each machine takes per frame.
    pub steps_per_frame: u32,
    /// Energy that each step costs.
    pub step_cost: u32,
    /// A machine gains the symbol under its head divided by this.
    pub gain_divisor: u8,
    /// Energy of a newborn or freshly created machine.
    pub start_energy: u32,
    /// Energy that a machine must exceed to replicate, and that it pays.
    pub replication_cost: u32,
    /// The colony is topped up with fresh machines to this many.
    pub min_population: usize,
    /// Size of the tables of fresh machines.
    pub num_states: u16,
    pub num_symbols: u16,
}

impl ColonyConfig {
    pub open spec fn valid(self) -> bool {
        &&& self.gain_divisor > 0
        &&& valid_params(self.num_states as nat, self.num_symbols as nat)
    }

    /// Ten steps per frame at a cost of one, a gain of a tenth of the symbol,
    /// a start energy of ten, a replication cost of 500, at least one
    /// machine, and tables of 50 states and 64 symbols.
    pub fn standard() -> (c: ColonyConfig)
        ensures
            c == (ColonyConfig {
                steps_per_frame: 10,
                step_cost: 1,
                gain_divisor: 10,
                start_energy: 10,
                replication_cost: 500,
                min_population: 1,
                num_states: 50,
                num_symbols: 64,
            }),
            c.valid(),
    {
        ColonyConfig {
            steps_per_frame: 10,
            step_cost: 1,
            gain_divisor: 10,
            start_energy: 10,
            replication_cost: 500,
            min_population: 1,
            num_states: 50,
            num_symbols: 64,
        }
    }

    pub fn is_valid(&self) -> (r: bool)
        ensures
            r == self.valid(),
    {
        self.gain_divisor > 0 && check_params(self.num_states, self.num_symbols)
    }
}

/// A machine's energy after one step: the step's cost comes off (never
/// below zero), then the gain from `symbol` is added (never above
/// `u32::MAX`).
pub open spec fn energy_after(energy: nat, symbol: u8, c: ColonyConfig) -> nat {
    let drained: nat = if energy > c.step_cost { (energy - c.step_cost) as nat } else { 0 };
    let gained = drained + symbol as nat / c.gain_divisor as nat;
    if gained > u32::MAX {
        u32::MAX as nat
    } else {
        gained
    }
}

/// The machine can live in a colony with grid `g` and constants `c`.
pub open spec fn fits(a: AgentModel, g: GridModel, c: ColonyConfig) -> bool {
    &&& a.runs_on(g)
    &&& a.table.num_states == c.num_states
    &&& a.table.num_symbols == c.num_symbols
}

/// The newborn of `parent`: its copy one cell down and to the next column,
/// holding the start energy.
pub open spec fn offspring(parent: AgentModel, g: GridModel, c: ColonyConfig) -> AgentModel {
    AgentModel {
        x: (parent.x + 1) % g.width,
        y: (parent.y + 1) % g.height,
        energy: c.start_energy as nat,
        ..parent
    }
}

/// One step of a machine in a colony: the machine, the grid, and the
/// newborn if there is one. A machine without energy is dead and does
/// nothing. Otherwise its energy is updated with the symbol under its head
/// before the step writes over it, and it takes the step. If the step's
/// action is `Replicate` and its energy exceeds the replication cost, it pays
/// the cost and gives birth.
pub open spec fn substep(a: AgentModel, g: GridModel, c: ColonyConfig) -> (
    AgentModel,
    GridModel,
    Option<AgentModel>,
) {
    if a.energy == 0 {
        (a, g, None)
    } else {
        let e = energy_after(a.energy, g.cell(a.x, a.y), c);
        let a1 = AgentModel { energy: e, ..a };
        let a2 = a1.stepped(g);
        let g2 = a1.grid_after(g);
        if a1.transition_on(g).action == Action::Replicate && e > c.replication_cost {
            let parent = AgentModel { energy: (e - c.replication_cost) as nat, ..a2 };
            (parent, g2, Some(offspring(parent, g2, c)))
        } else {
            (a2, g2, None)
        }
    }
}

/// `k` steps of one machine: the machine, the grid, and the newborns in
/// order of birth.
pub open spec fn run_agent(a: AgentModel, g: GridModel, c: ColonyConfig, k: nat) -> (
    AgentModel,
    GridModel,
    Seq<AgentModel>,
)
    decreases k,
{
    if k == 0 {
        (a, g, Seq::empty())
    } else {
        let r = run_agent(a, g, c, (k - 1) as nat);
        let s = substep(r.0, r.1, c);
        (
            s.0,
            s.1,
            match s.2 {
                Some(b) => r.2.push(b),
                None => r.2,
            },
        )
    }
}

/// Each machine in turn takes its steps of the frame: the machines, the grid,
/// and all newborns, in order.
pub open spec fn run_all(agents: Seq<AgentModel>, g: GridModel, c: ColonyConfig) -> (
    Seq<AgentModel>,
    GridModel,
    Seq<AgentModel>,
)
    decreases agents.len(),
{
    if agents.len() == 0 {
        (Seq::empty(), g, Seq::empty())
    } else {
        let r = run_all(agents.drop_last(), g, c);
        let s = run_agent(agents.last(), r.1, c, c.steps_per_frame as nat);
        (r.0.push(s.0), s.1, r.2 + s.2)
    }
}

pub open spec fn is_alive(a: AgentModel) -> bool {
    a.energy > 0
}

/// What a colony is: its grid, its machines in order, and its constants.
pub ghost struct ColonyModel {
    pub grid: GridModel,
    pub agents: Seq<AgentModel>,
    pub config: ColonyConfig,
}

impl ColonyModel {
    pub open spec fn wf(self) -> bool {
        &&& self.config.valid()
        &&& self.grid.wf()
        &&& self.grid.symbols_below(self.config.num_symbols as nat)
        &&& forall|i: int|
            0 <= i < self.agents.len() ==> fits(#[trigger] self.agents[i], self.grid, self.config)
    }

    /// The colony after the machines' steps of one frame: newborns join
    /// after the machines that were there, and the dead are removed.
    pub open spec fn advanced(self) -> ColonyModel {
        let r = run_all(self.agents, self.grid, self.config);
        ColonyModel { grid: r.1, agents: (r.0 + r.2).filter(|a: AgentModel| is_alive(a)), ..self }
    }

    /// `after` is `self` topped up: the same grid and machines, then fresh
    /// machines in the start state, holding the start energy, up to the
    /// minimum population.
    pub open spec fn topped_up(self, after: ColonyModel) -> bool {
        &&& after.grid == self.grid
        &&& after.config == self.config
        &&& after.agents.len() == if self.agents.len() < self.config.min_population {
            self.config.min_population as nat
        } else {
            self.agents.len()
        }
        &&& after.agents.subrange(0, self.agents.len() as int) == self.agents
        &&& forall|i: int|
            self.agents.len() <= i < after.agents.len() ==> {
                &&& (#[trigger] after.agents[i]).state == 0
                &&& after.agents[i].steps == 0
                &&& after.agents[i].energy == self.config.start_energy
            }
    }
}

pub open spec fn models(v: Seq<Agent>) -> Seq<AgentModel> {
    v.map_values(|a: Agent| a@)
}

pub open spec fn opt_model(o: Option<Agent>) -> Option<AgentModel> {
    match o {
        Some(a) => Some(a@),
        None => None,
    }
}

/// A machine that fits a grid fits any grid of the same size whose symbols
/// are the colony's.
proof fn lemma_fits_regrid(a: AgentModel, g: GridModel, g2: GridModel, c: ColonyConfig)
    requires
        fits(a, g, c),
        g2.wf(),
        g2.width == g.width,
        g2.height == g.height,
        g2.symbols_below(c.num_symbols as nat),
    ensures
        fits(a, g2, c),
{
}

/// A step in a colony keeps the machine, the grid and the newborn fit.
proof fn lemma_substep_fits(a: AgentModel, g: GridModel, c: ColonyConfig)
    requires
        fits(a, g, c),
        c.valid(),
    ensures
        ({
            let s = substep(a, g, c);
            &&& fits(s.0, s.1, c)
            &&& s.1.wf()
            &&& s.1.width == g.width
            &&& s.1.height == g.height
            &&& s.1.symbols_below(c.num_symbols as nat)
            &&& s.2 matches Some(b) ==> fits(b, s.1, c)
        }),
{
    if a.energy > 0 {
        let e = energy_after(a.energy, g.cell(a.x, a.y), c);
        let a1 = AgentModel { energy: e, ..a };
        lemma_step_runs_on(a1, g);
        let s = substep(a, g, c);
        if let Some(b) = s.2 {
            assert(b.x < g.width && b.y < g.height);
        }
    }
}

proof fn lemma_next_mod(x: nat, n: nat)
    requires
        x < n,
    ensures
        (x + 1) % n == if x < n - 1 { x + 1 } else { 0 },
{
    if x < n - 1 {
        vstd::arithmetic::div_mod::lemma_small_mod(x + 1, n);
    } else {
        vstd::arithmetic::div_mod::lemma_mod_self_0(n as int);
    }
}

impl Agent {
    /// One step of this machine in a colony; returns its newborn, if any.
    fn colony_step(&mut self, grid: &mut Grid, config: &ColonyConfig) -> (born: Option<Agent>)
        requires
            fits(old(self)@, old(grid)@, *config),
            config.valid(),
        ensures
            (final(self)@, final(grid)@, opt_model(born)) == substep(old(self)@, old(grid)@, *config),
    {
        let energy = self.energy();
        if energy == 0 {
            return None;
        }
        let symbol = grid.read(self.x(), self.y());
        let drained: u32 = if energy > config.step_cost {
            energy - config.step_cost
        } else {
            0
        };
        let gain = (symbol / config.gain_divisor) as u32;
        let e: u32 = if drained > u32::MAX - gain {
            u32::MAX
        } else {
            drained + gain
        };
        self.set_energy(e);
        let t = self.step(grid);
        if t.action == Action::Replicate && e > config.replication_cost {
            self.set_energy(e - config.replication_cost);
            let w = grid.width();
            let h = grid.height();
            let x = if self.x() < w - 1 {
                self.x() + 1
            } else {
                0
            };
            let y = if self.y() < h - 1 {
                self.y() + 1
            } else {
                0
            };
            proof {
                lemma_next_mod(self@.x, w as nat);
                lemma_next_mod(self@.y, h as nat);
            }
            Some(self.spawn(x, y, config.start_energy))
        } else {
            None
        }
    }

    /// The steps of one frame of this machine; its newborns are appended to
    /// `born`.
    fn colony_frame(&mut self, grid: &mut Grid, config: &ColonyConfig, born: &mut Vec<Agent>)
        requires
            fits(old(self)@, old(grid)@, *config),
            config.valid(),
            old(grid)@.symbols_below(config.num_symbols as nat),
        ensures
            ({
                let r = run_agent(old(self)@, old(grid)@, *config, config.steps_per_frame as nat);
                &&& final(self)@ == r.0
                &&& final(grid)@ == r.1
                &&& models(final(born)@) == models(old(born)@) + r.2
            }),
            fits(final(self)@, final(grid)@, *config),
            final(grid)@.wf(),
            final(grid)@.width == old(grid)@.width,
            final(grid)@.height == old(grid)@.height,
            final(grid)@.symbols_below(config.num_symbols as nat),
    {
        let ghost a0 = self@;
        let ghost g0 = grid@;
        let ghost b0 = models(born@);
        let mut k: u32 = 0;
        while k < config.steps_per_frame
            invariant
                0 <= k <= config.steps_per_frame,
                config.valid(),
                ({
                    let r = run_agent(a0, g0, *config, k as nat);
                    &&& self@ == r.0
                    &&& grid@ == r.1
                    &&& models(born@) == b0 + r.2
                }),
                fits(self@, grid@, *config),
                grid@.wf(),
                grid@.width == g0.width,
                grid@.height == g0.height,
                grid@.symbols_below(config.num_symbols as nat),
            decreases config.steps_per_frame - k,
        {
            proof {
                lemma_substep_fits(self@, grid@, *config);
            }
            let ghost before = models(born@);
            match self.colony_step(grid, config) {
                Some(b) => {
                    born.push(b);
                    assert(models(born@) =~= before.push(b@));
                },
                None => {},
            }
            k = k + 1;
            proof {
                let r = run_agent(a0, g0, *config, k as nat);
                let q = run_agent(a0, g0, *config, (k - 1) as nat);
                assert(b0 + q.2.push(self@) =~= (b0 + q.2).push(self@));
                if let Some(b) = substep(q.0, q.1, *config).2 {
                    assert(b0 + q.2.push(b) =~= (b0 + q.2).push(b));
                }
            }
        }
    }
}

/// Many machines sharing one grid.
pub struct Colony {
    grid: Grid,
    agents: Vec<Agent>,
    config: ColonyConfig,
}

impl View for Colony {
    type V = ColonyModel;

    closed spec fn view(&self) -> ColonyModel {
        ColonyModel { grid: self.grid@, agents: models(self.agents@), config: self.config }
    }
}

impl Colony {
    /// An empty colony on a blank `width` by `height` grid. Fails when the
    /// constants are not valid.
    pub fn new(config: ColonyConfig, width: usize, height: usize) -> (r: Result<Colony, TableError>)
        requires
            width > 0,
            height > 0,
            width * height <= usize::MAX,
        ensures
            r is Ok <==> config.valid(),
            r matches Ok(c) ==> {
                &&& c@.wf()
                &&& c@.config == config
                &&& c@.agents.len() == 0
                &&& c@.grid.width == width
                &&& c@.grid.height == height
                &&& c@.grid.cells == Seq::new((width * height) as nat, |i: int| 0u8)
            },
            r matches Err(e) ==> e == TableError::InvalidConfiguration,
    {
        if !config.is_valid() {
            return Err(TableError::InvalidConfiguration);
        }
        let c = Colony { grid: Grid::new(width, height), agents: Vec::new(), config };
        assert(c@.agents =~= Seq::<AgentModel>::empty());
        Ok(c)
    }

    pub fn grid(&self) -> (r: &Grid)
        ensures
            r@ == self@.grid,
    {
        &self.grid
    }

    pub fn agents(&self) -> (r: &[Agent])
        ensures
            models(r@) == self@.agents,
    {
        self.agents.as_slice()
    }

    pub fn config(&self) -> (r: ColonyConfig)
        ensures
            r == self@.config,
    {
        self.config
    }

    /// Adds a machine of the colony's table size, with its head on the grid.
    pub fn add(&mut self, agent: Agent)
        requires
            old(self)@.wf(),
            fits(agent@, old(self)@.grid, old(self)@.config),
        ensures
            final(self)@ == (ColonyModel { agents: old(self)@.agents.push(agent@), ..old(self)@ }),
            final(self)@.wf(),
    {
        let ghost before = self@;
        self.agents.push(agent);
        assert(self@.agents =~= before.agents.push(agent@));
    }

    /// Each machine in turn takes the frame's steps; then the newborns join
    /// and the dead are removed.
    pub fn advance(&mut self)
        requires
            old(self)@.wf(),
        ensures
            final(self)@ == old(self)@.advanced(),
            final(self)@.wf(),
    {
        let ghost m0 = self@;
        let n = self.agents.len();
        let mut born: Vec<Agent> = Vec::new();
        let mut i: usize = 0;
        proof {
            assert forall|j: int| 0 <= j < n implies fits(#[trigger] self.agents@[j]@, self.grid@, m0.config) by {
                assert(m0.agents[j] == self.agents@[j]@);
            }
            assert(m0.agents.subrange(0, 0) =~= Seq::<AgentModel>::empty());
            assert(models(born@) =~= Seq::<AgentModel>::empty());
            assert(models(self.agents@).subrange(0, 0) =~= Seq::<AgentModel>::empty());
        }
        while i < n
            invariant
                0 <= i <= n,
                n == self.agents@.len(),
                n == m0.agents.len(),
                m0.wf(),
                self.config == m0.config,
                self.config.valid(),
                ({
                    let r = run_all(m0.agents.subrange(0, i as int), m0.grid, m0.config);
                    &&& models(self.agents@).subrange(0, i as int) == r.0
                    &&& self.grid@ == r.1
                    &&& models(born@) == r.2
                }),
                models(self.agents@).subrange(i as int, n as int) == m0.agents.subrange(
                    i as int,
                    n as int,
                ),
                self.grid@.wf(),
                self.grid@.width == m0.grid.width,
                self.grid@.height == m0.grid.height,
                self.grid@.symbols_below(m0.config.num_symbols as nat),
                forall|j: int| 0 <= j < n ==> fits(#[trigger] self.agents@[j]@, self.grid@, m0.config),
                forall|j: int| 0 <= j < born@.len() ==> fits(#[trigger] born@[j]@, self.grid@, m0.config),
            decreases n - i,
        {
            let ghost g_before = self.grid@;
            let ghost agents_before = models(self.agents@);
            let ghost born_before = born@;
            assert(agents_before[i as int] == models(self.agents@).subrange(i as int, n as int)[0]);
            let ghost old_agent = self.agents@[i as int]@;
            self.agents[i].colony_frame(&mut self.grid, &self.config, &mut born);
            proof {
                let g2 = self.grid@;
                assert forall|j: int| 0 <= j < n implies fits(#[trigger] self.agents@[j]@, g2, m0.config) by {
                    if j != i {
                        assert(self.agents@[j]@ == agents_before[j]);
                        lemma_fits_regrid(self.agents@[j]@, g_before, g2, m0.config);
                    }
                }
                assert forall|j: int| 0 <= j < born@.len() implies fits(#[trigger] born@[j]@, g2, m0.config) by {
                    if j < born_before.len() {
                        assert(models(born@)[j] == models(born_before)[j]);
                        lemma_fits_regrid(born@[j]@, g_before, g2, m0.config);
                    } else {
                        let s = run_agent(agents_before[i as int], g_before, m0.config, m0.config.steps_per_frame as nat);
                        assert(models(born_before).len() == born_before.len());
                        assert(agents_before[i as int] == old_agent);
                        assert(models(born@) == models(born_before) + s.2);
                        assert(models(born@).len() == born@.len());
                        assert(j - born_before.len() < s.2.len());
                        assert(models(born@)[j] == born@[j]@);
                        assert(models(born@)[j] == s.2[j - born_before.len()]);
                        lemma_run_agent_fits(agents_before[i as int], g_before, m0.config, m0.config.steps_per_frame as nat);
                    }
                }
                let pre = m0.agents.subrange(0, i + 1);
                assert(pre.drop_last() =~= m0.agents.subrange(0, i as int));
                assert(pre.last() == agents_before[i as int]);
                assert(models(self.agents@).subrange(0, i + 1) =~= agents_before.subrange(0, i as int).push(self.agents@[i as int]@));
            }
            proof {
                assert forall|j: int| i < j < n implies models(self.agents@)[j] == m0.agents[j] by {
                    assert(self.agents@[j]@ == agents_before[j]);
                    assert(agents_before[j] == agents_before.subrange(i as int, n as int)[j - i]);
                }
            }
            i = i + 1;
            proof {
                assert(models(self.agents@).subrange(i as int, n as int) =~= m0.agents.subrange(i as int, n as int));
            }
        }
        proof {
            assert(m0.agents.subrange(0, n as int) =~= m0.agents);
            assert(models(self.agents@).subrange(0, n as int) =~= models(self.agents@));
        }
        let ghost stepped = models(self.agents@);
        let ghost born_m = models(born@);
        self.agents.append(&mut born);
        assert(models(self.agents@) =~= stepped + born_m);
        self.prune();
    }

    /// Creates fresh machines until the colony has its minimum population:
    /// each has a random table of the colony's size, a random position, the
    /// start state and the start energy.
    pub fn top_up(&mut self, rng: &mut SimRng)
        requires
            old(self)@.wf(),
        ensures
            old(self)@.topped_up(final(self)@),
            final(self)@.wf(),
    {
        let ghost m0 = self@;
        let w = self.grid.width();
        let h = self.grid.height();
        while self.agents.len() < self.config.min_population
            invariant
                self@.wf(),
                self@.grid == m0.grid,
                self@.config == m0.config,
                w == m0.grid.width,
                h == m0.grid.height,
                m0.agents.len() <= self@.agents.len(),
                m0.agents.len() < self.config.min_population ==> self@.agents.len() <= self.config.min_population,
                m0.agents.len() >= self.config.min_population ==> self@.agents.len() == m0.agents.len(),
                self@.agents.subrange(0, m0.agents.len() as int) == m0.agents,
                forall|i: int|
                    m0.agents.len() <= i < self@.agents.len() ==> {
                        &&& (#[trigger] self@.agents[i]).state == 0
                        &&& self@.agents[i].steps == 0
                        &&& self@.agents[i].energy == m0.config.start_energy
                    },
            decreases self.config.min_population - self.agents.len(),
        {
            let table = match TransitionTable::new(self.config.num_states, self.config.num_symbols, rng) {
                Ok(t) => t,
                Err(_) => {
                    // Unreachable: the sizes are those of a valid configuration.
                    proof {
                        assert(false);
                    }
                    return;
                },
            };
            let x = rng.below(w);
            let y = rng.below(h);
            let agent = Agent::new(table, x, y, self.config.start_energy);
            let ghost before = self@;
            self.add(agent);
            assert(self@.agents.subrange(0, m0.agents.len() as int) =~= before.agents.subrange(0, m0.agents.len() as int));
        }
    }

    /// One frame of the colony: the machines step, newborns join, the dead
    /// are removed, and fresh machines top the colony up.
    pub fn tick(&mut self, rng: &mut SimRng)
        requires
            old(self)@.wf(),
        ensures
            old(self)@.advanced().topped_up(final(self)@),
            final(self)@.wf(),
    {
        self.advance();
        self.top_up(rng);
    }

    /// The trails fade: every non-zero cell of the grid is lowered by one.
    pub fn decay(&mut self)
        requires
            old(self)@.wf(),
        ensures
            final(self)@ == (ColonyModel { grid: old(self)@.grid.decayed(), ..old(self)@ }),
            final(self)@.wf(),
    {
        let ghost m0 = self@;
        self.grid.decay_tick();
        proof {
            let g2 = self@.grid;
            assert forall|i: int| 0 <= i < g2.cells.len() implies (#[trigger] g2.cells[i]) < m0.config.num_symbols by {
                assert(m0.grid.cells[i] < m0.config.num_symbols);
            }
            assert forall|j: int| 0 <= j < self@.agents.len() implies fits(#[trigger] self@.agents[j], g2, m0.config) by {
                lemma_fits_regrid(m0.agents[j], m0.grid, g2, m0.config);
            }
        }
    }

    /// Clears the grid and removes every machine.
    pub fn reset(&mut self)
        requires
            old(self)@.wf(),
        ensures
            final(self)@ == (ColonyModel {
                grid: old(self)@.grid.cleared(),
                agents: Seq::empty(),
                ..old(self)@
            }),
            final(self)@.wf(),
    {
        self.grid.reset();
        self.agents = Vec::new();
        assert(self@.agents =~= Seq::<AgentModel>::empty());
    }

    /// Removes the machines without energy, keeping the others in order.
    fn prune(&mut self)
        requires
            old(self).grid@.wf(),
            old(self).config.valid(),
            old(self).grid@.symbols_below(old(self).config.num_symbols as nat),
            forall|j: int| 0 <= j < old(self).agents@.len() ==> fits(#[trigger] old(self).agents@[j]@, old(self).grid@, old(self).config),
        ensures
            final(self)@ == (ColonyModel { agents: old(self)@.agents.filter(|a: AgentModel| is_alive(a)), ..old(self)@ }),
            final(self)@.wf(),
    {
        let ghost m0 = self@;
        let mut all: Vec<Agent> = Vec::new();
        std::mem::swap(&mut all, &mut self.agents);
        let ghost all_m = models(all@);
        let mut kept: Vec<Agent> = Vec::new();
        for a in it: all
            invariant
                it.seq() == all@,
                all_m == models(all@),
                models(kept@) == models(all@.subrange(0, it.index() as int)).filter(|a: AgentModel| is_alive(a)),
                forall|j: int| 0 <= j < kept@.len() ==> fits(#[trigger] kept@[j]@, m0.grid, m0.config),
                forall|j: int| 0 <= j < all@.len() ==> fits(#[trigger] all@[j]@, m0.grid, m0.config),
        {
            let ghost k = it.index();
            let ghost pre = models(all@.subrange(0, k as int));
            assert(models(all@.subrange(0, k + 1)) =~= pre.push(a@));
            assert(a == all@[k as int]);
            reveal(Seq::filter);
            assert(pre.push(a@).drop_last() =~= pre);
            if a.energy() > 0 {
                let ghost kb = models(kept@);
                kept.push(a);
                assert(models(kept@) =~= kb.push(a@));
            }
        }
        assert(all@.subrange(0, all@.len() as int) =~= all@);
        self.agents = kept;
        proof {
            assert forall|j: int| 0 <= j < self@.agents.len() implies fits(#[trigger] self@.agents[j], self@.grid, self@.config) by {
                assert(self@.agents[j] == self.agents@[j]@);
            }
        }
    }
}

/// A frame of steps keeps a machine and its newborns fit.
proof fn lemma_run_agent_fits(a: AgentModel, g: GridModel, c: ColonyConfig, k: nat)
    requires
        fits(a, g, c),
        c.valid(),
        g.symbols_below(c.num_symbols as nat),
    ensures
        ({
            let r = run_agent(a, g, c, k);
            &&& fits(r.0, r.1, c)
            &&& r.1.wf()
            &&& r.1.width == g.width
            &&& r.1.height == g.height
            &&& r.1.symbols_below(c.num_symbols as nat)
            &&& forall|j: int| 0 <= j < r.2.len() ==> fits(#[trigger] r.2[j], r.1, c)
        }),
    decreases k,
{
    if k > 0 {
        lemma_run_agent_fits(a, g, c, (k - 1) as nat);
        let q = run_agent(a, g, c, (k - 1) as nat);
        lemma_substep_fits(q.0, q.1, c);
        let s = substep(q.0, q.1, c);
        let r = run_agent(a, g, c, k);
        assert forall|j: int| 0 <= j < r.2.len() implies fits(#[trigger] r.2[j], r.1, c) by {
            if j < q.2.len() {
                assert(r.2[j] == q.2[j]);
                lemma_fits_regrid(q.2[j], q.1, s.1, c);
            }
        }
    }
}

/// What a machine gains from the symbol under its head at its `j`-th step
/// of a frame.
pub open spec fn gain_at_step(a: AgentModel, g: GridModel, c: ColonyConfig, j: nat) -> nat {
    let r = run_agent(a, g, c, j);
    r.1.cell(r.0.x, r.0.y) as nat / c.gain_divisor as nat
}

/// A machine that gains nothing from the symbols it reads, and holds too
/// little energy to replicate, loses exactly the step cost at each step
/// until its energy reaches zero, and gives birth to nothing.
pub proof fn lemma_energy_drain(a: AgentModel, g: GridModel, c: ColonyConfig, k: nat)
    requires
        c.valid(),
        a.energy <= c.replication_cost,
        forall|j: nat| j < k ==> #[trigger] gain_at_step(a, g, c, j) == 0,
    ensures
        run_agent(a, g, c, k).0.energy == if a.energy >= k * c.step_cost {
            (a.energy - k * c.step_cost) as nat
        } else {
            0
        },
        run_agent(a, g, c, k).2.len() == 0,
    decreases k,
{
    if k > 0 {
        let k1 = (k - 1) as nat;
        assert forall|j: nat| j < k1 implies #[trigger] gain_at_step(a, g, c, j) == 0 by {
            assert(gain_at_step(a, g, c, j) == 0);
        }
        lemma_energy_drain(a, g, c, k1);
        assert(gain_at_step(a, g, c, k1) == 0);
        let cost = c.step_cost as nat;
        assert(k * cost == k1 * cost + cost) by (nonlinear_arith)
            requires
                k == k1 + 1,
        ;
    }
}

proof fn lemma_run_all_len(agents: Seq<AgentModel>, g: GridModel, c: ColonyConfig)
    ensures
        run_all(agents, g, c).0.len() == agents.len(),
    decreases agents.len(),
{
    if agents.len() > 0 {
        lemma_run_all_len(agents.drop_last(), g, c);
    }
}

/// A frame removes a machine exactly when its energy has run out, and only
/// at the end: every machine takes its steps, every machine left after the
/// frame has energy, and every machine or newborn that has energy is left.
pub proof fn lemma_frame_prunes_exactly(m: ColonyModel)
    ensures
        ({
            let r = run_all(m.agents, m.grid, m.config);
            let after = m.advanced().agents;
            &&& r.0.len() == m.agents.len()
            &&& forall|i: int| 0 <= i < after.len() ==> (#[trigger] after[i]).energy > 0
            &&& forall|i: int|
                0 <= i < (r.0 + r.2).len() && (#[trigger] (r.0 + r.2)[i]).energy > 0
                    ==> after.contains((r.0 + r.2)[i])
            &&& forall|x: AgentModel| #[trigger] after.contains(x) ==> (r.0 + r.2).contains(x)
        }),
{
    let r = run_all(m.agents, m.grid, m.config);
    let all = r.0 + r.2;
    let pred = |a: AgentModel| is_alive(a);
    lemma_run_all_len(m.agents, m.grid, m.config);
    assert forall|i: int| 0 <= i < all.filter(pred).len() implies (#[trigger] all.filter(pred)[i]).energy > 0 by {
        all.lemma_filter_pred(pred, i);
    }
    assert forall|i: int| 0 <= i < all.len() && (#[trigger] all[i]).energy > 0 implies all.filter(pred).contains(all[i]) by {
        all.lemma_filter_contains(pred, i);
    }
    assert forall|x: AgentModel| #[trigger] all.filter(pred).contains(x) implies all.contains(x) by {
        all.lemma_filter_contains_rev(pred, x);
    }
}

} // verus!
