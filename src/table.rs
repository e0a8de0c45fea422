//! Transition tables: for each (state, symbol) pair, what a machine does next.

use arrayvec::ArrayVec;
use vstd::prelude::*;

use crate::action::{Action, ACTION_COUNT};
use crate::grid::lemma_index_in_bounds;
use crate::random::SimRng;

verus! {

/// The largest number of entries a table can hold.
pub const TABLE_CAPACITY: usize = 4096;

/// The largest number of symbols: a symbol is stored in one byte of the grid.
pub const MAX_SYMBOLS: u16 = 256;

/// One entry of a table: the state to take, the symbol to write and the
/// action to perform.
#[derive(Clone, Copy, Debug, PartialEq, Eq, Structural)]
pub struct Transition {
    pub state: u16,
    pub symbol: u8,
    pub action: Action,
}

/// Why a table could not be built.
#[derive(Clone, Copy, Debug, PartialEq, Eq, Structural)]
pub enum TableError {
    /// The number of states or symbols is out of range, the table would not
    /// fit, or the entries given do not match the table's size.
    InvalidConfiguration,
    /// A field of an encoded table is not a number from 0 to 255.
    NonNumeric,
    /// An encoded action code is not one of the four moves.
    UnknownAction,
    /// An encoded table has fewer values than its size asks for.
    TooShort,
    /// An entry names a state or a symbol that the table does not have.
    EntryOutOfRange,
}

/// Whether a table with this many states and symbols can be built.
pub open spec fn valid_params(num_states: nat, num_symbols: nat) -> bool {
    &&& num_states >= 1
    &&& num_symbols >= 2
    &&& num_symbols <= MAX_SYMBOLS
    &&& num_states * num_symbols <= TABLE_CAPACITY
}

/// What a table holds. The entry for `(state, symbol)` stands at
/// `num_states * symbol + state`.
pub ghost struct TableModel {
    pub num_states: nat,
    pub num_symbols: nat,
    pub entries: Seq<Transition>,
}

impl TableModel {
    /// Every entry names a state and a symbol of the table.
    pub open spec fn entries_in_range(self) -> bool {
        forall|i: int|
            0 <= i < self.entries.len() ==> {
                &&& (#[trigger] self.entries[i]).state < self.num_states
                &&& self.entries[i].symbol < self.num_symbols
            }
    }

    pub open spec fn wf(self) -> bool {
        &&& valid_params(self.num_states, self.num_symbols)
        &&& self.entries.len() == self.num_states * self.num_symbols
        &&& self.entries_in_range()
    }

    /// Position of the entry for `(state, symbol)`.
    pub open spec fn entry_index(self, state: nat, symbol: nat) -> int {
        (self.num_states * symbol + state) as int
    }

    pub open spec fn lookup(self, state: nat, symbol: nat) -> Transition {
        self.entries[self.entry_index(state, symbol)]
    }
}

/// The entry for a state and symbol of a table lies inside the table.
pub proof fn lemma_entry_index_in_bounds(m: TableModel, state: nat, symbol: nat)
    requires
        m.wf(),
        state < m.num_states,
        symbol < m.num_symbols,
    ensures
        0 <= m.entry_index(state, symbol) < m.entries.len(),
{
    lemma_index_in_bounds(state, symbol, m.num_states, m.num_symbols);
    assert(m.num_states * symbol == symbol * m.num_states) by (nonlinear_arith);
}

#[verifier::external_type_specification]
#[verifier::external_body]
#[verifier::reject_recursive_types(T)]
pub struct ExArrayVec<T, const CAP: usize>(ArrayVec<T, CAP>);

/// The transitions that a fixed-capacity vector holds, in order.
pub uninterp spec fn entries_of(v: ArrayVec<Transition, TABLE_CAPACITY>) -> Seq<Transition>;

/// Relies on `ArrayVec::new`: an empty vector.
#[verifier::external_body]
fn entries_new() -> (v: ArrayVec<Transition, TABLE_CAPACITY>)
    ensures
        entries_of(v) == Seq::<Transition>::empty(),
{
    ArrayVec::new()
}

/// Relies on `ArrayVec::push`: appends at the end, and panics only when the
/// vector is full.
#[verifier::external_body]
fn entries_push(v: &mut ArrayVec<Transition, TABLE_CAPACITY>, t: Transition)
    requires
        entries_of(*old(v)).len() < TABLE_CAPACITY,
    ensures
        entries_of(*final(v)) == entries_of(*old(v)).push(t),
{
    v.push(t)
}

/// Relies on indexing through `ArrayVec`'s `Deref` to a slice of its elements.
#[verifier::external_body]
fn entries_get(v: &ArrayVec<Transition, TABLE_CAPACITY>, i: usize) -> (t: Transition)
    requires
        i < entries_of(*v).len(),
    ensures
        t == entries_of(*v)[i as int],
{
    v[i]
}

/// Relies on `ArrayVec`'s `Clone`, which clones the elements in order; the
/// clone of a `Copy` transition is the transition itself.
#[verifier::external_body]
fn entries_clone(v: &ArrayVec<Transition, TABLE_CAPACITY>) -> (r: ArrayVec<
    Transition,
    TABLE_CAPACITY,
>)
    ensures
        entries_of(r) == entries_of(*v),
{
    v.clone()
}

/// A transition table, fixed once built.
pub struct TransitionTable {
    entries: ArrayVec<Transition, TABLE_CAPACITY>,
    num_states: u16,
    num_symbols: u16,
}

impl View for TransitionTable {
    type V = TableModel;

    closed spec fn view(&self) -> TableModel {
        TableModel {
            num_states: self.num_states as nat,
            num_symbols: self.num_symbols as nat,
            entries: entries_of(self.entries),
        }
    }
}

/// Checks the number of states and symbols, without overflow.
pub(crate) fn check_params(num_states: u16, num_symbols: u16) -> (ok: bool)
    ensures
        ok == valid_params(num_states as nat, num_symbols as nat),
{
    let s = num_states as u32;
    let k = num_symbols as u32;
    assert(s * k <= u16::MAX * u16::MAX) by (nonlinear_arith)
        requires
            s <= u16::MAX,
            k <= u16::MAX,
    ;
    num_states >= 1 && num_symbols >= 2 && num_symbols <= MAX_SYMBOLS && s * k
        <= TABLE_CAPACITY as u32
}

impl TransitionTable {
    /// A table whose every entry is drawn at random: the next state uniformly
    /// from the states, the next symbol from the symbols and the action from
    /// all six actions. Entries are drawn in the order in which they are
    /// stored.
    pub fn new(num_states: u16, num_symbols: u16, rng: &mut SimRng) -> (r: Result<
        TransitionTable,
        TableError,
    >)
        ensures
            r is Ok <==> valid_params(num_states as nat, num_symbols as nat),
            r matches Ok(t) ==> {
                &&& t@.wf()
                &&& t@.num_states == num_states
                &&& t@.num_symbols == num_symbols
            },
            r matches Err(e) ==> e == TableError::InvalidConfiguration,
    {
        if !check_params(num_states, num_symbols) {
            return Err(TableError::InvalidConfiguration);
        }
        let n = num_states as usize * num_symbols as usize;
        let mut entries = entries_new();
        let mut i: usize = 0;
        while i < n
            invariant
                n == num_states * num_symbols,
                valid_params(num_states as nat, num_symbols as nat),
                0 <= i <= n,
                entries_of(entries).len() == i,
                forall|j: int|
                    0 <= j < i ==> {
                        &&& (#[trigger] entries_of(entries)[j]).state < num_states
                        &&& entries_of(entries)[j].symbol < num_symbols
                    },
            decreases n - i,
        {
            let state = rng.below(num_states as usize) as u16;
            let symbol = rng.below(num_symbols as usize) as u8;
            let action = Action::from_draw(rng.below(ACTION_COUNT) as u32);
            entries_push(&mut entries, Transition { state, symbol, action });
            i = i + 1;
        }
        Ok(TransitionTable { entries, num_states, num_symbols })
    }

    /// A table with the given entries, stored at `num_states * symbol + state`.
    /// Fails with `InvalidConfiguration` when the sizes are not valid or the
    /// number of entries is not their product, and with `EntryOutOfRange`
    /// when an entry names a state or symbol that the table does not have.
    pub fn from_entries(num_states: u16, num_symbols: u16, entries: &[Transition]) -> (r: Result<
        TransitionTable,
        TableError,
    >)
        ensures
            ({
                let m = TableModel {
                    num_states: num_states as nat,
                    num_symbols: num_symbols as nat,
                    entries: entries@,
                };
                let sized = valid_params(m.num_states, m.num_symbols) && m.entries.len()
                    == m.num_states * m.num_symbols;
                match r {
                    Ok(t) => m.wf() && t@ == m,
                    Err(e) => if !sized {
                        e == TableError::InvalidConfiguration
                    } else {
                        !m.entries_in_range() && e == TableError::EntryOutOfRange
                    },
                }
            }),
            r is Err ==> !(TableModel {
                num_states: num_states as nat,
                num_symbols: num_symbols as nat,
                entries: entries@,
            }).wf(),
    {
        if !check_params(num_states, num_symbols) {
            return Err(TableError::InvalidConfiguration);
        }
        let n = num_states as usize * num_symbols as usize;
        if entries.len() != n {
            return Err(TableError::InvalidConfiguration);
        }
        let mut stored = entries_new();
        let mut i: usize = 0;
        while i < n
            invariant
                n == num_states * num_symbols,
                n == entries@.len(),
                valid_params(num_states as nat, num_symbols as nat),
                0 <= i <= n,
                entries_of(stored) == entries@.subrange(0, i as int),
                forall|j: int|
                    0 <= j < i ==> {
                        &&& (#[trigger] entries@[j]).state < num_states
                        &&& entries@[j].symbol < num_symbols
                    },
            decreases n - i,
        {
            let t = entries[i];
            if t.state >= num_states || t.symbol as u16 >= num_symbols {
                return Err(TableError::EntryOutOfRange);
            }
            entries_push(&mut stored, t);
            i = i + 1;
            assert(entries_of(stored) =~= entries@.subrange(0, i as int));
        }
        assert(entries@.subrange(0, n as int) =~= entries@);
        Ok(TransitionTable { entries: stored, num_states, num_symbols })
    }

    pub fn num_states(&self) -> (r: u16)
        ensures
            r == self@.num_states,
    {
        self.num_states
    }

    pub fn num_symbols(&self) -> (r: u16)
        ensures
            r == self@.num_symbols,
    {
        self.num_symbols
    }

    /// The number of entries: one per (state, symbol) pair.
    pub fn len(&self) -> (r: usize)
        requires
            self@.wf(),
        ensures
            r == self@.entries.len(),
    {
        self.num_states as usize * self.num_symbols as usize
    }

    /// The entry stored at position `i`.
    pub fn entry(&self, i: usize) -> (t: Transition)
        requires
            i < self@.entries.len(),
        ensures
            t == self@.entries[i as int],
    {
        entries_get(&self.entries, i)
    }

    /// The entry for a machine in `state` reading `symbol`.
    pub fn lookup(&self, state: u16, symbol: u8) -> (t: Transition)
        requires
            self@.wf(),
            state < self@.num_states,
            symbol < self@.num_symbols,
        ensures
            t == self@.lookup(state as nat, symbol as nat),
    {
        proof {
            lemma_entry_index_in_bounds(self@, state as nat, symbol as nat);
        }
        let i = self.num_states as usize * symbol as usize + state as usize;
        entries_get(&self.entries, i)
    }

    /// A second table with the same entries.
    pub fn duplicate(&self) -> (r: TransitionTable)
        ensures
            r@ == self@,
    {
        TransitionTable {
            entries: entries_clone(&self.entries),
            num_states: self.num_states,
            num_symbols: self.num_symbols,
        }
    }
}

} // verus!
