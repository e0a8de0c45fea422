//! The compact encoding of a table: the number of states, the number of
//! symbols, then for each entry in storage order its next state, next symbol
//! and action code, all as bytes.

use vstd::prelude::*;
use vstd::string::StringSliceAdditionalSpecFns;

use crate::action::Action;
use crate::codec::{format_fields, format_spec, lemma_parse_format, parse_fields, parse_spec};
use crate::table::{
    check_params, valid_params, TableError, TableModel, Transition, TransitionTable,
};

verus! {

/// The entry that the values encode at position `i`.
pub open spec fn entry_from_values(v: Seq<u8>, i: int) -> Transition {
    Transition {
        state: v[2 + 3 * i] as u16,
        symbol: v[3 + 3 * i],
        action: Action::spec_from_code(v[4 + 3 * i])->0,
    }
}

/// Whether the action code of the entry at position `i` is one of the moves.
pub open spec fn code_known(v: Seq<u8>, i: int) -> bool {
    Action::spec_from_code(v[4 + 3 * i]) is Some
}

/// Whether the entry at position `i` names a state and a symbol of the table.
pub open spec fn entry_in_range(v: Seq<u8>, i: int) -> bool {
    &&& v[2 + 3 * i] < v[0]
    &&& v[3 + 3 * i] < v[1]
}

/// The table that a list of values encodes, or why it encodes none. Values
/// after the last entry are not read.
pub open spec fn table_from_values(v: Seq<u8>) -> Result<TableModel, TableError> {
    if v.len() < 2 {
        Err(TableError::TooShort)
    } else if !valid_params(v[0] as nat, v[1] as nat) {
        Err(TableError::InvalidConfiguration)
    } else {
        let n = v[0] * v[1];
        if v.len() < 2 + 3 * n {
            Err(TableError::TooShort)
        } else if exists|i: int| 0 <= i < n && !#[trigger] code_known(v, i) {
            Err(TableError::UnknownAction)
        } else if exists|i: int| 0 <= i < n && !#[trigger] entry_in_range(v, i) {
            Err(TableError::EntryOutOfRange)
        } else {
            Ok(
                TableModel {
                    num_states: v[0] as nat,
                    num_symbols: v[1] as nat,
                    entries: Seq::new(n as nat, |i: int| entry_from_values(v, i)),
                },
            )
        }
    }
}

/// The table that a text encodes: its fields are read as bytes, then as a
/// table.
pub open spec fn table_from_text(text: Seq<u8>) -> Result<TableModel, TableError> {
    match parse_spec(text) {
        None => Err(TableError::NonNumeric),
        Some(v) => table_from_values(v),
    }
}

/// Whether a table can be encoded: its sizes fit in a byte and each action
/// is one of the four moves.
pub open spec fn encodable(m: TableModel) -> bool {
    &&& m.num_states <= u8::MAX
    &&& m.num_symbols <= u8::MAX
    &&& forall|i: int| 0 <= i < m.entries.len() ==> (#[trigger] m.entries[i]).action.spec_code() is Some
}

/// The value at position `k` of a table's encoding.
#[verifier::opaque]
pub open spec fn value_at(m: TableModel, k: int) -> u8 {
    if k == 0 {
        m.num_states as u8
    } else if k == 1 {
        m.num_symbols as u8
    } else {
        let e = m.entries[(k - 2) / 3];
        if (k - 2) % 3 == 0 {
            e.state as u8
        } else if (k - 2) % 3 == 1 {
            e.symbol
        } else {
            e.action.spec_code()->0
        }
    }
}

/// A table's encoding as values.
pub open spec fn values_of(m: TableModel) -> Seq<u8> {
    Seq::new((2 + 3 * m.entries.len()) as nat, |k: int| value_at(m, k))
}

proof fn lemma_value_at_entry(m: TableModel, i: int)
    requires
        0 <= i < m.entries.len(),
    ensures
        values_of(m)[2 + 3 * i] == m.entries[i].state as u8,
        values_of(m)[3 + 3 * i] == m.entries[i].symbol,
        values_of(m)[4 + 3 * i] == m.entries[i].action.spec_code()->0,
{
    reveal(value_at);
    assert((3 * i) / 3 == i && (3 * i) % 3 == 0) by (nonlinear_arith)
        requires
            0 <= i,
    ;
    assert((3 * i + 1) / 3 == i && (3 * i + 1) % 3 == 1) by (nonlinear_arith)
        requires
            0 <= i,
    ;
    assert((3 * i + 2) / 3 == i && (3 * i + 2) % 3 == 2) by (nonlinear_arith)
        requires
            0 <= i,
    ;
}

proof fn lemma_value_header(m: TableModel)
    ensures
        values_of(m)[0] == m.num_states as u8,
        values_of(m)[1] == m.num_symbols as u8,
{
    reveal(value_at);
}

/// Decoding the values of an encodable table gives the table back.
pub proof fn lemma_values_round_trip(m: TableModel)
    requires
        m.wf(),
        encodable(m),
    ensures
        table_from_values(values_of(m)) == Ok::<TableModel, TableError>(m),
{
    let v = values_of(m);
    let n = m.entries.len() as int;
    lemma_value_header(m);
    assert(v[0] as nat == m.num_states);
    assert(v[1] as nat == m.num_symbols);
    assert(v[0] * v[1] == n);
    assert forall|i: int| 0 <= i < n implies #[trigger] code_known(v, i) by {
        lemma_value_at_entry(m, i);
        m.entries[i].action.lemma_code_round_trip();
    }
    assert forall|i: int| 0 <= i < n implies #[trigger] entry_in_range(v, i) by {
        lemma_value_at_entry(m, i);
    }
    assert forall|i: int| 0 <= i < n implies #[trigger] entry_from_values(v, i) == m.entries[i] by {
        lemma_value_at_entry(m, i);
        m.entries[i].action.lemma_code_round_trip();
    }
    assert(Seq::new((v[0] * v[1]) as nat, |i: int| entry_from_values(v, i)) =~= m.entries);
    assert(valid_params(v[0] as nat, v[1] as nat));
    assert(v.len() == 2 + 3 * n);
    assert(!exists|i: int| 0 <= i < v[0] * v[1] && !#[trigger] code_known(v, i));
    assert(!exists|i: int| 0 <= i < v[0] * v[1] && !#[trigger] entry_in_range(v, i));
}

/// Reading the text encoding of an encodable table gives the table back.
pub proof fn lemma_encoding_round_trip(m: TableModel)
    requires
        m.wf(),
        encodable(m),
    ensures
        table_from_text(format_spec(values_of(m))) == Ok::<TableModel, TableError>(m),
{
    lemma_parse_format(values_of(m));
    lemma_values_round_trip(m);
}

impl TransitionTable {
    /// Builds the table that a list of values encodes.
    pub fn from_values(values: &[u8]) -> (r: Result<TransitionTable, TableError>)
        ensures
            match r {
                Ok(t) => table_from_values(values@) == Ok::<TableModel, TableError>(t@),
                Err(e) => table_from_values(values@) == Err::<TableModel, TableError>(e),
            },
    {
        let len = values.len();
        if len < 2 {
            return Err(TableError::TooShort);
        }
        let ns = values[0] as u16;
        let nk = values[1] as u16;
        if !check_params(ns, nk) {
            return Err(TableError::InvalidConfiguration);
        }
        let n = ns as usize * nk as usize;
        if len < 2 + 3 * n {
            return Err(TableError::TooShort);
        }
        let mut i: usize = 0;
        while i < n
            invariant
                n == ns * nk,
                ns == values@[0],
                nk == values@[1],
                valid_params(ns as nat, nk as nat),
                len == values@.len(),
                len >= 2 + 3 * n,
                0 <= i <= n,
                forall|j: int| 0 <= j < i ==> #[trigger] code_known(values@, j),
            decreases n - i,
        {
            if Action::from_code(values[4 + 3 * i]).is_none() {
                assert(!code_known(values@, i as int));
                return Err(TableError::UnknownAction);
            }
            i = i + 1;
        }
        let mut entries: Vec<Transition> = Vec::new();
        let mut i: usize = 0;
        while i < n
            invariant
                n == ns * nk,
                len == values@.len(),
                len >= 2 + 3 * n,
                valid_params(ns as nat, nk as nat),
                0 <= i <= n,
                ns == values@[0],
                nk == values@[1],
                forall|j: int| 0 <= j < n ==> #[trigger] code_known(values@, j),
                forall|j: int| 0 <= j < i ==> #[trigger] entry_in_range(values@, j),
                entries@ == Seq::new(i as nat, |j: int| entry_from_values(values@, j)),
            decreases n - i,
        {
            let state = values[2 + 3 * i];
            let symbol = values[3 + 3 * i];
            if state as u16 >= ns || symbol as u16 >= nk {
                assert(!entry_in_range(values@, i as int));
                return Err(TableError::EntryOutOfRange);
            }
            assert(code_known(values@, i as int));
            let action = match Action::from_code(values[4 + 3 * i]) {
                Some(a) => a,
                None => Action::Wait,
            };
            entries.push(Transition { state: state as u16, symbol, action });
            assert(entry_in_range(values@, i as int));
            assert(entries@[i as int] == entry_from_values(values@, i as int));
            i = i + 1;
            assert(entries@ =~= Seq::new(i as nat, |j: int| entry_from_values(values@, j)));
        }
        proof {
            assert forall|j: int| 0 <= j < entries@.len() implies (#[trigger] entries@[j]).state < ns
                && entries@[j].symbol < nk by {
                assert(entry_in_range(values@, j));
            }
        }
        TransitionTable::from_entries(ns, nk, entries.as_slice())
    }

    /// Builds the table that a text encodes, such as `"1,2,0,1,1,0,0,0"`:
    /// comma-separated decimal bytes read as by `from_values`.
    pub fn from_encoding(text: &str) -> (r: Result<TransitionTable, TableError>)
        ensures
            match r {
                Ok(t) => table_from_text(text.spec_bytes()) == Ok::<TableModel, TableError>(t@),
                Err(e) => table_from_text(text.spec_bytes()) == Err::<TableModel, TableError>(e),
            },
    {
        match parse_fields(text.as_bytes()) {
            None => Err(TableError::NonNumeric),
            Some(values) => TransitionTable::from_values(values.as_slice()),
        }
    }

    /// The table's encoding as values, if it can be encoded.
    pub fn to_values(&self) -> (r: Option<Vec<u8>>)
        requires
            self@.wf(),
        ensures
            r is Some <==> encodable(self@),
            r matches Some(v) ==> v@ == values_of(self@),
    {
        let ns = self.num_states();
        let nk = self.num_symbols();
        if ns > u8::MAX as u16 || nk > u8::MAX as u16 {
            return None;
        }
        let n = self.len();
        let mut out: Vec<u8> = Vec::new();
        out.push(ns as u8);
        out.push(nk as u8);
        proof {
            lemma_value_header(self@);
            assert(out@ =~= values_of(self@).subrange(0, 2));
        }
        let mut i: usize = 0;
        while i < n
            invariant
                self@.wf(),
                n == self@.entries.len(),
                ns == self@.num_states,
                nk == self@.num_symbols,
                ns <= u8::MAX,
                nk <= u8::MAX,
                0 <= i <= n,
                forall|j: int| 0 <= j < i ==> (#[trigger] self@.entries[j]).action.spec_code() is Some,
                out@ == values_of(self@).subrange(0, 2 + 3 * i),
            decreases n - i,
        {
            let t = self.entry(i);
            let code = match t.action.code() {
                Some(c) => c,
                None => {
                    return None;
                },
            };
            proof {
                lemma_value_at_entry(self@, i as int);
            }
            out.push(t.state as u8);
            out.push(t.symbol);
            out.push(code);
            i = i + 1;
            assert(out@ =~= values_of(self@).subrange(0, 2 + 3 * i));
        }
        assert(out@ =~= values_of(self@));
        Some(out)
    }

    /// The table's text encoding, as ASCII bytes, if it can be encoded.
    pub fn encoding(&self) -> (r: Option<Vec<u8>>)
        requires
            self@.wf(),
        ensures
            r is Some <==> encodable(self@),
            r matches Some(text) ==> text@ == format_spec(values_of(self@)),
    {
        match self.to_values() {
            None => None,
            Some(values) => Some(format_fields(values.as_slice())),
        }
    }
}

} // verus!
