use turmite::action::Action;
use turmite::random::SimRng;
use turmite::table::{TableError, Transition, TransitionTable};

fn t(state: u16, symbol: u8, action: Action) -> Transition {
    Transition { state, symbol, action }
}

#[test]
fn random_table_has_one_entry_per_pair_in_range() {
    let mut rng = SimRng::from_seed(7);
    for &(ns, nk) in &[(1u16, 2u16), (3, 4), (50, 64), (16, 256), (2048, 2), (1, 256)] {
        let table = TransitionTable::new(ns, nk, &mut rng).expect("valid sizes");
        assert_eq!(table.num_states(), ns);
        assert_eq!(table.num_symbols(), nk);
        assert_eq!(table.len(), ns as usize * nk as usize);
        for i in 0..table.len() {
            let e = table.entry(i);
            assert!(e.state < ns);
            assert!((e.symbol as u16) < nk);
        }
    }
}

#[test]
fn random_table_rejects_invalid_sizes() {
    let mut rng = SimRng::from_seed(1);
    assert_eq!(TransitionTable::new(0, 4, &mut rng).err(), Some(TableError::InvalidConfiguration));
    assert_eq!(TransitionTable::new(3, 1, &mut rng).err(), Some(TableError::InvalidConfiguration));
    assert_eq!(TransitionTable::new(3, 0, &mut rng).err(), Some(TableError::InvalidConfiguration));
    assert_eq!(TransitionTable::new(65, 64, &mut rng).err(), Some(TableError::InvalidConfiguration));
    assert_eq!(TransitionTable::new(1, 300, &mut rng).err(), Some(TableError::InvalidConfiguration));
    assert!(TransitionTable::new(64, 64, &mut rng).is_ok());
}

#[test]
fn random_tables_repeat_with_the_same_seed() {
    let a = TransitionTable::new(5, 6, &mut SimRng::from_seed(42)).unwrap();
    let b = TransitionTable::new(5, 6, &mut SimRng::from_seed(42)).unwrap();
    for i in 0..a.len() {
        assert_eq!(a.entry(i), b.entry(i));
    }
}

#[test]
fn random_tables_use_several_actions() {
    let table = TransitionTable::new(50, 64, &mut SimRng::from_seed(3)).unwrap();
    let mut seen = [false; 6];
    for i in 0..table.len() {
        let k = match table.entry(i).action {
            Action::Up => 0,
            Action::Down => 1,
            Action::Left => 2,
            Action::Right => 3,
            Action::Wait => 4,
            Action::Replicate => 5,
        };
        seen[k] = true;
    }
    assert!(seen.iter().all(|&s| s));
}

#[test]
fn short_scenario_encoding_is_too_short() {
    // 27 values, where three states and four symbols need 2 + 3 * 12 = 38.
    let r = TransitionTable::from_encoding("3,4,2,2,3,2,4,0,0,1,0,2,1,2,1,1,0,1,2,3,2,3,0,2,1,0,2");
    assert_eq!(r.err(), Some(TableError::TooShort));
}

#[test]
fn decode_full_table() {
    let text = "3,4,2,2,0,1,3,1,0,1,2,2,0,3,1,1,0,0,2,1,0,0,3,1,2,2,1,0,0,0,2,0,1,2,0,2,1,3";
    let table = TransitionTable::from_encoding(text).expect("decodes");
    assert_eq!(table.num_states(), 3);
    assert_eq!(table.num_symbols(), 4);
    assert_eq!(table.len(), 12);
    assert_eq!(table.entry(0), t(2, 2, Action::Left));
    assert_eq!(table.entry(1), t(1, 3, Action::Right));
    assert_eq!(table.entry(2), t(0, 1, Action::Up));
    assert_eq!(table.entry(11), t(2, 1, Action::Down));
    // The entry for (state, symbol) is at num_states * symbol + state.
    assert_eq!(table.lookup(0, 0), table.entry(0));
    assert_eq!(table.lookup(1, 0), table.entry(1));
    assert_eq!(table.lookup(0, 1), table.entry(3));
    assert_eq!(table.lookup(2, 3), table.entry(11));
}

#[test]
fn decode_ignores_values_after_the_last_entry() {
    let table = TransitionTable::from_encoding("1,2,0,1,1,0,0,0,9,9").expect("decodes");
    assert_eq!(table.len(), 2);
    assert_eq!(table.entry(0), t(0, 1, Action::Right));
    assert_eq!(table.entry(1), t(0, 0, Action::Left));
}

#[test]
fn decode_errors() {
    let dec = |s: &str| TransitionTable::from_encoding(s).err();
    assert_eq!(dec(""), Some(TableError::NonNumeric));
    assert_eq!(dec("1,2,0,1,x,0,0,0"), Some(TableError::NonNumeric));
    assert_eq!(dec("1,2,0,1,1,0,0,0,"), Some(TableError::NonNumeric));
    assert_eq!(dec("1,2,0,1,256,0,0,0"), Some(TableError::NonNumeric));
    assert_eq!(dec("1, 2,0,1,1,0,0,0"), Some(TableError::NonNumeric));
    assert_eq!(dec("1"), Some(TableError::TooShort));
    assert_eq!(dec("0,2"), Some(TableError::InvalidConfiguration));
    assert_eq!(dec("1,1,0,0,0"), Some(TableError::InvalidConfiguration));
    assert_eq!(dec("100,100"), Some(TableError::InvalidConfiguration));
    assert_eq!(dec("1,2,0,1,1,0,0"), Some(TableError::TooShort));
    assert_eq!(dec("1,2,0,1,4,0,0,0"), Some(TableError::UnknownAction));
    assert_eq!(dec("1,2,1,1,1,0,0,0"), Some(TableError::EntryOutOfRange));
    assert_eq!(dec("1,2,0,2,1,0,0,0"), Some(TableError::EntryOutOfRange));
    // An unknown action is reported before an entry out of range.
    assert_eq!(dec("1,2,5,5,1,0,0,7"), Some(TableError::UnknownAction));
}

#[test]
fn from_values_matches_from_encoding() {
    let a = TransitionTable::from_values(&[2, 2, 1, 1, 2, 0, 0, 3, 1, 0, 0, 0, 1, 1, 1]).unwrap();
    let b = TransitionTable::from_encoding("2,2,1,1,2,0,0,3,1,0,0,0,1,1,1").unwrap();
    assert_eq!(a.len(), 4);
    for i in 0..4 {
        assert_eq!(a.entry(i), b.entry(i));
    }
    assert_eq!(a.entry(0), t(1, 1, Action::Up));
    assert_eq!(a.entry(3), t(0, 1, Action::Right));
}

#[test]
fn encoding_round_trip() {
    let text = "3,4,2,2,0,1,3,1,0,1,2,2,0,3,1,1,0,0,2,1,0,0,3,1,2,2,1,0,0,0,2,0,1,2,0,2,1,3";
    let table = TransitionTable::from_encoding(text).unwrap();
    let encoded = table.encoding().expect("only moves");
    assert_eq!(String::from_utf8(encoded.clone()).unwrap(), text);
    let again = TransitionTable::from_encoding(std::str::from_utf8(&encoded).unwrap()).unwrap();
    assert_eq!(again.num_states(), 3);
    assert_eq!(again.num_symbols(), 4);
    for s in 0..3u16 {
        for k in 0..4u8 {
            assert_eq!(again.lookup(s, k), table.lookup(s, k));
        }
    }
}

#[test]
fn to_values_lists_sizes_then_entries() {
    let table = TransitionTable::from_entries(1, 2, &[t(0, 1, Action::Down), t(0, 0, Action::Up)]).unwrap();
    assert_eq!(table.to_values(), Some(vec![1, 2, 0, 1, 3, 0, 0, 2]));
}

#[test]
fn tables_with_wait_or_replicate_have_no_encoding() {
    let table = TransitionTable::from_entries(1, 2, &[t(0, 1, Action::Wait), t(0, 0, Action::Up)]).unwrap();
    assert_eq!(table.encoding(), None);
    let table = TransitionTable::from_entries(1, 2, &[t(0, 1, Action::Up), t(0, 0, Action::Replicate)]).unwrap();
    assert_eq!(table.to_values(), None);
}

#[test]
fn from_entries_checks_sizes_and_ranges() {
    let two = [t(0, 1, Action::Left), t(0, 0, Action::Right)];
    assert!(TransitionTable::from_entries(1, 2, &two).is_ok());
    assert_eq!(TransitionTable::from_entries(1, 3, &two).err(), Some(TableError::InvalidConfiguration));
    assert_eq!(TransitionTable::from_entries(0, 2, &[]).err(), Some(TableError::InvalidConfiguration));
    let bad_state = [t(1, 1, Action::Left), t(0, 0, Action::Right)];
    assert_eq!(TransitionTable::from_entries(1, 2, &bad_state).err(), Some(TableError::EntryOutOfRange));
    let bad_symbol = [t(0, 1, Action::Left), t(0, 2, Action::Right)];
    assert_eq!(TransitionTable::from_entries(1, 2, &bad_symbol).err(), Some(TableError::EntryOutOfRange));
}

#[test]
fn duplicate_keeps_every_entry() {
    let table = TransitionTable::new(7, 9, &mut SimRng::from_seed(5)).unwrap();
    let copy = table.duplicate();
    assert_eq!(copy.num_states(), 7);
    assert_eq!(copy.num_symbols(), 9);
    assert_eq!(copy.len(), 63);
    for i in 0..63 {
        assert_eq!(copy.entry(i), table.entry(i));
    }
}

#[test]
fn action_codes() {
    assert_eq!(Action::from_code(0), Some(Action::Left));
    assert_eq!(Action::from_code(1), Some(Action::Right));
    assert_eq!(Action::from_code(2), Some(Action::Up));
    assert_eq!(Action::from_code(3), Some(Action::Down));
    assert_eq!(Action::from_code(4), None);
    assert_eq!(Action::Down.code(), Some(3));
    assert_eq!(Action::Wait.code(), None);
    assert_eq!(Action::from_draw(0), Action::Up);
    assert_eq!(Action::from_draw(4), Action::Wait);
    assert_eq!(Action::from_draw(5), Action::Replicate);
    assert_eq!(Action::from_draw(9), Action::Replicate);
}

#[test]
fn random_draws_stay_below_the_bound() {
    let mut rng = SimRng::from_seed(11);
    let mut seen = [false; 5];
    for _ in 0..500 {
        let r = rng.below(5);
        assert!(r < 5);
        seen[r] = true;
    }
    assert!(seen.iter().all(|&s| s));
    assert_eq!(rng.below(1), 0);
}
