use compiler::symbols::{Const, Symbol, SymbolTable};
use compiler::utils::is_prime;

fn ident(name: &str) -> Symbol {
    Symbol::Ident(name.to_string())
}

fn number(value: i32) -> Symbol {
    Symbol::Const(Const::I32(value))
}

#[test]
fn test_symbol_table() {
    let mut symbol_table = SymbolTable::default();
    assert!(symbol_table.is_empty());

    let s1 = Symbol::Const(Const::I32(1));
    let s2 = Symbol::Ident("counter".to_string());

    // Add a new symbol
    let c1 = symbol_table.insert(s1.clone());
    assert!(symbol_table.len() == 1);
    assert!(symbol_table.contains(&s1));

    // Add an existing symbol
    assert_eq!(symbol_table.insert(s1.clone()), c1);
    assert_eq!(symbol_table.len(), 1);
    assert!(symbol_table.contains(&s1));

    // Add a new symbol
    let c2 = symbol_table.insert(s2.clone());
    assert_ne!(c1, c2);
    assert_eq!(symbol_table.len(), 2);
    assert!(symbol_table.contains(&s1));
    assert!(symbol_table.contains(&s2));
}

#[test]
fn symbol_table_test_symbol_table() {
    let mut symbol_table = SymbolTable::default();
    assert!(symbol_table.is_empty());

    let i1 = symbol_table.insert(Symbol::Const(Const::I32(1)));
    assert!(symbol_table.len() == 1);

    let i2 = symbol_table.insert(Symbol::Const(Const::I32(1)));
    assert!(symbol_table.len() == 1);
    assert_eq!(i1, i2);

    let i3 = symbol_table.insert(Symbol::Ident("counter".to_string()));
    assert!(symbol_table.len() == 2);
    assert_ne!(i1, i3);
}

#[test]
fn inserting_one_symbol_many_times_gives_one_id() {
    for symbol in [ident("x"), number(-7), Symbol::Const(Const::Str("x".to_string()))] {
        let mut table = SymbolTable::default();
        for _ in 0..25 {
            assert_eq!(table.insert(symbol.clone()), 1);
            assert_eq!(table.len(), 1);
        }
        assert_eq!(table.capacity(), 5);
    }
}

#[test]
fn different_symbols_get_different_ids() {
    let mut table = SymbolTable::default();
    let first = table.insert(ident("a"));
    let second = table.insert(ident("b"));
    let third = table.insert(Symbol::Const(Const::Str("a".to_string())));
    assert_eq!(first, 1);
    assert_eq!(second, 2);
    assert_eq!(third, 3);
    assert_eq!(table.get(&ident("a")), Some(1));
    assert_eq!(table.get(&ident("b")), Some(2));
    assert_eq!(table.get(&Symbol::Const(Const::Str("a".to_string()))), Some(3));
}

#[test]
fn symbols_with_one_hash_code_are_told_apart() {
    let as_number = number(97);
    let as_char = Symbol::Const(Const::Char('a'));
    assert_eq!(as_number.hash_code(), as_char.hash_code());

    let mut table = SymbolTable::default();
    assert_eq!(table.insert(as_number.clone()), 1);
    assert_eq!(table.insert(as_char.clone()), 2);
    assert_eq!(table.insert(as_number.clone()), 1);
    assert_eq!(table.insert(as_char.clone()), 2);
    assert_eq!(table.get(&as_number), Some(1));
    assert_eq!(table.get(&as_char), Some(2));
    assert_eq!(table.len(), 2);
}

#[test]
fn symbols_with_one_home_slot_are_found_by_probing() {
    // With five slots 0, 5 and 10 all start at slot 0, and 4 at the last slot.
    let mut table = SymbolTable::default();
    assert_eq!(table.insert(number(4)), 1);
    assert_eq!(table.insert(number(0)), 2);
    assert_eq!(table.insert(number(5)), 3);
    assert_eq!(table.capacity(), 5);
    assert_eq!(table.get(&number(5)), Some(3));
    assert_eq!(table.get(&number(0)), Some(2));
    assert_eq!(table.get(&number(4)), Some(1));
    assert_eq!(table.get(&number(10)), None);
    assert_eq!(table.get(&number(9)), None);
}

#[test]
fn at_most_three_quarters_of_the_slots_are_taken() {
    let mut table = SymbolTable::default();
    for i in 0..2000 {
        table.insert(number(i * 7 - 500));
        assert!(table.len() * 4 <= table.capacity() * 3);
        assert!(is_prime(table.capacity()));
    }
    assert_eq!(table.len(), 2000);
}

#[test]
fn the_table_grows_to_the_next_prime_from_twice_its_slots() {
    let mut table = SymbolTable::default();
    assert_eq!(table.capacity(), 0);
    let mut capacities = Vec::new();
    for i in 0..40 {
        table.insert(number(i));
        if capacities.last() != Some(&table.capacity()) {
            capacities.push(table.capacity());
        }
    }
    assert_eq!(capacities, vec![5, 11, 23, 47, 97]);
}

#[test]
fn the_table_grows_before_the_insertion_that_would_overfill_it() {
    let mut table = SymbolTable::default();
    for i in 0..3 {
        table.insert(number(i));
        assert_eq!(table.capacity(), 5);
    }
    table.insert(number(3));
    assert_eq!(table.capacity(), 11);
    for i in 4..8 {
        table.insert(number(i));
        assert_eq!(table.capacity(), 11);
    }
    table.insert(number(8));
    assert_eq!(table.capacity(), 23);
}

#[test]
fn an_insertion_of_a_known_symbol_changes_nothing() {
    let mut table = SymbolTable::default();
    for i in 1..4 {
        table.insert(number(i));
    }
    assert_eq!(table.len(), 3);
    assert_eq!(table.capacity(), 5);

    // One more symbol would overfill the table, but a known one is not one more.
    assert_eq!(table.insert(number(1)), 1);
    assert_eq!(table.len(), 3);
    assert_eq!(table.capacity(), 5);
    assert_eq!(table.try_insert(number(3)), Some(3));
    assert_eq!(table.len(), 3);
    assert_eq!(table.capacity(), 5);
    assert_eq!(table.get(&number(1)), Some(1));
    assert_eq!(table.get(&number(2)), Some(2));
    assert_eq!(table.get(&number(3)), Some(3));

    // A new one grows it first.
    assert_eq!(table.insert(number(4)), 4);
    assert_eq!(table.len(), 4);
    assert_eq!(table.capacity(), 11);
    assert_eq!(table.get(&number(1)), Some(1));
    assert_eq!(table.get(&number(4)), Some(4));
}

#[test]
fn known_symbols_never_grow_the_table() {
    let mut table = SymbolTable::default();
    for i in 0..200 {
        table.insert(number(i));
        let capacity = table.capacity();
        for j in 0..=i {
            assert_eq!(table.insert(number(j)), (j + 1) as usize);
            assert_eq!(table.capacity(), capacity);
            assert_eq!(table.len(), (i + 1) as usize);
        }
    }
}

#[test]
fn ids_are_stable_across_growth() {
    let mut table = SymbolTable::default();
    for i in 0..500 {
        let name = format!("name_{}", i);
        assert_eq!(table.insert(ident(&name)), i + 1);
        for j in [0, i / 2, i] {
            let earlier = format!("name_{}", j);
            assert_eq!(table.get(&ident(&earlier)), Some(j + 1));
        }
    }
    for i in 0..500 {
        let name = format!("name_{}", i);
        assert_eq!(table.insert(ident(&name)), i + 1);
    }
    assert_eq!(table.len(), 500);
}

#[test]
fn to_sorted_vec_lists_the_symbols_in_the_order_of_their_ids() {
    let mut table = SymbolTable::default();
    let names = ["delta", "alpha", "charlie", "bravo", "echo", "alpha", "delta", "foxtrot"];
    for name in names {
        table.insert(ident(name));
    }
    let sorted = table.to_sorted_vec();
    let expected = ["delta", "alpha", "charlie", "bravo", "echo", "foxtrot"];
    assert_eq!(sorted.len(), expected.len());
    for (k, (symbol, id)) in sorted.iter().enumerate() {
        assert_eq!(**symbol, ident(expected[k]));
        assert_eq!(*id, k + 1);
    }
}

#[test]
fn to_sorted_vec_of_an_empty_table_is_empty() {
    let table = SymbolTable::default();
    assert!(table.to_sorted_vec().is_empty());
}

#[test]
fn lookups_in_an_empty_table_find_nothing() {
    let table = SymbolTable::default();
    assert_eq!(table.get(&ident("x")), None);
    assert!(!table.contains(&ident("x")));
    assert_eq!(table.len(), 0);
    assert!(table.is_empty());
    assert_eq!(table.capacity(), 0);
}

#[test]
fn lookups_do_not_change_the_table() {
    let mut table = SymbolTable::default();
    table.insert(ident("x"));
    assert_eq!(table.get(&ident("y")), None);
    assert!(!table.contains(&ident("y")));
    assert_eq!(table.len(), 1);
    assert_eq!(table.capacity(), 5);
    assert_eq!(table.insert(ident("y")), 2);
}

#[test]
fn try_insert_gives_the_id_that_insert_gives() {
    let mut table = SymbolTable::default();
    assert_eq!(table.try_insert(ident("x")), Some(1));
    assert_eq!(table.try_insert(ident("y")), Some(2));
    assert_eq!(table.try_insert(ident("x")), Some(1));
    assert_eq!(table.insert(ident("y")), 2);
    assert_eq!(table.len(), 2);
}

#[test]
fn an_identifier_and_a_string_of_the_same_text_are_different_symbols() {
    let name = ident("abc");
    let text = Symbol::Const(Const::Str("abc".to_string()));
    assert_eq!(name.hash_code(), text.hash_code());
    assert!(name != text);
    let mut table = SymbolTable::default();
    assert_eq!(table.insert(name), 1);
    assert_eq!(table.insert(text), 2);
}

#[test]
fn the_iterator_returns_every_entry_once() {
    let mut table = SymbolTable::default();
    for i in 0..50 {
        table.insert(number(i * 3));
    }
    let mut iter = table.iter();
    let mut seen = vec![false; 50];
    let mut count = 0;
    while let Some((symbol, id)) = iter.next() {
        assert!(1 <= *id && *id <= 50);
        assert!(!seen[*id - 1]);
        seen[*id - 1] = true;
        assert_eq!(*symbol, number((*id as i32 - 1) * 3));
        count += 1;
    }
    assert_eq!(count, 50);
    assert!(iter.next().is_none());
    assert!(iter.next().is_none());
}

#[test]
fn the_iterator_goes_by_the_slots() {
    // With five slots: 4 in the last slot, 0 in the first, 5 behind it.
    let mut table = SymbolTable::default();
    table.insert(number(4));
    table.insert(number(0));
    table.insert(number(5));
    let mut iter = table.iter();
    assert_eq!(iter.next(), Some(&(number(0), 2)));
    assert_eq!(iter.next(), Some(&(number(5), 3)));
    assert_eq!(iter.next(), Some(&(number(4), 1)));
    assert_eq!(iter.next(), None);
}

#[test]
fn the_iterator_of_an_empty_table_returns_nothing() {
    let table = SymbolTable::default();
    assert!(table.iter().next().is_none());
}
