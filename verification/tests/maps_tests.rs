use polar_core::maps::{symbol_lt, SymbolMap};
use polar_core::terms::{Numeric, Symbol, Term, Value};

fn sym(s: &str) -> Symbol {
    Symbol::new(s.to_string())
}

fn int_term(n: i64) -> Term {
    Term::new_from_test(Value::Number(Numeric::Integer(n)))
}

#[test]
fn test_symbol_order() {
    assert!(symbol_lt(&sym("a"), &sym("b")));
    assert!(symbol_lt(&sym("a"), &sym("ab")));
    assert!(!symbol_lt(&sym("b"), &sym("a")));
    assert!(!symbol_lt(&sym("a"), &sym("a")));
    assert!(symbol_lt(&sym(""), &sym("a")));
}

#[test]
fn test_dictionary_order_invariant() {
    // The same key/value pairs in any insertion order give structurally
    // equal maps with identical (key-sorted) iteration order.
    let mut m1: SymbolMap<Term> = SymbolMap::new();
    m1.insert(sym("b"), int_term(2));
    m1.insert(sym("a"), int_term(1));
    m1.insert(sym("c"), int_term(3));
    let mut m2: SymbolMap<Term> = SymbolMap::new();
    m2.insert(sym("c"), int_term(3));
    m2.insert(sym("a"), int_term(1));
    m2.insert(sym("b"), int_term(2));
    assert_eq!(m1, m2);
    let keys: Vec<&str> = m1.entries.iter().map(|(k, _)| k.0.as_str()).collect();
    assert_eq!(keys, vec!["a", "b", "c"]);
}

#[test]
fn test_insert_replaces_equal_key() {
    let mut m: SymbolMap<Term> = SymbolMap::new();
    m.insert(sym("a"), int_term(1));
    m.insert(sym("a"), int_term(2));
    assert_eq!(m.len(), 1);
    assert_eq!(m.get(&sym("a")), Some(&int_term(2)));
}

#[test]
fn test_get_and_remove() {
    let mut m: SymbolMap<Term> = SymbolMap::new();
    m.insert(sym("a"), int_term(1));
    m.insert(sym("b"), int_term(2));
    assert_eq!(m.get(&sym("b")), Some(&int_term(2)));
    assert_eq!(m.get(&sym("z")), None);
    assert_eq!(m.remove(&sym("a")), Some(int_term(1)));
    assert_eq!(m.get(&sym("a")), None);
    assert_eq!(m.remove(&sym("a")), None);
    assert_eq!(m.len(), 1);
}
