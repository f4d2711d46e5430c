use polar_core::counter::{Counter, MAX_ID};
use polar_core::kb::{KnowledgeBase, Path, Scope};
use polar_core::sources::{Source, Sources};
use polar_core::terms::{Numeric, Rule, Symbol, Term, Value};

fn sym(s: &str) -> Symbol {
    Symbol::new(s.to_string())
}

fn term(value: Value) -> Term {
    Term::new_from_test(value)
}

fn int_term(n: i64) -> Term {
    term(Value::Number(Numeric::Integer(n)))
}

fn simple_rule(name: &str) -> Rule {
    Rule {
        name: sym(name),
        params: vec![],
        body: term(Value::Boolean(true)),
        source_info: polar_core::terms::SourceInfo::Test,
        required: false,
    }
}

#[test]
fn test_new_id_monotonic() {
    let mut kb = KnowledgeBase::new();
    let a = kb.new_id();
    let b = kb.new_id();
    let c = kb.new_id();
    assert!(a < b && b < c);
    assert_eq!((a, b, c), (1, 2, 3));
    assert!(c <= MAX_ID);
}

#[test]
fn test_new_id_wraparound() {
    let mut kb = KnowledgeBase::new();
    kb.id_counter = Counter { next_value: MAX_ID };
    let a = kb.new_id();
    let b = kb.new_id();
    assert_eq!(a, MAX_ID);
    assert_eq!(b, 1);
}

#[test]
fn test_gensym_naming() {
    let mut kb = KnowledgeBase::new();
    assert_eq!(kb.gensym("_").0, "_1");
    assert_eq!(kb.gensym("foo").0, "_foo_2");
    assert_eq!(kb.gensym("_foo").0, "_foo_3");
}

#[test]
fn test_gensym_normalization_same_counter_value() {
    let mut kb1 = KnowledgeBase::new();
    let mut kb2 = KnowledgeBase::new();
    assert_eq!(kb1.gensym("foo"), kb2.gensym("_foo"));
}

#[test]
fn test_gensym_unique() {
    let mut kb = KnowledgeBase::new();
    let mut seen: Vec<String> = Vec::new();
    let prefixes = ["_", "a", "_a", "a_1", "x", "x", "x2", "_2"];
    for p in prefixes {
        let s = kb.gensym(p).0;
        assert!(!seen.contains(&s), "duplicate gensym: {}", s);
        seen.push(s);
    }
    assert_eq!(seen.len(), prefixes.len());
}

#[test]
fn test_constant_and_is_constant() {
    let mut kb = KnowledgeBase::new();
    assert!(!kb.is_constant(&sym("k")));
    kb.constant(sym("k"), int_term(5));
    assert!(kb.is_constant(&sym("k")));
    let found = kb.lookup_constant(Path::Local(sym("k")), Path::Local(sym("default")));
    assert_eq!(found, Some(&int_term(5)));
    // Overwriting replaces the binding.
    kb.constant(sym("k"), int_term(6));
    let found = kb.lookup_constant(Path::Local(sym("k")), Path::Local(sym("default")));
    assert_eq!(found, Some(&int_term(6)));
}

#[test]
fn test_lookup_unregistered_scope_is_none() {
    let kb = KnowledgeBase::new();
    assert_eq!(
        kb.lookup_constant(Path::Local(sym("k")), Path::Local(sym("nowhere"))),
        None
    );
    assert_eq!(
        kb.lookup_constant(
            Path::Qualified(sym("nowhere"), sym("k")),
            Path::Local(sym("default"))
        ),
        None
    );
    assert!(kb
        .lookup_rule(Path::Local(sym("r")), Path::Local(sym("default")))
        .is_none());
}

#[test]
fn test_rule_accumulation() {
    let mut kb = KnowledgeBase::new();
    let scope = || Path::Local(sym("default"));
    kb.add_rule(simple_rule("r"), scope());
    kb.add_rule(simple_rule("r"), scope());
    let group = kb.lookup_rule(Path::Local(sym("r")), scope()).unwrap();
    assert_eq!(group.name, sym("r"));
    assert_eq!(group.rules.len(), 2);
    assert_eq!(*group.rules[0], simple_rule("r"));
    assert_eq!(*group.rules[1], simple_rule("r"));
}

#[test]
fn test_constant_persistence_across_reload() {
    let mut kb = KnowledgeBase::new();
    kb.constant(sym("k"), int_term(5));
    kb.add_rule(simple_rule("r"), Path::Local(sym("default")));
    kb.clear_rules();
    assert!(kb.is_constant(&sym("k")));
    let found = kb.lookup_constant(Path::Local(sym("k")), Path::Local(sym("default")));
    assert_eq!(found, Some(&int_term(5)));
    assert!(kb
        .lookup_rule(Path::Local(sym("r")), Path::Local(sym("default")))
        .is_none());
}

#[test]
fn test_scope_inclusion_placeholder() {
    // Everything is included in everything: a qualified path referencing
    // any registered scope resolves, whatever the base scope.
    let mut kb = KnowledgeBase::new();
    kb.scopes
        .insert(sym("other"), Scope::new(Path::Local(sym("other"))));
    kb.add_rule(simple_rule("r"), Path::Local(sym("other")));
    // Constants live in the default scope; find them from `other`.
    kb.constant(sym("k"), int_term(9));
    let via_other = kb.lookup_constant(
        Path::Qualified(sym("default"), sym("k")),
        Path::Local(sym("other")),
    );
    assert_eq!(via_other, Some(&int_term(9)));
    // Rules defined in `other` are visible from `default` via a qualifier.
    let group = kb
        .lookup_rule(
            Path::Qualified(sym("other"), sym("r")),
            Path::Local(sym("default")),
        )
        .unwrap();
    assert_eq!(group.rules.len(), 1);
}

#[test]
fn test_id_counter_snapshot() {
    let mut kb = KnowledgeBase::new();
    kb.new_id();
    let snapshot = kb.id_counter();
    assert_eq!(snapshot, Counter { next_value: 2 });
}

#[test]
fn test_sources_registry() {
    let mut sources = Sources::new();
    let id = sources.add_source(Source {
        filename: Some("policy".to_string()),
        src: "f(x);".to_string(),
    });
    assert_eq!(id, 0);
    let s = sources.get_source(0).unwrap();
    assert_eq!(s.src, "f(x);");
    assert!(sources.get_source(1).is_none());
}
