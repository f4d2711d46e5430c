use polar_core::folder::{Folder, TrivialFolder, VariableRenamer};
use polar_core::maps::SymbolMap;
use polar_core::terms::{
    Call, Dictionary, InstanceLiteral, List, Numeric, Operation, Operator, Parameter, Rule, Symbol,
    Term, Value, Variable,
};

fn sym(s: &str) -> Symbol {
    Symbol::new(s.to_string())
}

fn term(value: Value) -> Term {
    Term::new_from_test(value)
}

fn dict(pairs: Vec<(&str, Term)>) -> Dictionary {
    let mut fields: SymbolMap<Term> = SymbolMap::new();
    for (k, v) in pairs {
        fields.insert(sym(k), v);
    }
    Dictionary { fields }
}

fn atomics_term() -> Term {
    let number = Value::Number(Numeric::Integer(1));
    let string = Value::String("Hi there!".to_string());
    let boolean = Value::Boolean(true);
    let variable = Value::Variable(Variable(sym("x")));
    let list = vec![term(number), term(string), term(boolean), term(variable)];
    term(Value::List(List { elements: list, rest_var: None }))
}

#[test]
fn test_fold_term_atomics() {
    let term = atomics_term();
    let mut fld = TrivialFolder {};
    assert_eq!(fld.fold_term(atomics_term()), term);
}

fn compounds_term() -> Term {
    let instance_pattern = term(Value::InstanceLiteral(InstanceLiteral {
        tag: sym("d"),
        fields: dict(vec![
            (
                "e",
                term(Value::Call(Call {
                    name: sym("f"),
                    args: vec![term(Value::Number(Numeric::Integer(2)))],
                    kwargs: None,
                })),
            ),
            (
                "g",
                term(Value::Expression(Operation {
                    operator: Operator::Add,
                    args: vec![
                        term(Value::Number(Numeric::Integer(3))),
                        term(Value::Number(Numeric::Integer(4))),
                    ],
                })),
            ),
        ]),
    }));
    let dict_pattern = term(Value::Dictionary(dict(vec![
        ("i", term(Value::String("j".to_string()))),
        ("k", term(Value::String("l".to_string()))),
    ])));
    term(Value::Dictionary(dict(vec![
        ("a", term(Value::Dictionary(dict(vec![("c", instance_pattern)])))),
        ("h", dict_pattern),
    ])))
}

#[test]
fn test_fold_term_compounds() {
    let term = compounds_term();
    let mut fld = TrivialFolder {};
    assert_eq!(fld.fold_term(compounds_term()), term);
}

fn sample_rule() -> Rule {
    Rule {
        name: sym("a"),
        params: vec![
            Parameter {
                parameter: term(Value::String("b".to_string())),
                specializer: Some(term(Value::InstanceLiteral(InstanceLiteral {
                    tag: sym("c"),
                    fields: dict(vec![]),
                }))),
            },
            Parameter {
                parameter: term(Value::String("d".to_string())),
                specializer: None,
            },
        ],
        body: term(Value::Call(Call {
            name: sym("e"),
            args: vec![term(Value::String("f".to_string()))],
            kwargs: None,
        })),
        source_info: polar_core::terms::SourceInfo::Test,
        required: false,
    }
}

#[test]
fn test_fold_rule() {
    let rule = sample_rule();
    let mut fld = TrivialFolder {};
    assert_eq!(fld.fold_rule(sample_rule()), rule);
}

// A variable nested under a call argument, a list element and its
// rest-variable, a dictionary value, and an operation argument.
fn deep_term_with(name: &str) -> Term {
    let v = || term(Value::Variable(Variable(sym(name))));
    let call = term(Value::Call(Call { name: sym("f"), args: vec![v()], kwargs: None }));
    let list = term(Value::List(List {
        elements: vec![call],
        rest_var: Some(Variable(sym(name))),
    }));
    let inner_dict = term(Value::Dictionary(dict(vec![("k", list)])));
    term(Value::Expression(Operation { operator: Operator::And, args: vec![inner_dict, v()] }))
}

#[test]
fn test_rename_rewrites_every_occurrence() {
    let input = deep_term_with("x");
    let expected = deep_term_with("y");
    let mut fld = VariableRenamer { from: sym("x"), to: sym("y") };
    assert_eq!(fld.fold_term(input), expected);
}

#[test]
fn test_rename_leaves_other_variables() {
    let input = deep_term_with("z");
    let expected = deep_term_with("z");
    let mut fld = VariableRenamer { from: sym("x"), to: sym("y") };
    assert_eq!(fld.fold_term(input), expected);
}

#[test]
fn test_fold_preserves_provenance() {
    let t = Term::new_from_parser(7, 3, 9, Value::Boolean(false));
    let mut fld = TrivialFolder {};
    let r = fld.fold_term(t);
    assert_eq!(
        r,
        Term::new_from_parser(7, 3, 9, Value::Boolean(false))
    );
}

#[test]
fn test_fold_call_with_kwargs() {
    let x = term(Value::Variable(Variable(sym("x"))));
    let mut kwargs: SymbolMap<Term> = SymbolMap::new();
    kwargs.insert(sym("k"), x);
    let input = term(Value::Call(Call {
        name: sym("f"),
        args: vec![term(Value::Number(Numeric::Integer(1)))],
        kwargs: Some(kwargs),
    }));
    let y = term(Value::Variable(Variable(sym("y"))));
    let mut expected_kwargs: SymbolMap<Term> = SymbolMap::new();
    expected_kwargs.insert(sym("k"), y);
    let expected = term(Value::Call(Call {
        name: sym("f"),
        args: vec![term(Value::Number(Numeric::Integer(1)))],
        kwargs: Some(expected_kwargs),
    }));
    let mut fld = VariableRenamer { from: sym("x"), to: sym("y") };
    assert_eq!(fld.fold_call(
        match input.value {
            Value::Call(c) => c,
            _ => unreachable!(),
        }
    ), match expected.value {
        Value::Call(c) => c,
        _ => unreachable!(),
    });
}
