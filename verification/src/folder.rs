//! The open-recursive AST fold framework.
//!
//! A [`Folder`] is an AST-to-AST fold: one overridable hook per node kind.
//! The free `fold_*` functions perform the generic rewrite for one node
//! kind, forwarding every child back through the folder's own hooks — never
//! through a fixed routine — so a folder overriding only one hook still
//! sees every node of that kind, however deeply nested. An implementation
//! that wants the generic behaviour for a composite hook calls the
//! matching free function from its hook body.
//!
//! Contracts are stated over the leaf behaviours of a folder
//! ([`LeafFolder::leaf_fns`]): for any folder whose hooks are pure
//! ([`LeafFolder::fold_pure`]), each fold computes exactly the
//! [`spec_fold_term`] family of its leaf functions.

use vstd::prelude::*;

use crate::maps::{lex_lt, spec_insert, SymbolMap};
use crate::terms::{
    Call, CallV, Dictionary, DictionaryV, InstanceLiteral, InstanceLiteralV, List, ListV, Numeric,
    Operation, OperationV, Operator, Parameter, ParameterV, Rule, RuleV, Symbol, Term, TermV,
    Value, ValueV, Variable, view_entries, view_params, view_terms, lemma_view_entries,
    lemma_view_params, lemma_view_terms,
};

verus! {

broadcast use {vstd::std_specs::vec::group_vec_axioms, vstd::seq::group_seq_axioms};

/// The leaf behaviours of a folder, one function per leaf node kind.
pub struct LeafFns {
    pub num: spec_fn(Numeric) -> Numeric,
    pub string: spec_fn(Seq<char>) -> Seq<char>,
    pub boolean: spec_fn(bool) -> bool,
    pub symbol: spec_fn(Seq<char>) -> Seq<char>,
    pub variable: spec_fn(Seq<char>) -> Seq<char>,
    pub operator: spec_fn(Operator) -> Operator,
}

/// The leaf behaviours of the identity fold.
pub open spec fn identity_leaf_fns() -> LeafFns {
    LeafFns {
        num: |n: Numeric| n,
        string: |s: Seq<char>| s,
        boolean: |b: bool| b,
        symbol: |s: Seq<char>| s,
        variable: |s: Seq<char>| s,
        operator: |o: Operator| o,
    }
}

/// The leaf behaviours of a fold that rewrites exactly the variables named
/// `from` to `to` and leaves every other leaf unchanged.
pub open spec fn rename_leaf_fns(from: Seq<char>, to: Seq<char>) -> LeafFns {
    LeafFns {
        num: |n: Numeric| n,
        string: |s: Seq<char>| s,
        boolean: |b: bool| b,
        symbol: |s: Seq<char>| s,
        variable: |s: Seq<char>|
            if s == from {
                to
            } else {
                s
            },
        operator: |o: Operator| o,
    }
}

/// What folding a term computes, given the folder's leaf behaviours.
pub open spec fn spec_fold_term(lf: LeafFns, t: TermV) -> TermV
    decreases t,
{
    TermV { value: spec_fold_value(lf, t.value), source_info: t.source_info }
}

/// What folding a value computes: the variant tag is preserved.
pub open spec fn spec_fold_value(lf: LeafFns, v: ValueV) -> ValueV
    decreases v,
{
    match v {
        ValueV::Number(n) => ValueV::Number((lf.num)(n)),
        ValueV::String(s) => ValueV::String((lf.string)(s)),
        ValueV::Boolean(b) => ValueV::Boolean((lf.boolean)(b)),
        ValueV::Variable(n) => ValueV::Variable((lf.variable)(n)),
        ValueV::Dictionary(d) => ValueV::Dictionary(spec_fold_dict(lf, d)),
        ValueV::InstanceLiteral(i) => ValueV::InstanceLiteral(
            InstanceLiteralV { tag: (lf.symbol)(i.tag), fields: spec_fold_dict(lf, i.fields) },
        ),
        ValueV::Call(c) => ValueV::Call(
            CallV {
                name: (lf.symbol)(c.name),
                args: spec_fold_terms(lf, c.args),
                kwargs: match c.kwargs {
                    Some(k) => Some(spec_fold_dict(lf, k)),
                    None => None,
                },
            },
        ),
        ValueV::List(l) => ValueV::List(
            ListV {
                elements: spec_fold_terms(lf, l.elements),
                rest_var: match l.rest_var {
                    Some(n) => Some((lf.variable)(n)),
                    None => None,
                },
            },
        ),
        ValueV::Expression(o) => ValueV::Expression(
            OperationV { operator: (lf.operator)(o.operator), args: spec_fold_terms(lf, o.args) },
        ),
    }
}

/// Element-wise fold of a term sequence, order preserved.
pub open spec fn spec_fold_terms(lf: LeafFns, s: Seq<TermV>) -> Seq<TermV>
    decreases s,
{
    if s.len() == 0 {
        Seq::empty()
    } else {
        seq![spec_fold_term(lf, s[0])] + spec_fold_terms(lf, s.drop_first())
    }
}

/// Element-wise fold of a dictionary entry sequence: every key and value is
/// folded, order preserved (re-sorting happens in [`spec_fold_dict`]).
pub open spec fn spec_fold_entries(lf: LeafFns, s: Seq<(Seq<char>, TermV)>) -> Seq<
    (Seq<char>, TermV),
>
    decreases s,
{
    if s.len() == 0 {
        Seq::empty()
    } else {
        seq![((lf.symbol)(s[0].0), spec_fold_term(lf, s[0].1))] + spec_fold_entries(
            lf,
            s.drop_first(),
        )
    }
}

/// Sorted insertion of one entry at view level, replacing an equal key.
pub open spec fn insert_entry_v(s: Seq<(Seq<char>, TermV)>, k: Seq<char>, t: TermV) -> Seq<
    (Seq<char>, TermV),
>
    decreases s,
{
    if s.len() == 0 {
        seq![(k, t)]
    } else if lex_lt(k, s[0].0) {
        seq![(k, t)] + s
    } else if k == s[0].0 {
        seq![(k, t)] + s.drop_first()
    } else {
        seq![s[0]] + insert_entry_v(s.drop_first(), k, t)
    }
}

/// Re-sort an entry sequence by key: entries are inserted left to right, so
/// a later entry overrides an earlier one with the same key.
pub open spec fn sort_entries_v(s: Seq<(Seq<char>, TermV)>) -> Seq<(Seq<char>, TermV)>
    decreases s,
{
    if s.len() == 0 {
        Seq::empty()
    } else {
        insert_entry_v(sort_entries_v(s.drop_last()), s.last().0, s.last().1)
    }
}

/// What folding a dictionary computes: every key and value is folded, and
/// the result is re-sorted by the folded keys, since a fold that renames
/// keys can change the key order.
pub open spec fn spec_fold_dict(lf: LeafFns, d: DictionaryV) -> DictionaryV
    decreases d,
{
    DictionaryV { entries: sort_entries_v(spec_fold_entries(lf, d.entries)) }
}

/// What folding a parameter computes.
pub open spec fn spec_fold_param(lf: LeafFns, p: ParameterV) -> ParameterV
    decreases p,
{
    ParameterV {
        parameter: spec_fold_term(lf, p.parameter),
        specializer: match p.specializer {
            Some(t) => Some(spec_fold_term(lf, t)),
            None => None,
        },
    }
}

/// Element-wise fold of a parameter sequence, order preserved.
pub open spec fn spec_fold_params(lf: LeafFns, s: Seq<ParameterV>) -> Seq<ParameterV>
    decreases s,
{
    if s.len() == 0 {
        Seq::empty()
    } else {
        seq![spec_fold_param(lf, s[0])] + spec_fold_params(lf, s.drop_first())
    }
}

/// What folding a rule computes: name, parameters and body are folded;
/// provenance and the `required` flag pass through unchanged.
pub open spec fn spec_fold_rule(lf: LeafFns, r: RuleV) -> RuleV
    decreases r,
{
    RuleV {
        name: (lf.symbol)(r.name),
        params: spec_fold_params(lf, r.params),
        body: spec_fold_term(lf, r.body),
        source_info: r.source_info,
        required: r.required,
    }
}

/// `spec_fold_terms` is the element-wise fold.
pub proof fn lemma_spec_fold_terms(lf: LeafFns, s: Seq<TermV>)
    ensures
        spec_fold_terms(lf, s).len() == s.len(),
        forall|i: int| 0 <= i < s.len() ==> spec_fold_terms(lf, s)[i] == spec_fold_term(lf, s[i]),
    decreases s,
{
    if s.len() > 0 {
        lemma_spec_fold_terms(lf, s.drop_first());
    }
}

/// `spec_fold_entries` is the element-wise fold.
pub proof fn lemma_spec_fold_entries(lf: LeafFns, s: Seq<(Seq<char>, TermV)>)
    ensures
        spec_fold_entries(lf, s).len() == s.len(),
        forall|i: int|
            0 <= i < s.len() ==> spec_fold_entries(lf, s)[i] == ((lf.symbol)(s[i].0),
            spec_fold_term(lf, s[i].1)),
    decreases s,
{
    if s.len() > 0 {
        lemma_spec_fold_entries(lf, s.drop_first());
    }
}

/// `spec_fold_params` is the element-wise fold.
pub proof fn lemma_spec_fold_params(lf: LeafFns, s: Seq<ParameterV>)
    ensures
        spec_fold_params(lf, s).len() == s.len(),
        forall|i: int|
            0 <= i < s.len() ==> spec_fold_params(lf, s)[i] == spec_fold_param(lf, s[i]),
    decreases s,
{
    if s.len() > 0 {
        lemma_spec_fold_params(lf, s.drop_first());
    }
}

/// The leaf hooks of a folder, one per leaf node kind, together with the
/// folder's spec-level description: `fold_pure` promises that the hooks
/// leave the folder unchanged and behave exactly as `leaf_fns` says.
pub trait LeafFolder: Sized {
    /// Whether this folder's hooks are pure and described by `leaf_fns`.
    spec fn fold_pure(&self) -> bool;

    /// The leaf behaviours this folder implements.
    spec fn leaf_fns(&self) -> LeafFns;

    fn fold_number(&mut self, n: Numeric) -> (r: Numeric)
        ensures
            old(self).fold_pure() ==> (*final(self) == *old(self) && r == (old(
                self,
            ).leaf_fns().num)(n)),
    ;

    fn fold_string(&mut self, s: String) -> (r: String)
        ensures
            old(self).fold_pure() ==> (*final(self) == *old(self) && r@ == (old(
                self,
            ).leaf_fns().string)(s@)),
    ;

    fn fold_boolean(&mut self, b: bool) -> (r: bool)
        ensures
            old(self).fold_pure() ==> (*final(self) == *old(self) && r == (old(
                self,
            ).leaf_fns().boolean)(b)),
    ;

    fn fold_symbol(&mut self, n: Symbol) -> (r: Symbol)
        ensures
            old(self).fold_pure() ==> (*final(self) == *old(self) && r.view() == (old(
                self,
            ).leaf_fns().symbol)(n.view())),
    ;

    fn fold_variable(&mut self, v: Variable) -> (r: Variable)
        ensures
            old(self).fold_pure() ==> (*final(self) == *old(self) && r.view() == (old(
                self,
            ).leaf_fns().variable)(v.view())),
    ;

    fn fold_operator(&mut self, o: Operator) -> (r: Operator)
        ensures
            old(self).fold_pure() ==> (*final(self) == *old(self) && r == (old(
                self,
            ).leaf_fns().operator)(o)),
    ;
}

/// An AST-to-AST fold: one hook per node kind. Every hook owns its input
/// and returns a node of the same kind. A hook wanting the generic
/// behaviour calls the matching free `fold_*` function, which forwards
/// every child back through the folder's own hooks — this is what makes
/// the framework open-recursive. Overriding a composite hook without
/// calling the free function prunes the traversal below that point.
pub trait Folder: LeafFolder {
    fn fold_rule(&mut self, r: Rule) -> (res: Rule)
        ensures
            old(self).fold_pure() ==> (*final(self) == *old(self) && res.view() == spec_fold_rule(
                old(self).leaf_fns(),
                r.view(),
            )),
    ;

    fn fold_term(&mut self, t: Term) -> (r: Term)
        ensures
            old(self).fold_pure() ==> (*final(self) == *old(self) && r.view() == spec_fold_term(
                old(self).leaf_fns(),
                t.view(),
            )),
    ;

    fn fold_value(&mut self, v: Value) -> (r: Value)
        ensures
            old(self).fold_pure() ==> (*final(self) == *old(self) && r.view() == spec_fold_value(
                old(self).leaf_fns(),
                v.view(),
            )),
    ;

    fn fold_instance_literal(&mut self, i: InstanceLiteral) -> (r: InstanceLiteral)
        ensures
            old(self).fold_pure() ==> (*final(self) == *old(self) && r.view()
                == (InstanceLiteralV {
                tag: (old(self).leaf_fns().symbol)(i.view().tag),
                fields: spec_fold_dict(old(self).leaf_fns(), i.view().fields),
            })),
    ;

    fn fold_dictionary(&mut self, d: Dictionary) -> (r: Dictionary)
        ensures
            r.fields.wf(),
            old(self).fold_pure() ==> (*final(self) == *old(self) && r.view() == spec_fold_dict(
                old(self).leaf_fns(),
                d.view(),
            )),
    ;

    fn fold_call(&mut self, c: Call) -> (r: Call)
        ensures
            old(self).fold_pure() ==> (*final(self) == *old(self) && r.view().name == (old(
                self,
            ).leaf_fns().symbol)(c.view().name) && r.view().args == spec_fold_terms(
                old(self).leaf_fns(),
                c.view().args,
            ) && r.view().kwargs == (match c.view().kwargs {
                Some(k) => Some(spec_fold_dict(old(self).leaf_fns(), k)),
                None => None,
            })),
    ;

    fn fold_list(&mut self, l: List) -> (r: List)
        ensures
            old(self).fold_pure() ==> (*final(self) == *old(self) && r.view() == (ListV {
                elements: spec_fold_terms(old(self).leaf_fns(), l.view().elements),
                rest_var: match l.view().rest_var {
                    Some(n) => Some((old(self).leaf_fns().variable)(n)),
                    None => None,
                },
            })),
    ;

    fn fold_operation(&mut self, o: Operation) -> (r: Operation)
        ensures
            old(self).fold_pure() ==> (*final(self) == *old(self) && r.view() == (OperationV {
                operator: (old(self).leaf_fns().operator)(o.operator),
                args: spec_fold_terms(old(self).leaf_fns(), o.view().args),
            })),
    ;

    fn fold_param(&mut self, p: Parameter) -> (r: Parameter)
        ensures
            old(self).fold_pure() ==> (*final(self) == *old(self) && r.view() == spec_fold_param(
                old(self).leaf_fns(),
                p.view(),
            )),
    ;
}

/// Generic rewrite of a number: leaves have no substructure, so this is the
/// identity.
pub fn fold_number<T: Folder>(n: Numeric, _fld: &mut T) -> (r: Numeric)
    ensures
        r == n,
{
    n
}

/// Generic rewrite of a string: identity.
pub fn fold_string<T: Folder>(s: String, _fld: &mut T) -> (r: String)
    ensures
        r == s,
{
    s
}

/// Generic rewrite of a boolean: identity.
pub fn fold_boolean<T: Folder>(b: bool, _fld: &mut T) -> (r: bool)
    ensures
        r == b,
{
    b
}

/// Generic rewrite of a symbol: identity.
pub fn fold_symbol<T: Folder>(n: Symbol, _fld: &mut T) -> (r: Symbol)
    ensures
        r == n,
{
    n
}

/// Generic rewrite of a variable: identity.
pub fn fold_variable<T: Folder>(v: Variable, _fld: &mut T) -> (r: Variable)
    ensures
        r == v,
{
    v
}

/// Generic rewrite of an operator: identity.
pub fn fold_operator<T: Folder>(o: Operator, _fld: &mut T) -> (r: Operator)
    ensures
        r == o,
{
    o
}

/// Generic rewrite of a term: the value is forwarded to the folder's own
/// `fold_value` hook; provenance is preserved.
pub fn fold_term<T: Folder>(t: Term, fld: &mut T) -> (r: Term)
    ensures
        r.source_info == t.source_info,
        old(fld).fold_pure() ==> (*final(fld) == *old(fld) && r.view() == spec_fold_term(
            old(fld).leaf_fns(),
            t.view(),
        )),
{
    let Term { value, source_info } = t;
    let new_value = fld.fold_value(value);
    Term { value: new_value, source_info }
}

/// Generic element-wise rewrite of a term list: each element is forwarded
/// to the folder's own `fold_term` hook, order preserved.
pub fn fold_term_list<T: Folder>(t: Vec<Term>, fld: &mut T) -> (r: Vec<Term>)
    ensures
        r@.len() == t@.len(),
        old(fld).fold_pure() ==> (*final(fld) == *old(fld) && view_terms(r@) == spec_fold_terms(
            old(fld).leaf_fns(),
            view_terms(t@),
        )),
{
    let ghost t0 = t@;
    let ghost f0 = *fld;
    let mut rest = t;
    let mut out: Vec<Term> = Vec::new();
    proof {
        assert(rest@ =~= t0.skip(0));
    }
    while rest.len() > 0
        invariant
            out@.len() + rest@.len() == t0.len(),
            rest@ =~= t0.skip(out@.len() as int),
            f0.fold_pure() ==> (*fld == f0 && (forall|j: int|
                0 <= j < out@.len() ==> #[trigger] out@[j].view() == spec_fold_term(
                    f0.leaf_fns(),
                    t0[j].view(),
                ))),
        decreases rest@.len(),
    {
        let ghost k = out@.len() as int;
        let x = rest.remove(0);
        proof {
            assert(x == t0[k]);
        }
        let y = fld.fold_term(x);
        out.push(y);
        proof {
            assert(rest@ =~= t0.skip(out@.len() as int));
        }
    }
    proof {
        if f0.fold_pure() {
            lemma_view_terms(t0);
            lemma_view_terms(out@);
            let lf = f0.leaf_fns();
            lemma_spec_fold_terms(lf, view_terms(t0));
            assert forall|i: int|
                0 <= i < t0.len() implies view_terms(out@)[i] == spec_fold_terms(
                lf,
                view_terms(t0),
            )[i] by {
                assert(out@[i].view() == spec_fold_term(lf, t0[i].view()));
                assert(view_terms(t0)[i] == t0[i].view());
                assert(view_terms(out@)[i] == out@[i].view());
            }
            assert(view_terms(out@) =~= spec_fold_terms(lf, view_terms(t0)));
        }
    }
    out
}

/// Two value views carry the same variant tag.
pub open spec fn same_variant(a: ValueV, b: ValueV) -> bool {
    match a {
        ValueV::Number(_) => b is Number,
        ValueV::String(_) => b is String,
        ValueV::Boolean(_) => b is Boolean,
        ValueV::Variable(_) => b is Variable,
        ValueV::Dictionary(_) => b is Dictionary,
        ValueV::InstanceLiteral(_) => b is InstanceLiteral,
        ValueV::Call(_) => b is Call,
        ValueV::List(_) => b is List,
        ValueV::Expression(_) => b is Expression,
    }
}

/// Generic rewrite of a value: dispatch on the active variant, forward the
/// payload to the folder's hook for that kind, and re-wrap in the same
/// variant — whatever the hooks do, the variant tag is preserved.
pub fn fold_value<T: Folder>(v: Value, fld: &mut T) -> (r: Value)
    ensures
        same_variant(v.view(), r.view()),
        old(fld).fold_pure() ==> (*final(fld) == *old(fld) && r.view() == spec_fold_value(
            old(fld).leaf_fns(),
            v.view(),
        )),
{
    match v {
        Value::Number(n) => Value::Number(fld.fold_number(n)),
        Value::String(s) => Value::String(fld.fold_string(s)),
        Value::Boolean(b) => Value::Boolean(fld.fold_boolean(b)),
        Value::Dictionary(d) => Value::Dictionary(fld.fold_dictionary(d)),
        Value::InstanceLiteral(i) => Value::InstanceLiteral(fld.fold_instance_literal(i)),
        Value::Call(c) => Value::Call(fld.fold_call(c)),
        Value::List(l) => Value::List(fld.fold_list(l)),
        Value::Variable(x) => Value::Variable(fld.fold_variable(x)),
        Value::Expression(o) => Value::Expression(fld.fold_operation(o)),
    }
}

/// Generic rewrite of the entries of a symbol-keyed map: every key and
/// value is forwarded to the folder's own hooks and the results are
/// re-inserted, so the output is sorted by the folded keys.
fn fold_map_entries<T: Folder>(m: SymbolMap<Term>, fld: &mut T) -> (r: SymbolMap<Term>)
    ensures
        r.wf(),
        old(fld).fold_pure() ==> (*final(fld) == *old(fld) && view_entries(r.entries@)
            == sort_entries_v(
            spec_fold_entries(old(fld).leaf_fns(), view_entries(m.entries@)),
        )),
{
    let ghost m0 = m.entries@;
    let ghost f0 = *fld;
    let mut rest = m.entries;
    let mut out: SymbolMap<Term> = SymbolMap::new();
    proof {
        assert(rest@ =~= m0.skip(0));
        if f0.fold_pure() {
            lemma_view_entries(m0);
            assert(view_entries(m0).take(0) =~= Seq::<(Seq<char>, TermV)>::empty());
            assert(view_entries(out.entries@) =~= Seq::<(Seq<char>, TermV)>::empty());
            assert(spec_fold_entries(f0.leaf_fns(), view_entries(m0).take(0)) =~= Seq::<
                (Seq<char>, TermV),
            >::empty());
        }
    }
    while rest.len() > 0
        invariant
            out.wf(),
            rest@.len() <= m0.len(),
            rest@ =~= m0.skip(m0.len() - rest@.len()),
            f0.fold_pure() ==> (*fld == f0 && view_entries(out.entries@) == sort_entries_v(
                spec_fold_entries(f0.leaf_fns(), view_entries(m0).take(m0.len() - rest@.len())),
            )),
        decreases rest@.len(),
    {
        let ghost k = m0.len() - rest@.len();
        let ghost rest0 = rest@;
        let x = rest.remove(0);
        proof {
            assert(rest0[0] == m0.skip(k)[0]);
            assert(x == m0[k]);
        }
        let (key, value) = x;
        let new_key = fld.fold_symbol(key);
        let new_value = fld.fold_term(value);
        let ghost out0 = out.entries@;
        out.insert(new_key, new_value);
        proof {
            assert(rest@ =~= rest0.drop_first());
            assert(rest0.drop_first() =~= m0.skip(k + 1));
            assert(rest@ =~= m0.skip(m0.len() - rest@.len()));
            if f0.fold_pure() {
                lemma_view_entries(m0);
                let lf = f0.leaf_fns();
                let prev = view_entries(m0).take(k);
                let cur = view_entries(m0).take(k + 1);
                assert(cur.drop_last() =~= prev);
                assert(cur.last() == (m0[k].0.view(), m0[k].1.view()));
                assert(cur =~= prev.push((m0[k].0.view(), m0[k].1.view())));
                lemma_fold_entries_push(lf, prev, (m0[k].0.view(), m0[k].1.view()));
                assert(spec_fold_entries(lf, cur) =~= spec_fold_entries(lf, prev).push(
                    ((lf.symbol)(m0[k].0.view()), spec_fold_term(lf, m0[k].1.view())),
                ));
                assert(sort_entries_v(spec_fold_entries(lf, cur)) == insert_entry_v(
                    sort_entries_v(spec_fold_entries(lf, cur).drop_last()),
                    spec_fold_entries(lf, cur).last().0,
                    spec_fold_entries(lf, cur).last().1,
                )) by {
                    assert(spec_fold_entries(lf, cur).len() > 0);
                }
                assert(spec_fold_entries(lf, cur).drop_last() =~= spec_fold_entries(lf, prev));
                lemma_view_entries_insert(out0, new_key, new_value);
                assert(new_key.view() == (lf.symbol)(m0[k].0.view()));
                assert(new_value.view() == spec_fold_term(lf, m0[k].1.view()));
            }
        }
    }
    proof {
        if f0.fold_pure() {
            assert(view_entries(m0).take(m0.len() as int) =~= view_entries(m0));
        }
    }
    out
}

/// Folding a sequence and then appending the fold of one more entry is the
/// fold of the extended sequence.
proof fn lemma_fold_entries_push(lf: LeafFns, s: Seq<(Seq<char>, TermV)>, e: (Seq<char>, TermV))
    ensures
        spec_fold_entries(lf, s.push(e)) == spec_fold_entries(lf, s).push(
            ((lf.symbol)(e.0), spec_fold_term(lf, e.1)),
        ),
    decreases s,
{
    let sp = s.push(e);
    if s.len() == 0 {
        assert(sp[0] == e);
        assert(sp.drop_first() =~= Seq::<(Seq<char>, TermV)>::empty());
        assert(spec_fold_entries(lf, Seq::<(Seq<char>, TermV)>::empty()) == Seq::<
            (Seq<char>, TermV),
        >::empty());
        assert(spec_fold_entries(lf, sp) == seq![((lf.symbol)(sp[0].0), spec_fold_term(
            lf,
            sp[0].1,
        ))] + spec_fold_entries(lf, sp.drop_first()));
        assert(spec_fold_entries(lf, sp) =~= spec_fold_entries(lf, s).push(
            ((lf.symbol)(e.0), spec_fold_term(lf, e.1)),
        ));
    } else {
        assert(sp[0] == s[0]);
        assert(sp.drop_first() =~= s.drop_first().push(e));
        lemma_fold_entries_push(lf, s.drop_first(), e);
        let fe = ((lf.symbol)(e.0), spec_fold_term(lf, e.1));
        assert(spec_fold_entries(lf, sp) == seq![((lf.symbol)(sp[0].0), spec_fold_term(
            lf,
            sp[0].1,
        ))] + spec_fold_entries(lf, sp.drop_first()));
        assert(spec_fold_entries(lf, sp.drop_first()) == spec_fold_entries(lf, s.drop_first()).push(
            fe,
        ));
        assert(spec_fold_entries(lf, s) == seq![((lf.symbol)(s[0].0), spec_fold_term(
            lf,
            s[0].1,
        ))] + spec_fold_entries(lf, s.drop_first()));
        assert(spec_fold_entries(lf, sp) =~= spec_fold_entries(lf, s).push(fe));
    }
}

/// Exec-level sorted insertion agrees with view-level sorted insertion.
proof fn lemma_view_entries_insert(s: Seq<(Symbol, Term)>, key: Symbol, value: Term)
    ensures
        view_entries(spec_insert(s, key, value)) == insert_entry_v(
            view_entries(s),
            key.view(),
            value.view(),
        ),
    decreases s,
{
    let r = spec_insert(s, key, value);
    lemma_view_entries(s);
    lemma_view_entries(r);
    if s.len() == 0 {
        assert(view_entries(r) =~= insert_entry_v(view_entries(s), key.view(), value.view()));
    } else if lex_lt(key.view(), s[0].0.view()) {
        assert(view_entries(s)[0] == (s[0].0.view(), s[0].1.view()));
        assert(view_entries(r) =~= insert_entry_v(view_entries(s), key.view(), value.view())) by {
            assert(forall|i: int| 0 < i < r.len() ==> #[trigger] r[i] == s[i - 1]);
        }
    } else if key.view() == s[0].0.view() {
        assert(view_entries(s)[0] == (s[0].0.view(), s[0].1.view()));
        assert(forall|i: int| 0 < i < r.len() ==> #[trigger] r[i] == s[i]);
        assert(view_entries(r) =~= insert_entry_v(view_entries(s), key.view(), value.view()));
    } else {
        lemma_view_entries_insert(s.drop_first(), key, value);
        lemma_view_entries(s.drop_first());
        lemma_view_entries(spec_insert(s.drop_first(), key, value));
        assert(view_entries(s).drop_first() =~= view_entries(s.drop_first()));
        assert(r[0] == s[0]);
        assert(r.drop_first() =~= spec_insert(s.drop_first(), key, value));
        assert(view_entries(r).drop_first() =~= view_entries(r.drop_first()));
        assert(view_entries(r) =~= insert_entry_v(view_entries(s), key.view(), value.view()));
    }
}

/// Generic rewrite of a dictionary: every key and value is forwarded to
/// the folder's own hooks; the result is re-sorted by the folded keys.
pub fn fold_dictionary<T: Folder>(d: Dictionary, fld: &mut T) -> (r: Dictionary)
    ensures
        r.fields.wf(),
        old(fld).fold_pure() ==> (*final(fld) == *old(fld) && r.view() == spec_fold_dict(
            old(fld).leaf_fns(),
            d.view(),
        )),
{
    let Dictionary { fields } = d;
    let new_fields = fold_map_entries(fields, fld);
    Dictionary { fields: new_fields }
}

/// Generic rewrite of an instance literal: tag and fields are folded.
pub fn fold_instance_literal<T: Folder>(i: InstanceLiteral, fld: &mut T) -> (r: InstanceLiteral)
    ensures
        old(fld).fold_pure() ==> (*final(fld) == *old(fld) && r.view() == (InstanceLiteralV {
            tag: (old(fld).leaf_fns().symbol)(i.view().tag),
            fields: spec_fold_dict(old(fld).leaf_fns(), i.view().fields),
        })),
{
    let InstanceLiteral { tag, fields } = i;
    let new_tag = fld.fold_symbol(tag);
    let new_fields = fld.fold_dictionary(fields);
    InstanceLiteral { tag: new_tag, fields: new_fields }
}

/// Generic rewrite of a call: name, positional arguments and keyword
/// arguments (if present) are folded, order preserved element-wise.
pub fn fold_call<T: Folder>(c: Call, fld: &mut T) -> (r: Call)
    ensures
        old(fld).fold_pure() ==> (*final(fld) == *old(fld) && r.view().name == (old(
            fld,
        ).leaf_fns().symbol)(c.view().name) && r.view().args == spec_fold_terms(
            old(fld).leaf_fns(),
            c.view().args,
        ) && r.view().kwargs == (match c.view().kwargs {
            Some(k) => Some(spec_fold_dict(old(fld).leaf_fns(), k)),
            None => None,
        })),
{
    let Call { name, args, kwargs } = c;
    let new_name = fld.fold_symbol(name);
    let new_args = fold_term_list(args, fld);
    let new_kwargs = match kwargs {
        Some(k) => Some(fold_map_entries(k, fld)),
        None => None,
    };
    Call { name: new_name, args: new_args, kwargs: new_kwargs }
}

/// Generic rewrite of a list: elements and the optional rest-variable are
/// folded, order preserved.
pub fn fold_list<T: Folder>(l: List, fld: &mut T) -> (r: List)
    ensures
        old(fld).fold_pure() ==> (*final(fld) == *old(fld) && r.view() == (ListV {
            elements: spec_fold_terms(old(fld).leaf_fns(), l.view().elements),
            rest_var: match l.view().rest_var {
                Some(n) => Some((old(fld).leaf_fns().variable)(n)),
                None => None,
            },
        })),
{
    let List { elements, rest_var } = l;
    let new_elements = fold_term_list(elements, fld);
    let new_rest = match rest_var {
        Some(v) => Some(fld.fold_variable(v)),
        None => None,
    };
    List { elements: new_elements, rest_var: new_rest }
}

/// Generic rewrite of an operation: operator tag and arguments are folded,
/// order preserved.
pub fn fold_operation<T: Folder>(o: Operation, fld: &mut T) -> (r: Operation)
    ensures
        old(fld).fold_pure() ==> (*final(fld) == *old(fld) && r.view() == (OperationV {
            operator: (old(fld).leaf_fns().operator)(o.operator),
            args: spec_fold_terms(old(fld).leaf_fns(), o.view().args),
        })),
{
    let Operation { operator, args } = o;
    let new_operator = fld.fold_operator(operator);
    let new_args = fold_term_list(args, fld);
    Operation { operator: new_operator, args: new_args }
}

/// Generic rewrite of a parameter: the parameter term and the optional
/// specializer are folded.
pub fn fold_param<T: Folder>(p: Parameter, fld: &mut T) -> (r: Parameter)
    ensures
        old(fld).fold_pure() ==> (*final(fld) == *old(fld) && r.view() == spec_fold_param(
            old(fld).leaf_fns(),
            p.view(),
        )),
{
    let Parameter { parameter, specializer } = p;
    let new_parameter = fld.fold_term(parameter);
    let new_specializer = match specializer {
        Some(t) => Some(fld.fold_term(t)),
        None => None,
    };
    Parameter { parameter: new_parameter, specializer: new_specializer }
}

/// Generic rewrite of a rule: name, parameters (order preserved) and body
/// are folded; provenance and the `required` flag pass through unchanged.
pub fn fold_rule<T: Folder>(r: Rule, fld: &mut T) -> (res: Rule)
    ensures
        res.source_info == r.source_info,
        res.required == r.required,
        old(fld).fold_pure() ==> (*final(fld) == *old(fld) && res.view() == spec_fold_rule(
            old(fld).leaf_fns(),
            r.view(),
        )),
{
    let Rule { name, params, body, source_info, required } = r;
    let ghost r0 = r;
    let ghost f0 = *fld;
    let new_name = fld.fold_symbol(name);
    let mut rest = params;
    let ghost p0 = rest@;
    let mut new_params: Vec<Parameter> = Vec::new();
    proof {
        assert(rest@ =~= p0.skip(0));
    }
    while rest.len() > 0
        invariant
            new_params@.len() + rest@.len() == p0.len(),
            rest@ =~= p0.skip(new_params@.len() as int),
            f0.fold_pure() ==> (*fld == f0 && (forall|j: int|
                0 <= j < new_params@.len() ==> #[trigger] new_params@[j].view() == spec_fold_param(
                    f0.leaf_fns(),
                    p0[j].view(),
                ))),
        decreases rest@.len(),
    {
        let ghost k = new_params@.len() as int;
        let x = rest.remove(0);
        proof {
            assert(x == p0[k]);
        }
        let y = fld.fold_param(x);
        new_params.push(y);
        proof {
            assert(rest@ =~= p0.skip(new_params@.len() as int));
        }
    }
    let new_body = fld.fold_term(body);
    let res = Rule { name: new_name, params: new_params, body: new_body, source_info, required };
    proof {
        if f0.fold_pure() {
            lemma_view_params(p0);
            lemma_view_params(res.params@);
            let lf = f0.leaf_fns();
            lemma_spec_fold_params(lf, view_params(p0));
            assert forall|i: int|
                0 <= i < p0.len() implies view_params(res.params@)[i] == spec_fold_params(
                lf,
                view_params(p0),
            )[i] by {
                assert(res.params@[i].view() == spec_fold_param(lf, p0[i].view()));
                assert(view_params(p0)[i] == p0[i].view());
                assert(view_params(res.params@)[i] == res.params@[i].view());
            }
            assert(view_params(res.params@) =~= spec_fold_params(lf, view_params(p0)));
            assert(res.view() =~= spec_fold_rule(lf, r0.view()));
        }
    }
    res
}

/// Closed-recursion rewrite of a term for a leaf-hook folder. The folders
/// this crate provides delegate their composite hooks here; Verus does not
/// let a trait implementation instantiate the open `fold_*` functions with
/// its own type, so the traversal is repeated once against the leaf hooks.
fn walk_term<T: LeafFolder>(t: Term, fld: &mut T) -> (r: Term)
    ensures
        r.source_info == t.source_info,
        old(fld).fold_pure() ==> (*final(fld) == *old(fld) && r.view() == spec_fold_term(
            old(fld).leaf_fns(),
            t.view(),
        )),
    decreases t,
{
    let Term { value, source_info } = t;
    let new_value = walk_value(value, fld);
    Term { value: new_value, source_info }
}

/// Closed-recursion rewrite of a value for a leaf-hook folder.
fn walk_value<T: LeafFolder>(v: Value, fld: &mut T) -> (r: Value)
    ensures
        old(fld).fold_pure() ==> (*final(fld) == *old(fld) && r.view() == spec_fold_value(
            old(fld).leaf_fns(),
            v.view(),
        )),
    decreases v,
{
    match v {
        Value::Number(n) => Value::Number(fld.fold_number(n)),
        Value::String(s) => Value::String(fld.fold_string(s)),
        Value::Boolean(b) => Value::Boolean(fld.fold_boolean(b)),
        Value::Dictionary(d) => Value::Dictionary(walk_dictionary(d, fld)),
        Value::InstanceLiteral(i) => Value::InstanceLiteral(walk_instance_literal(i, fld)),
        Value::Call(c) => Value::Call(walk_call(c, fld)),
        Value::List(l) => Value::List(walk_list(l, fld)),
        Value::Variable(x) => Value::Variable(fld.fold_variable(x)),
        Value::Expression(o) => Value::Expression(walk_operation(o, fld)),
    }
}

/// Closed-recursion element-wise rewrite of a term list.
#[verifier::loop_isolation(false)]
fn walk_terms<T: LeafFolder>(ts: Vec<Term>, fld: &mut T) -> (r: Vec<Term>)
    ensures
        r@.len() == ts@.len(),
        old(fld).fold_pure() ==> (*final(fld) == *old(fld) && view_terms(r@) == spec_fold_terms(
            old(fld).leaf_fns(),
            view_terms(ts@),
        )),
    decreases ts,
{
    let ghost ts_vec = ts;
    let ghost t0 = ts@;
    let ghost f0 = *fld;
    let mut rest = ts;
    let mut out: Vec<Term> = Vec::new();
    proof {
        assert(rest@ =~= t0.skip(0));
    }
    while rest.len() > 0
        invariant
            out@.len() + rest@.len() == t0.len(),
            rest@ =~= t0.skip(out@.len() as int),
            t0 == ts_vec@,
            f0.fold_pure() ==> (*fld == f0 && (forall|j: int|
                0 <= j < out@.len() ==> #[trigger] out@[j].view() == spec_fold_term(
                    f0.leaf_fns(),
                    t0[j].view(),
                ))),
        decreases rest@.len(),
    {
        let ghost k = out@.len() as int;
        let x = rest.remove(0);
        proof {
            assert(x == t0[k]);
            assert(decreases_to!(ts_vec => ts_vec@));
            assert(decreases_to!(ts_vec@ => ts_vec@[k]));
        }
        let y = walk_term(x, fld);
        out.push(y);
        proof {
            assert(rest@ =~= t0.skip(out@.len() as int));
        }
    }
    proof {
        if f0.fold_pure() {
            lemma_view_terms(t0);
            lemma_view_terms(out@);
            let lf = f0.leaf_fns();
            lemma_spec_fold_terms(lf, view_terms(t0));
            assert forall|i: int|
                0 <= i < t0.len() implies view_terms(out@)[i] == spec_fold_terms(
                lf,
                view_terms(t0),
            )[i] by {
                assert(out@[i].view() == spec_fold_term(lf, t0[i].view()));
                assert(view_terms(t0)[i] == t0[i].view());
                assert(view_terms(out@)[i] == out@[i].view());
            }
            assert(view_terms(out@) =~= spec_fold_terms(lf, view_terms(t0)));
        }
    }
    out
}

/// Closed-recursion rewrite of the entries of a symbol-keyed map.
#[verifier::loop_isolation(false)]
fn walk_map_entries<T: LeafFolder>(m: SymbolMap<Term>, fld: &mut T) -> (r: SymbolMap<Term>)
    ensures
        r.wf(),
        old(fld).fold_pure() ==> (*final(fld) == *old(fld) && view_entries(r.entries@)
            == sort_entries_v(
            spec_fold_entries(old(fld).leaf_fns(), view_entries(m.entries@)),
        )),
    decreases m,
{
    let ghost m_in = m;
    let ghost e_vec = m.entries;
    let ghost m0 = m.entries@;
    let ghost f0 = *fld;
    let mut rest = m.entries;
    let mut out: SymbolMap<Term> = SymbolMap::new();
    proof {
        assert(rest@ =~= m0.skip(0));
        if f0.fold_pure() {
            lemma_view_entries(m0);
            assert(view_entries(m0).take(0) =~= Seq::<(Seq<char>, TermV)>::empty());
            assert(view_entries(out.entries@) =~= Seq::<(Seq<char>, TermV)>::empty());
            assert(spec_fold_entries(f0.leaf_fns(), view_entries(m0).take(0)) =~= Seq::<
                (Seq<char>, TermV),
            >::empty());
        }
    }
    while rest.len() > 0
        invariant
            out.wf(),
            rest@.len() <= m0.len(),
            rest@ =~= m0.skip(m0.len() - rest@.len()),
            m0 == m_in.entries@,
            f0.fold_pure() ==> (*fld == f0 && view_entries(out.entries@) == sort_entries_v(
                spec_fold_entries(f0.leaf_fns(), view_entries(m0).take(m0.len() - rest@.len())),
            )),
        decreases rest@.len(),
    {
        let ghost k = m0.len() - rest@.len();
        let ghost rest0 = rest@;
        let x = rest.remove(0);
        proof {
            assert(rest0[0] == m0.skip(k)[0]);
            assert(x == m0[k]);
            assert(decreases_to!(m_in => e_vec));
            assert(decreases_to!(e_vec => e_vec@));
            assert(decreases_to!(e_vec@ => e_vec@[k]));
        }
        let (key, value) = x;
        let new_key = fld.fold_symbol(key);
        let new_value = walk_term(value, fld);
        let ghost out0 = out.entries@;
        out.insert(new_key, new_value);
        proof {
            assert(rest@ =~= rest0.drop_first());
            assert(rest0.drop_first() =~= m0.skip(k + 1));
            assert(rest@ =~= m0.skip(m0.len() - rest@.len()));
            if f0.fold_pure() {
                lemma_view_entries(m0);
                let lf = f0.leaf_fns();
                let prev = view_entries(m0).take(k);
                let cur = view_entries(m0).take(k + 1);
                assert(cur.drop_last() =~= prev);
                assert(cur.last() == (m0[k].0.view(), m0[k].1.view()));
                assert(cur =~= prev.push((m0[k].0.view(), m0[k].1.view())));
                lemma_fold_entries_push(lf, prev, (m0[k].0.view(), m0[k].1.view()));
                assert(spec_fold_entries(lf, cur) =~= spec_fold_entries(lf, prev).push(
                    ((lf.symbol)(m0[k].0.view()), spec_fold_term(lf, m0[k].1.view())),
                ));
                assert(sort_entries_v(spec_fold_entries(lf, cur)) == insert_entry_v(
                    sort_entries_v(spec_fold_entries(lf, cur).drop_last()),
                    spec_fold_entries(lf, cur).last().0,
                    spec_fold_entries(lf, cur).last().1,
                )) by {
                    assert(spec_fold_entries(lf, cur).len() > 0);
                }
                assert(spec_fold_entries(lf, cur).drop_last() =~= spec_fold_entries(lf, prev));
                lemma_view_entries_insert(out0, new_key, new_value);
                assert(new_key.view() == (lf.symbol)(m0[k].0.view()));
                assert(new_value.view() == spec_fold_term(lf, m0[k].1.view()));
            }
        }
    }
    proof {
        if f0.fold_pure() {
            assert(view_entries(m0).take(m0.len() as int) =~= view_entries(m0));
        }
    }
    out
}

/// Closed-recursion rewrite of a dictionary.
fn walk_dictionary<T: LeafFolder>(d: Dictionary, fld: &mut T) -> (r: Dictionary)
    ensures
        r.fields.wf(),
        old(fld).fold_pure() ==> (*final(fld) == *old(fld) && r.view() == spec_fold_dict(
            old(fld).leaf_fns(),
            d.view(),
        )),
    decreases d,
{
    let Dictionary { fields } = d;
    let new_fields = walk_map_entries(fields, fld);
    Dictionary { fields: new_fields }
}

/// Closed-recursion rewrite of an instance literal.
fn walk_instance_literal<T: LeafFolder>(i: InstanceLiteral, fld: &mut T) -> (r: InstanceLiteral)
    ensures
        old(fld).fold_pure() ==> (*final(fld) == *old(fld) && r.view() == (InstanceLiteralV {
            tag: (old(fld).leaf_fns().symbol)(i.view().tag),
            fields: spec_fold_dict(old(fld).leaf_fns(), i.view().fields),
        })),
    decreases i,
{
    let InstanceLiteral { tag, fields } = i;
    let new_tag = fld.fold_symbol(tag);
    let new_fields = walk_dictionary(fields, fld);
    InstanceLiteral { tag: new_tag, fields: new_fields }
}

/// Closed-recursion rewrite of a call.
fn walk_call<T: LeafFolder>(c: Call, fld: &mut T) -> (r: Call)
    ensures
        old(fld).fold_pure() ==> (*final(fld) == *old(fld) && r.view().name == (old(
            fld,
        ).leaf_fns().symbol)(c.view().name) && r.view().args == spec_fold_terms(
            old(fld).leaf_fns(),
            c.view().args,
        ) && r.view().kwargs == (match c.view().kwargs {
            Some(k) => Some(spec_fold_dict(old(fld).leaf_fns(), k)),
            None => None,
        })),
    decreases c,
{
    let Call { name, args, kwargs } = c;
    let new_name = fld.fold_symbol(name);
    let new_args = walk_terms(args, fld);
    let new_kwargs = match kwargs {
        Some(k) => Some(walk_map_entries(k, fld)),
        None => None,
    };
    Call { name: new_name, args: new_args, kwargs: new_kwargs }
}

/// Closed-recursion rewrite of a list.
fn walk_list<T: LeafFolder>(l: List, fld: &mut T) -> (r: List)
    ensures
        old(fld).fold_pure() ==> (*final(fld) == *old(fld) && r.view() == (ListV {
            elements: spec_fold_terms(old(fld).leaf_fns(), l.view().elements),
            rest_var: match l.view().rest_var {
                Some(n) => Some((old(fld).leaf_fns().variable)(n)),
                None => None,
            },
        })),
    decreases l,
{
    let List { elements, rest_var } = l;
    let new_elements = walk_terms(elements, fld);
    let new_rest = match rest_var {
        Some(v) => Some(fld.fold_variable(v)),
        None => None,
    };
    List { elements: new_elements, rest_var: new_rest }
}

/// Closed-recursion rewrite of an operation.
fn walk_operation<T: LeafFolder>(o: Operation, fld: &mut T) -> (r: Operation)
    ensures
        old(fld).fold_pure() ==> (*final(fld) == *old(fld) && r.view() == (OperationV {
            operator: (old(fld).leaf_fns().operator)(o.operator),
            args: spec_fold_terms(old(fld).leaf_fns(), o.view().args),
        })),
    decreases o,
{
    let Operation { operator, args } = o;
    let new_operator = fld.fold_operator(operator);
    let new_args = walk_terms(args, fld);
    Operation { operator: new_operator, args: new_args }
}

/// Closed-recursion rewrite of a parameter.
fn walk_param<T: LeafFolder>(p: Parameter, fld: &mut T) -> (r: Parameter)
    ensures
        old(fld).fold_pure() ==> (*final(fld) == *old(fld) && r.view() == spec_fold_param(
            old(fld).leaf_fns(),
            p.view(),
        )),
    decreases p,
{
    let Parameter { parameter, specializer } = p;
    let new_parameter = walk_term(parameter, fld);
    let new_specializer = match specializer {
        Some(t) => Some(walk_term(t, fld)),
        None => None,
    };
    Parameter { parameter: new_parameter, specializer: new_specializer }
}

/// Closed-recursion rewrite of a rule.
#[verifier::loop_isolation(false)]
fn walk_rule<T: LeafFolder>(r: Rule, fld: &mut T) -> (res: Rule)
    ensures
        res.source_info == r.source_info,
        res.required == r.required,
        old(fld).fold_pure() ==> (*final(fld) == *old(fld) && res.view() == spec_fold_rule(
            old(fld).leaf_fns(),
            r.view(),
        )),
    decreases r,
{
    let ghost r_in = r;
    let ghost r0 = r;
    let ghost f0 = *fld;
    let Rule { name, params, body, source_info, required } = r;
    let ghost p_vec = params;
    let new_name = fld.fold_symbol(name);
    let mut rest = params;
    let ghost p0 = rest@;
    let mut new_params: Vec<Parameter> = Vec::new();
    proof {
        assert(rest@ =~= p0.skip(0));
    }
    while rest.len() > 0
        invariant
            new_params@.len() + rest@.len() == p0.len(),
            rest@ =~= p0.skip(new_params@.len() as int),
            p0 == p_vec@,
            f0.fold_pure() ==> (*fld == f0 && (forall|j: int|
                0 <= j < new_params@.len() ==> #[trigger] new_params@[j].view() == spec_fold_param(
                    f0.leaf_fns(),
                    p0[j].view(),
                ))),
        decreases rest@.len(),
    {
        let ghost k = new_params@.len() as int;
        let x = rest.remove(0);
        proof {
            assert(x == p0[k]);
            assert(decreases_to!(p_vec => p_vec@));
            assert(decreases_to!(p_vec@ => p_vec@[k]));
        }
        let y = walk_param(x, fld);
        new_params.push(y);
        proof {
            assert(rest@ =~= p0.skip(new_params@.len() as int));
        }
    }
    let new_body = walk_term(body, fld);
    let res = Rule { name: new_name, params: new_params, body: new_body, source_info, required };
    proof {
        if f0.fold_pure() {
            lemma_view_params(p0);
            lemma_view_params(res.params@);
            let lf = f0.leaf_fns();
            lemma_spec_fold_params(lf, view_params(p0));
            assert forall|i: int|
                0 <= i < p0.len() implies view_params(res.params@)[i] == spec_fold_params(
                lf,
                view_params(p0),
            )[i] by {
                assert(res.params@[i].view() == spec_fold_param(lf, p0[i].view()));
                assert(view_params(p0)[i] == p0[i].view());
                assert(view_params(res.params@)[i] == res.params@[i].view());
            }
            assert(view_params(res.params@) =~= spec_fold_params(lf, view_params(p0)));
            assert(res.view() =~= spec_fold_rule(lf, r0.view()));
        }
    }
    res
}

/// The identity folder: it overrides no behaviour, so every fold returns
/// its input unchanged (up to re-sorting already-sorted dictionaries).
pub struct TrivialFolder {}

impl LeafFolder for TrivialFolder {
    open spec fn fold_pure(&self) -> bool {
        true
    }

    open spec fn leaf_fns(&self) -> LeafFns {
        identity_leaf_fns()
    }

    fn fold_number(&mut self, n: Numeric) -> (r: Numeric) {
        n
    }

    fn fold_string(&mut self, s: String) -> (r: String) {
        s
    }

    fn fold_boolean(&mut self, b: bool) -> (r: bool) {
        b
    }

    fn fold_symbol(&mut self, n: Symbol) -> (r: Symbol) {
        n
    }

    fn fold_variable(&mut self, v: Variable) -> (r: Variable) {
        v
    }

    fn fold_operator(&mut self, o: Operator) -> (r: Operator) {
        o
    }
}

impl Folder for TrivialFolder {
    fn fold_rule(&mut self, r: Rule) -> (res: Rule) {
        walk_rule(r, self)
    }

    fn fold_term(&mut self, t: Term) -> (r: Term) {
        walk_term(t, self)
    }

    fn fold_value(&mut self, v: Value) -> (r: Value) {
        walk_value(v, self)
    }

    fn fold_instance_literal(&mut self, i: InstanceLiteral) -> (r: InstanceLiteral) {
        walk_instance_literal(i, self)
    }

    fn fold_dictionary(&mut self, d: Dictionary) -> (r: Dictionary) {
        walk_dictionary(d, self)
    }

    fn fold_call(&mut self, c: Call) -> (r: Call) {
        walk_call(c, self)
    }

    fn fold_list(&mut self, l: List) -> (r: List) {
        walk_list(l, self)
    }

    fn fold_operation(&mut self, o: Operation) -> (r: Operation) {
        walk_operation(o, self)
    }

    fn fold_param(&mut self, p: Parameter) -> (r: Parameter) {
        walk_param(p, self)
    }
}

/// A folder that overrides only the variable hook: every variable named
/// `from`, at any nesting depth, is renamed to `to`.
pub struct VariableRenamer {
    pub from: Symbol,
    pub to: Symbol,
}

impl LeafFolder for VariableRenamer {
    open spec fn fold_pure(&self) -> bool {
        true
    }

    open spec fn leaf_fns(&self) -> LeafFns {
        rename_leaf_fns(self.from.view(), self.to.view())
    }

    fn fold_number(&mut self, n: Numeric) -> (r: Numeric) {
        n
    }

    fn fold_string(&mut self, s: String) -> (r: String) {
        s
    }

    fn fold_boolean(&mut self, b: bool) -> (r: bool) {
        b
    }

    fn fold_symbol(&mut self, n: Symbol) -> (r: Symbol) {
        n
    }

    fn fold_variable(&mut self, v: Variable) -> (r: Variable) {
        if v.0.0 == self.from.0 {
            Variable(self.to.clone())
        } else {
            v
        }
    }

    fn fold_operator(&mut self, o: Operator) -> (r: Operator) {
        o
    }
}

impl Folder for VariableRenamer {
    fn fold_rule(&mut self, r: Rule) -> (res: Rule) {
        walk_rule(r, self)
    }

    fn fold_term(&mut self, t: Term) -> (r: Term) {
        walk_term(t, self)
    }

    fn fold_value(&mut self, v: Value) -> (r: Value) {
        walk_value(v, self)
    }

    fn fold_instance_literal(&mut self, i: InstanceLiteral) -> (r: InstanceLiteral) {
        walk_instance_literal(i, self)
    }

    fn fold_dictionary(&mut self, d: Dictionary) -> (r: Dictionary) {
        walk_dictionary(d, self)
    }

    fn fold_call(&mut self, c: Call) -> (r: Call) {
        walk_call(c, self)
    }

    fn fold_list(&mut self, l: List) -> (r: List) {
        walk_list(l, self)
    }

    fn fold_operation(&mut self, o: Operation) -> (r: Operation) {
        walk_operation(o, self)
    }

    fn fold_param(&mut self, p: Parameter) -> (r: Parameter) {
        walk_param(p, self)
    }
}

} // verus!
