//! The term/AST value model: symbols, terms, values, and the composite node
//! shapes (dictionaries, instance literals, calls, lists, operations,
//! parameters, rules).
//!
//! Every node type has a mathematical view (`TermV`, `ValueV`, ...) over
//! which all contracts are stated. Views are lossless: they carry the
//! provenance (`SourceInfo`) and the exact ordered structure of each node.

use vstd::prelude::*;

use crate::maps::{lex_lt, SymbolMap};

verus! {

broadcast use {vstd::std_specs::vec::group_vec_axioms, vstd::seq::group_seq_axioms};

/// An owned string identifier, used as a map key and as the textual handle
/// for variables, rule names, class tags, and keyword keys.
#[derive(Debug, PartialEq, Eq)]
pub struct Symbol(pub String);

impl Symbol {
    /// The symbol's text as a sequence of characters.
    pub open spec fn view(&self) -> Seq<char> {
        self.0@
    }

    pub fn new(text: String) -> (r: Symbol)
        ensures
            r.view() == text@,
    {
        Symbol(text)
    }
}

impl Clone for Symbol {
    fn clone(&self) -> (r: Symbol)
        ensures
            r == *self,
    {
        Symbol(self.0.clone())
    }
}

/// A numeric literal. Only integer-valued literals are represented.
#[derive(Debug, Clone, Copy, PartialEq, Eq, Structural)]
pub enum Numeric {
    Integer(i64),
}

/// An opaque symbolic operator tag; it carries no payload of its own.
#[derive(Debug, Clone, Copy, PartialEq, Eq, Structural)]
pub enum Operator {
    Debug,
    Print,
    Cut,
    In,
    Isa,
    New,
    Dot,
    Not,
    Mul,
    Div,
    Mod,
    Rem,
    Add,
    Sub,
    Eq,
    Geq,
    Leq,
    Neq,
    Gt,
    Lt,
    Unify,
    Or,
    And,
    ForAll,
    Assign,
}

/// Provenance metadata: where a term originated.
#[derive(Debug, Clone, Copy, PartialEq, Eq, Structural)]
pub enum SourceInfo {
    /// Created by hand, e.g. in a test.
    Test,
    /// Created by the parser from a registered source.
    Parser { src_id: u64, left: u64, right: u64 },
}

/// A named logic variable.
#[derive(Debug, Clone, PartialEq, Eq)]
pub struct Variable(pub Symbol);

impl Variable {
    pub open spec fn view(&self) -> Seq<char> {
        self.0.view()
    }
}

/// An AST node: exactly one `Value` plus its provenance.
#[derive(Debug, PartialEq)]
pub struct Term {
    pub value: Value,
    pub source_info: SourceInfo,
}

/// The tagged-union payload of a term. Exactly one variant is active.
#[derive(Debug, PartialEq)]
pub enum Value {
    Number(Numeric),
    String(String),
    Boolean(bool),
    Variable(Variable),
    Dictionary(Dictionary),
    InstanceLiteral(InstanceLiteral),
    Call(Call),
    List(List),
    Expression(Operation),
}

/// An ordered-by-key mapping from `Symbol` to `Term`; no duplicate keys,
/// iteration order is key-sorted.
#[derive(Debug, PartialEq)]
pub struct Dictionary {
    pub fields: SymbolMap<Term>,
}

/// A class tag plus a dictionary of field patterns/values.
#[derive(Debug, PartialEq)]
pub struct InstanceLiteral {
    pub tag: Symbol,
    pub fields: Dictionary,
}

/// A named call with ordered positional arguments and optional
/// ordered-by-key keyword arguments.
#[derive(Debug, PartialEq)]
pub struct Call {
    pub name: Symbol,
    pub args: Vec<Term>,
    pub kwargs: Option<SymbolMap<Term>>,
}

/// An ordered sequence of elements plus an optional trailing rest-variable
/// that binds the remainder of a list during matching.
#[derive(Debug, PartialEq)]
pub struct List {
    pub elements: Vec<Term>,
    pub rest_var: Option<Variable>,
}

/// An operator applied to an ordered argument list: the generalized n-ary
/// expression node.
#[derive(Debug, PartialEq)]
pub struct Operation {
    pub operator: Operator,
    pub args: Vec<Term>,
}

/// A formal parameter slot plus an optional specializer constraint.
#[derive(Debug, PartialEq)]
pub struct Parameter {
    pub parameter: Term,
    pub specializer: Option<Term>,
}

/// One rule clause: name, parameters, body, provenance, and the `required`
/// flag (consumed by external validation, not evaluated here).
#[derive(Debug, PartialEq)]
pub struct Rule {
    pub name: Symbol,
    pub params: Vec<Parameter>,
    pub body: Term,
    pub source_info: SourceInfo,
    pub required: bool,
}

/// Mathematical view of a `Term`.
#[verifier::ext_equal]
pub struct TermV {
    pub value: ValueV,
    pub source_info: SourceInfo,
}

/// Mathematical view of a `Value`.
#[verifier::ext_equal]
pub enum ValueV {
    Number(Numeric),
    String(Seq<char>),
    Boolean(bool),
    Variable(Seq<char>),
    Dictionary(DictionaryV),
    InstanceLiteral(InstanceLiteralV),
    Call(CallV),
    List(ListV),
    Expression(OperationV),
}

/// Mathematical view of a `Dictionary`: the key-ordered entry sequence.
#[verifier::ext_equal]
pub struct DictionaryV {
    pub entries: Seq<(Seq<char>, TermV)>,
}

#[verifier::ext_equal]
pub struct InstanceLiteralV {
    pub tag: Seq<char>,
    pub fields: DictionaryV,
}

#[verifier::ext_equal]
pub struct CallV {
    pub name: Seq<char>,
    pub args: Seq<TermV>,
    pub kwargs: Option<DictionaryV>,
}

#[verifier::ext_equal]
pub struct ListV {
    pub elements: Seq<TermV>,
    pub rest_var: Option<Seq<char>>,
}

#[verifier::ext_equal]
pub struct OperationV {
    pub operator: Operator,
    pub args: Seq<TermV>,
}

#[verifier::ext_equal]
pub struct ParameterV {
    pub parameter: TermV,
    pub specializer: Option<TermV>,
}

#[verifier::ext_equal]
pub struct RuleV {
    pub name: Seq<char>,
    pub params: Seq<ParameterV>,
    pub body: TermV,
    pub source_info: SourceInfo,
    pub required: bool,
}

impl Term {
    pub open spec fn view(self) -> TermV
        decreases self,
    {
        TermV { value: self.value.view(), source_info: self.source_info }
    }

    /// A term's value.
    pub fn value(&self) -> (r: &Value)
        ensures
            *r == self.value,
    {
        &self.value
    }

    /// A fresh term carrying hand-written (test) provenance.
    pub fn new_from_test(value: Value) -> (r: Term)
        ensures
            r.view() == (TermV { value: value.view(), source_info: SourceInfo::Test }),
            r == (Term { value, source_info: SourceInfo::Test }),
    {
        Term { value, source_info: SourceInfo::Test }
    }

    /// A fresh term carrying parser provenance.
    pub fn new_from_parser(src_id: u64, left: u64, right: u64, value: Value) -> (r: Term)
        ensures
            r == (Term { value, source_info: SourceInfo::Parser { src_id, left, right } }),
    {
        Term { value, source_info: SourceInfo::Parser { src_id, left, right } }
    }

    /// A new term with the given value and this term's provenance: identity
    /// (provenance) and semantic content (value) are decoupled.
    pub fn clone_with_value(&self, value: Value) -> (r: Term)
        ensures
            r.view() == (TermV { value: value.view(), source_info: self.source_info }),
            r == (Term { value, source_info: self.source_info }),
    {
        Term { value, source_info: self.source_info }
    }
}

impl Value {
    pub open spec fn view(self) -> ValueV
        decreases self,
    {
        match self {
            Value::Number(n) => ValueV::Number(n),
            Value::String(s) => ValueV::String(s@),
            Value::Boolean(b) => ValueV::Boolean(b),
            Value::Variable(v) => ValueV::Variable(v.view()),
            Value::Dictionary(d) => ValueV::Dictionary(d.view()),
            Value::InstanceLiteral(i) => ValueV::InstanceLiteral(i.view()),
            Value::Call(c) => ValueV::Call(c.view()),
            Value::List(l) => ValueV::List(l.view()),
            Value::Expression(o) => ValueV::Expression(o.view()),
        }
    }
}

/// View of a sequence of terms, element-wise.
pub open spec fn view_terms(s: Seq<Term>) -> Seq<TermV>
    decreases s,
{
    if s.len() == 0 {
        Seq::empty()
    } else {
        seq![s[0].view()] + view_terms(s.drop_first())
    }
}

/// View of a symbol-keyed entry sequence, element-wise.
pub open spec fn view_entries(s: Seq<(Symbol, Term)>) -> Seq<(Seq<char>, TermV)>
    decreases s,
{
    if s.len() == 0 {
        Seq::empty()
    } else {
        seq![(s[0].0.view(), s[0].1.view())] + view_entries(s.drop_first())
    }
}

impl Dictionary {
    pub open spec fn view(self) -> DictionaryV
        decreases self,
    {
        DictionaryV { entries: view_entries(self.fields.entries@) }
    }

    pub fn new() -> (r: Dictionary)
        ensures
            r.view().entries == Seq::<(Seq<char>, TermV)>::empty(),
            r.fields.wf(),
    {
        Dictionary { fields: SymbolMap::new() }
    }
}

impl InstanceLiteral {
    pub open spec fn view(self) -> InstanceLiteralV
        decreases self,
    {
        InstanceLiteralV { tag: self.tag.view(), fields: self.fields.view() }
    }
}

impl Call {
    pub open spec fn view(self) -> CallV
        decreases self,
    {
        CallV {
            name: self.name.view(),
            args: view_terms(self.args@),
            kwargs: match self.kwargs {
                Some(k) => Some(DictionaryV { entries: view_entries(k.entries@) }),
                None => None,
            },
        }
    }
}

impl List {
    pub open spec fn view(self) -> ListV
        decreases self,
    {
        ListV {
            elements: view_terms(self.elements@),
            rest_var: match self.rest_var {
                Some(v) => Some(v.view()),
                None => None,
            },
        }
    }
}

impl Operation {
    pub open spec fn view(self) -> OperationV
        decreases self,
    {
        OperationV { operator: self.operator, args: view_terms(self.args@) }
    }
}

impl Parameter {
    pub open spec fn view(self) -> ParameterV
        decreases self,
    {
        ParameterV {
            parameter: self.parameter.view(),
            specializer: match self.specializer {
                Some(t) => Some(t.view()),
                None => None,
            },
        }
    }
}

impl Rule {
    pub open spec fn view(self) -> RuleV
        decreases self,
    {
        RuleV {
            name: self.name.view(),
            params: view_params(self.params@),
            body: self.body.view(),
            source_info: self.source_info,
            required: self.required,
        }
    }
}

/// View of a parameter sequence, element-wise.
pub open spec fn view_params(s: Seq<Parameter>) -> Seq<ParameterV>
    decreases s,
{
    if s.len() == 0 {
        Seq::empty()
    } else {
        seq![s[0].view()] + view_params(s.drop_first())
    }
}

/// `view_terms` is the element-wise view.
pub proof fn lemma_view_terms(s: Seq<Term>)
    ensures
        view_terms(s).len() == s.len(),
        forall|i: int| 0 <= i < s.len() ==> view_terms(s)[i] == s[i].view(),
    decreases s,
{
    if s.len() > 0 {
        lemma_view_terms(s.drop_first());
    }
}

/// `view_entries` is the element-wise view.
pub proof fn lemma_view_entries(s: Seq<(Symbol, Term)>)
    ensures
        view_entries(s).len() == s.len(),
        forall|i: int|
            0 <= i < s.len() ==> view_entries(s)[i] == (s[i].0.view(), s[i].1.view()),
    decreases s,
{
    if s.len() > 0 {
        lemma_view_entries(s.drop_first());
    }
}

/// `view_params` is the element-wise view.
pub proof fn lemma_view_params(s: Seq<Parameter>)
    ensures
        view_params(s).len() == s.len(),
        forall|i: int| 0 <= i < s.len() ==> view_params(s)[i] == s[i].view(),
    decreases s,
{
    if s.len() > 0 {
        lemma_view_params(s.drop_first());
    }
}

/// Entry sequences sorted strictly by key text, at view level.
pub open spec fn sorted_entry_views(s: Seq<(Seq<char>, TermV)>) -> bool {
    forall|i: int, j: int| 0 <= i < j < s.len() ==> #[trigger] lex_lt(s[i].0, s[j].0)
}

/// Well-formed term view: every dictionary in it is sorted by key.
pub open spec fn wf_term_v(t: TermV) -> bool
    decreases t,
{
    wf_value_v(t.value)
}

pub open spec fn wf_value_v(v: ValueV) -> bool
    decreases v,
{
    match v {
        ValueV::Number(_) => true,
        ValueV::String(_) => true,
        ValueV::Boolean(_) => true,
        ValueV::Variable(_) => true,
        ValueV::Dictionary(d) => wf_dict_v(d),
        ValueV::InstanceLiteral(i) => wf_dict_v(i.fields),
        ValueV::Call(c) => wf_terms_v(c.args) && match c.kwargs {
            Some(k) => wf_dict_v(k),
            None => true,
        },
        ValueV::List(l) => wf_terms_v(l.elements),
        ValueV::Expression(o) => wf_terms_v(o.args),
    }
}

pub open spec fn wf_dict_v(d: DictionaryV) -> bool
    decreases d,
{
    sorted_entry_views(d.entries) && wf_entries_v(d.entries)
}

pub open spec fn wf_entries_v(s: Seq<(Seq<char>, TermV)>) -> bool
    decreases s,
{
    if s.len() == 0 {
        true
    } else {
        wf_term_v(s[0].1) && wf_entries_v(s.drop_first())
    }
}

pub open spec fn wf_terms_v(s: Seq<TermV>) -> bool
    decreases s,
{
    if s.len() == 0 {
        true
    } else {
        wf_term_v(s[0]) && wf_terms_v(s.drop_first())
    }
}

pub open spec fn wf_param_v(p: ParameterV) -> bool
    decreases p,
{
    wf_term_v(p.parameter) && match p.specializer {
        Some(t) => wf_term_v(t),
        None => true,
    }
}

pub open spec fn wf_params_v(s: Seq<ParameterV>) -> bool
    decreases s,
{
    if s.len() == 0 {
        true
    } else {
        wf_param_v(s[0]) && wf_params_v(s.drop_first())
    }
}

pub open spec fn wf_rule_v(r: RuleV) -> bool
    decreases r,
{
    wf_params_v(r.params) && wf_term_v(r.body)
}

/// Whether a variable named `x` occurs anywhere in the term, at any
/// nesting depth, as a `Variable` node or as a list's rest-variable.
pub open spec fn term_has_var(t: TermV, x: Seq<char>) -> bool
    decreases t,
{
    value_has_var(t.value, x)
}

pub open spec fn value_has_var(v: ValueV, x: Seq<char>) -> bool
    decreases v,
{
    match v {
        ValueV::Number(_) => false,
        ValueV::String(_) => false,
        ValueV::Boolean(_) => false,
        ValueV::Variable(n) => n == x,
        ValueV::Dictionary(d) => entries_have_var(d.entries, x),
        ValueV::InstanceLiteral(i) => entries_have_var(i.fields.entries, x),
        ValueV::Call(c) => terms_have_var(c.args, x) || match c.kwargs {
            Some(k) => entries_have_var(k.entries, x),
            None => false,
        },
        ValueV::List(l) => terms_have_var(l.elements, x) || match l.rest_var {
            Some(n) => n == x,
            None => false,
        },
        ValueV::Expression(o) => terms_have_var(o.args, x),
    }
}

pub open spec fn terms_have_var(s: Seq<TermV>, x: Seq<char>) -> bool
    decreases s,
{
    if s.len() == 0 {
        false
    } else {
        term_has_var(s[0], x) || terms_have_var(s.drop_first(), x)
    }
}

pub open spec fn entries_have_var(s: Seq<(Seq<char>, TermV)>, x: Seq<char>) -> bool
    decreases s,
{
    if s.len() == 0 {
        false
    } else {
        term_has_var(s[0].1, x) || entries_have_var(s.drop_first(), x)
    }
}

} // verus!
