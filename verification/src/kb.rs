//! The knowledge base: the authoritative, mutable store of a loaded
//! program's constants and rule groups, organized into named scopes, plus
//! process-local identifier and symbol generation.
//!
//! Lookups report absence as `None`, never as an error. Adding a rule to an
//! unregistered scope is a caller bug, so [`KnowledgeBase::add_rule`]
//! requires the scope to be registered. Scope inclusion is deliberately
//! maximally permissive: every registered scope is included in every other
//! scope (a placeholder for a future explicit visibility graph).

use vstd::prelude::*;

use std::sync::Arc;

use crate::counter::Counter;
use crate::maps::SymbolMap;
use crate::sources::Sources;
use crate::terms::{Rule, Symbol, Term};

verus! {

broadcast use {vstd::std_specs::vec::group_vec_axioms, vstd::seq::group_seq_axioms};

/// A map of bindings: variable name to value.
pub type Bindings = SymbolMap<Term>;

/// The text of the scope that always exists and holds all constants.
pub open spec fn default_scope_text() -> Seq<char> {
    "default"@
}

/// A dotted-name reference: either a bare local name, or a name qualified
/// by the scope it should be resolved in.
#[derive(Debug, Clone, PartialEq)]
pub enum Path {
    Local(Symbol),
    Qualified(Symbol, Symbol),
}

impl Path {
    /// The text of the first segment: the local name, or the qualifying
    /// scope of a qualified name.
    pub open spec fn first_text(&self) -> Seq<char> {
        match self {
            Path::Local(s) => s.view(),
            Path::Qualified(q, _) => q.view(),
        }
    }

    /// The first segment, as used to resolve a scope reference.
    pub fn into_1(self) -> (r: Symbol)
        ensures
            r.view() == self.first_text(),
    {
        match self {
            Path::Local(s) => s,
            Path::Qualified(q, _) => q,
        }
    }
}

/// All rule clauses sharing one name, in insertion order. Clause selection
/// and dispatch belong to the query engine; this type only groups and
/// appends. Inserted rules are shared and immutable thereafter.
#[derive(Debug)]
pub struct GenericRule {
    pub name: Symbol,
    pub rules: Vec<Arc<Rule>>,
}

impl GenericRule {
    pub fn new(name: Symbol, rules: Vec<Arc<Rule>>) -> (r: GenericRule)
        ensures
            r.name == name,
            r.rules == rules,
    {
        GenericRule { name, rules }
    }

    /// Append one shared clause; earlier clauses keep their positions.
    pub fn add_rule(&mut self, rule: Arc<Rule>)
        ensures
            final(self).name == old(self).name,
            final(self).rules@ == old(self).rules@.push(rule),
    {
        self.rules.push(rule);
    }
}

/// A named namespace holding constants and rule groups.
#[derive(Debug)]
pub struct Scope {
    pub name: Path,
    pub constants: Bindings,
    pub rules: SymbolMap<GenericRule>,
}

impl Scope {
    /// Well-formed: both tables are sorted, and every rule group is stored
    /// under the text of its own name.
    pub open spec fn wf(&self) -> bool {
        &&& self.constants.wf()
        &&& self.rules.wf()
        &&& forall|k: Seq<char>|
            #[trigger] self.rules.as_map().contains_key(k) ==> self.rules.as_map()[k].name.view()
                == k
    }

    pub fn new(name: Path) -> (r: Scope)
        ensures
            r.wf(),
            r.name == name,
            r.constants.as_map() == Map::<Seq<char>, Term>::empty(),
            r.rules.as_map() == Map::<Seq<char>, GenericRule>::empty(),
    {
        Scope { name, constants: SymbolMap::new(), rules: SymbolMap::new() }
    }
}

/// The knowledge base. It always contains at least the `default` scope and
/// accumulates monotonically between [`KnowledgeBase::clear_rules`] calls.
#[derive(Debug)]
pub struct KnowledgeBase {
    pub scopes: SymbolMap<Scope>,
    pub sources: Sources,
    /// For symbols returned from `gensym`.
    pub gensym_counter: Counter,
    /// For call identifiers, instance identifiers, and the like.
    pub id_counter: Counter,
    pub inline_queries: Vec<Term>,
}

impl KnowledgeBase {
    /// Well-formed: the scope table is sorted, every scope is well-formed,
    /// the `default` scope exists, and both counters are in range.
    pub open spec fn wf(&self) -> bool {
        &&& self.scopes.wf()
        &&& forall|k: Seq<char>|
            #[trigger] self.scopes.as_map().contains_key(k) ==> self.scopes.as_map()[k].wf()
        &&& self.scopes.as_map().contains_key(default_scope_text())
        &&& self.gensym_counter.wf()
        &&& self.id_counter.wf()
    }

    /// The constants table of the `default` scope.
    pub open spec fn default_constants(&self) -> Map<Seq<char>, Term> {
        self.scopes.as_map()[default_scope_text()].constants.as_map()
    }

    /// An empty knowledge base containing exactly the `default` scope.
    pub fn new() -> (r: KnowledgeBase)
        ensures
            r.wf(),
            r.scopes.as_map().dom() == Set::<Seq<char>>::empty().insert(default_scope_text()),
            r.default_constants() == Map::<Seq<char>, Term>::empty(),
            r.scopes.as_map()[default_scope_text()].rules.as_map() == Map::<
                Seq<char>,
                GenericRule,
            >::empty(),
            r.sources.sources@ == Seq::<crate::sources::Source>::empty(),
            r.inline_queries@ == Seq::<Term>::empty(),
            r.gensym_counter.next_value == 1,
            r.id_counter.next_value == 1,
    {
        let mut scopes: SymbolMap<Scope> = SymbolMap::new();
        let name = Symbol::new("default".to_owned());
        let scope = Scope::new(Path::Local(name.clone()));
        scopes.insert(name, scope);
        let r = KnowledgeBase {
            scopes,
            sources: Sources::new(),
            gensym_counter: Counter::new(),
            id_counter: Counter::new(),
            inline_queries: Vec::new(),
        };
        proof {
            assert(r.scopes.as_map().dom() =~= Set::<Seq<char>>::empty().insert(
                default_scope_text(),
            ));
        }
        r
    }

    /// Return a monotonically increasing integer identifier.
    ///
    /// Successive identifiers strictly increase until the counter wraps
    /// around at 52 bits, so every identifier can be coerced losslessly to
    /// an IEEE-754 double-precision float. Nothing else changes.
    pub fn new_id(&mut self) -> (r: u64)
        requires
            old(self).wf(),
        ensures
            final(self).wf(),
            r == old(self).id_counter.next_value,
            1 <= r <= crate::counter::MAX_ID,
            final(self).id_counter.next_value == (if r == crate::counter::MAX_ID {
                1u64
            } else {
                (r + 1) as u64
            }),
            final(self).scopes == old(self).scopes,
            final(self).sources == old(self).sources,
            final(self).gensym_counter == old(self).gensym_counter,
            final(self).inline_queries == old(self).inline_queries,
    {
        self.id_counter.next()
    }

    /// A snapshot of the identifier counter's state.
    pub fn id_counter(&self) -> (r: Counter)
        ensures
            r == self.id_counter,
    {
        self.id_counter.clone()
    }

    /// Generate a fresh symbol. If `prefix` is exactly `_`, the result is
    /// `_<n>`; if `prefix` starts with `_`, the result is `<prefix>_<n>`;
    /// otherwise the result is `_<prefix>_<n>`, where `n` is the next
    /// gensym-counter value.
    pub fn gensym(&mut self, prefix: &str) -> (r: Symbol)
        requires
            old(self).wf(),
        ensures
            final(self).wf(),
            r.view() == gensym_name(prefix@, old(self).gensym_counter.next_value),
            final(self).gensym_counter.next_value == (if old(self).gensym_counter.next_value
                == crate::counter::MAX_ID {
                1u64
            } else {
                (old(self).gensym_counter.next_value + 1) as u64
            }),
            final(self).scopes == old(self).scopes,
            final(self).sources == old(self).sources,
            final(self).id_counter == old(self).id_counter,
            final(self).inline_queries == old(self).inline_queries,
    {
        let next = self.gensym_counter.next();
        let digits = u64_to_decimal(next);
        let len = prefix.unicode_len();
        let mut out = String::new();
        proof {
            reveal_strlit("_");
        }
        if len == 1 && prefix.get_char(0) == '_' {
            proof {
                assert(prefix@ =~= seq!['_']);
            }
            out.append("_");
            out.append(digits.as_str());
            proof {
                assert(out@ =~= gensym_name(prefix@, next));
            }
        } else if len >= 1 && prefix.get_char(0) == '_' {
            proof {
                assert(prefix@ != seq!['_']) by {
                    assert(prefix@.len() != 1);
                }
            }
            out.append(prefix);
            out.append("_");
            out.append(digits.as_str());
            proof {
                assert(out@ =~= gensym_name(prefix@, next));
            }
        } else {
            proof {
                assert(prefix@ != seq!['_']) by {
                    if prefix@.len() == 1 {
                        assert(prefix@[0] != '_');
                    }
                }
            }
            out.append("_");
            out.append(prefix);
            out.append("_");
            out.append(digits.as_str());
            proof {
                assert(out@ =~= gensym_name(prefix@, next));
            }
        }
        Symbol(out)
    }

    /// Define or overwrite a constant binding in the `default` scope.
    /// Constants are visible to every scope through scope inclusion and
    /// survive [`KnowledgeBase::clear_rules`].
    pub fn constant(&mut self, name: Symbol, value: Term)
        requires
            old(self).wf(),
        ensures
            final(self).wf(),
            final(self).scopes.as_map() == old(self).scopes.as_map().insert(
                default_scope_text(),
                final(self).scopes.as_map()[default_scope_text()],
            ),
            final(self).default_constants() == old(self).default_constants().insert(
                name.view(),
                value,
            ),
            final(self).scopes.as_map()[default_scope_text()].rules == old(
                self,
            ).scopes.as_map()[default_scope_text()].rules,
            final(self).scopes.as_map()[default_scope_text()].name == old(
                self,
            ).scopes.as_map()[default_scope_text()].name,
            final(self).sources == old(self).sources,
            final(self).gensym_counter == old(self).gensym_counter,
            final(self).id_counter == old(self).id_counter,
            final(self).inline_queries == old(self).inline_queries,
    {
        let default_sym = Symbol::new("default".to_owned());
        let removed = self.scopes.remove(&default_sym);
        let mut scope = removed.unwrap();
        scope.constants.insert(name, value);
        let ghost new_scope = scope;
        self.scopes.insert(default_sym, scope);
        proof {
            assert(self.scopes.as_map() =~= old(self).scopes.as_map().insert(
                default_scope_text(),
                new_scope,
            ));
            assert forall|k: Seq<char>|
                #[trigger] self.scopes.as_map().contains_key(k) implies
                self.scopes.as_map()[k].wf() by {
                if k != default_scope_text() {
                    assert(old(self).scopes.as_map().contains_key(k));
                }
            }
        }
    }

    /// True iff a constant with the given name is defined (in the
    /// `default` scope).
    pub fn is_constant(&self, symbol: &Symbol) -> (r: bool)
        requires
            self.wf(),
        ensures
            r == self.default_constants().contains_key(symbol.view()),
    {
        let name = symbol.clone();
        let default_sym = Symbol::new("default".to_owned());
        let r = self.lookup_constant(Path::Local(name), Path::Local(default_sym));
        match r {
            Some(_) => true,
            None => false,
        }
    }

    /// What a constant lookup resolves to: `None` whenever the base scope,
    /// the qualifying scope, or the name is unregistered.
    pub open spec fn lookup_constant_spec(&self, path: Path, scope: Path) -> Option<Term> {
        if !self.scopes.as_map().contains_key(scope.first_text()) {
            None
        } else {
            match path {
                Path::Local(n) => {
                    let sc = self.scopes.as_map()[scope.first_text()];
                    if sc.constants.as_map().contains_key(n.view()) {
                        Some(sc.constants.as_map()[n.view()])
                    } else {
                        None
                    }
                },
                Path::Qualified(q, n) => {
                    if !self.scopes.as_map().contains_key(q.view()) {
                        None
                    } else {
                        let sc = self.scopes.as_map()[q.view()];
                        if sc.constants.as_map().contains_key(n.view()) {
                            Some(sc.constants.as_map()[n.view()])
                        } else {
                            None
                        }
                    }
                },
            }
        }
    }

    /// Resolve a constant: a bare name within the base scope, or a
    /// qualified name inside the included scope named by the qualifier.
    /// Absence of a scope or name yields `None`, never an error.
    pub fn lookup_constant(&self, path: Path, scope: Path) -> (r: Option<&Term>)
        requires
            self.wf(),
        ensures
            match r {
                Some(t) => self.lookup_constant_spec(path, scope) == Some(*t),
                None => self.lookup_constant_spec(path, scope) is None,
            },
    {
        let ghost path0 = path;
        let base = scope.into_1();
        match self.scopes.get(&base) {
            None => None,
            Some(sc) => match path {
                Path::Local(n) => sc.constants.get(&n),
                Path::Qualified(q, n) => match self.get_included_scope(sc, Path::Local(q)) {
                    Some(included) => included.constants.get(&n),
                    None => None,
                },
            },
        }
    }

    /// The scope `included` as seen from `base`. For now everything is
    /// included in everything: any registered scope resolves, whatever the
    /// base.
    pub fn get_included_scope<'a>(&'a self, _base: &Scope, included: Path) -> (r: Option<
        &'a Scope,
    >)
        requires
            self.wf(),
        ensures
            match r {
                Some(s) => self.scopes.as_map().contains_key(included.first_text()) && *s
                    == self.scopes.as_map()[included.first_text()],
                None => !self.scopes.as_map().contains_key(included.first_text()),
            },
    {
        let name = included.into_1();
        self.scopes.get(&name)
    }

    /// What a rule lookup resolves to, mirroring constant lookup over the
    /// rule tables.
    pub open spec fn lookup_rule_spec(&self, path: Path, scope: Path) -> Option<GenericRule> {
        if !self.scopes.as_map().contains_key(scope.first_text()) {
            None
        } else {
            match path {
                Path::Local(n) => {
                    let sc = self.scopes.as_map()[scope.first_text()];
                    if sc.rules.as_map().contains_key(n.view()) {
                        Some(sc.rules.as_map()[n.view()])
                    } else {
                        None
                    }
                },
                Path::Qualified(q, n) => {
                    if !self.scopes.as_map().contains_key(q.view()) {
                        None
                    } else {
                        let sc = self.scopes.as_map()[q.view()];
                        if sc.rules.as_map().contains_key(n.view()) {
                            Some(sc.rules.as_map()[n.view()])
                        } else {
                            None
                        }
                    }
                },
            }
        }
    }

    /// Resolve a rule group: identical resolution strategy to
    /// [`KnowledgeBase::lookup_constant`], over the rule tables.
    pub fn lookup_rule(&self, path: Path, scope: Path) -> (r: Option<&GenericRule>)
        requires
            self.wf(),
        ensures
            match r {
                Some(g) => self.lookup_rule_spec(path, scope) == Some(*g),
                None => self.lookup_rule_spec(path, scope) is None,
            },
    {
        let base = scope.into_1();
        match self.scopes.get(&base) {
            None => None,
            Some(sc) => match path {
                Path::Local(n) => sc.rules.get(&n),
                Path::Qualified(q, n) => match self.get_included_scope(sc, Path::Local(q)) {
                    Some(included) => included.rules.get(&n),
                    None => None,
                },
            },
        }
    }

    /// Add one rule clause to its name's group in the given scope, creating
    /// the group if needed. Clauses with the same name accumulate in
    /// insertion order. The scope must already be registered: referencing
    /// an unregistered scope is a caller bug, not a runtime condition.
    pub fn add_rule(&mut self, rule: Rule, scope: Path)
        requires
            old(self).wf(),
            old(self).scopes.as_map().contains_key(scope.first_text()),
        ensures
            final(self).wf(),
            final(self).scopes.as_map() == old(self).scopes.as_map().insert(
                scope.first_text(),
                final(self).scopes.as_map()[scope.first_text()],
            ),
            ({
                let old_scope = old(self).scopes.as_map()[scope.first_text()];
                let new_scope = final(self).scopes.as_map()[scope.first_text()];
                let old_clauses = if old_scope.rules.as_map().contains_key(rule.name.view()) {
                    old_scope.rules.as_map()[rule.name.view()].rules@
                } else {
                    Seq::<Arc<Rule>>::empty()
                };
                &&& new_scope.name == old_scope.name
                &&& new_scope.constants == old_scope.constants
                &&& new_scope.rules.as_map() == old_scope.rules.as_map().insert(
                    rule.name.view(),
                    new_scope.rules.as_map()[rule.name.view()],
                )
                &&& new_scope.rules.as_map().contains_key(rule.name.view())
                &&& new_scope.rules.as_map()[rule.name.view()].rules@.len() == old_clauses.len()
                    + 1
                &&& new_scope.rules.as_map()[rule.name.view()].rules@.take(old_clauses.len() as int)
                    == old_clauses
                &&& new_scope.rules.as_map()[rule.name.view()].rules@.last() == rule
                &&& new_scope.rules.as_map()[rule.name.view()].name.view() == rule.name.view()
            }),
            final(self).sources == old(self).sources,
            final(self).gensym_counter == old(self).gensym_counter,
            final(self).id_counter == old(self).id_counter,
            final(self).inline_queries == old(self).inline_queries,
    {
        let first = scope.into_1();
        let removed = self.scopes.remove(&first);
        let mut sc = removed.unwrap();
        let name = rule.name.clone();
        let group_opt = sc.rules.remove(&name);
        let mut group = match group_opt {
            Some(g) => g,
            None => GenericRule::new(name.clone(), Vec::new()),
        };
        let ghost old_clauses = group.rules@;
        group.add_rule(Arc::new(rule));
        let ghost new_group = group;
        sc.rules.insert(name, group);
        let ghost new_scope = sc;
        self.scopes.insert(first, sc);
        proof {
            assert(new_group.rules@.take(old_clauses.len() as int) =~= old_clauses);
            assert(self.scopes.as_map() =~= old(self).scopes.as_map().insert(
                scope.first_text(),
                new_scope,
            ));
            assert(new_scope.rules.as_map() =~= old(
                self,
            ).scopes.as_map()[scope.first_text()].rules.as_map().insert(
                rule.name.view(),
                new_group,
            ));
            assert forall|k: Seq<char>|
                #[trigger] self.scopes.as_map().contains_key(k) implies
                self.scopes.as_map()[k].wf() by {
                if k != scope.first_text() {
                    assert(old(self).scopes.as_map().contains_key(k));
                } else {
                    assert forall|kk: Seq<char>|
                        #[trigger] new_scope.rules.as_map().contains_key(kk) implies
                    new_scope.rules.as_map()[kk].name.view() == kk by {
                        if kk != rule.name.view() {
                            assert(old(
                                self,
                            ).scopes.as_map()[scope.first_text()].rules.as_map().contains_key(kk));
                        }
                    }
                }
            }
        }
    }

    /// Empty every scope's rule table, reset the source registry, and drop
    /// the inline queries; constants, scope names, and both counters are
    /// untouched, so a reloaded program keeps its established constants.
    pub fn clear_rules(&mut self)
        requires
            old(self).wf(),
        ensures
            final(self).wf(),
            final(self).sources.sources@ == Seq::<crate::sources::Source>::empty(),
            final(self).inline_queries@ == Seq::<Term>::empty(),
            final(self).gensym_counter == old(self).gensym_counter,
            final(self).id_counter == old(self).id_counter,
            forall|k: Seq<char>|
                #[trigger] final(self).scopes.as_map().contains_key(k) == old(
                    self,
                ).scopes.as_map().contains_key(k),
            forall|k: Seq<char>|
                old(self).scopes.as_map().contains_key(k) ==> {
                    &&& (#[trigger] final(self).scopes.as_map()[k]).name == old(
                        self,
                    ).scopes.as_map()[k].name
                    &&& final(self).scopes.as_map()[k].constants == old(
                        self,
                    ).scopes.as_map()[k].constants
                    &&& final(self).scopes.as_map()[k].rules.as_map() == Map::<
                        Seq<char>,
                        GenericRule,
                    >::empty()
                },
    {
        let ghost old_entries = self.scopes.entries@;
        let mut taken: Vec<(Symbol, Scope)> = Vec::new();
        core::mem::swap(&mut taken, &mut self.scopes.entries);
        let mut out: Vec<(Symbol, Scope)> = Vec::new();
        proof {
            assert(taken@ =~= old_entries.skip(0));
        }
        while taken.len() > 0
            invariant
                out@.len() + taken@.len() == old_entries.len(),
                taken@ =~= old_entries.skip(out@.len() as int),
                forall|j: int|
                    0 <= j < out@.len() ==> {
                        &&& (#[trigger] out@[j]).0 == old_entries[j].0
                        &&& out@[j].1.name == old_entries[j].1.name
                        &&& out@[j].1.constants == old_entries[j].1.constants
                        &&& out@[j].1.rules.as_map() == Map::<Seq<char>, GenericRule>::empty()
                        &&& out@[j].1.rules.wf()
                    },
            decreases taken@.len(),
        {
            let ghost k = out@.len() as int;
            let entry = taken.remove(0);
            proof {
                assert(entry == old_entries[k]);
            }
            let (key, mut scope) = entry;
            scope.rules = SymbolMap::new();
            out.push((key, scope));
            proof {
                assert(taken@ =~= old_entries.skip(out@.len() as int));
            }
        }
        self.scopes = SymbolMap { entries: out };
        self.sources = Sources::new();
        self.inline_queries = Vec::new();
        proof {
            lemma_rebuilt_scopes(old(self).scopes.entries@, self.scopes.entries@);
            assert forall|k: Seq<char>|
                #[trigger] self.scopes.as_map().contains_key(k) implies
                self.scopes.as_map()[k].wf() by {
                crate::maps::lemma_seq_to_map_characterization(self.scopes.entries@);
                crate::maps::lemma_seq_to_map_characterization(old(self).scopes.entries@);
                let i = choose|i: int|
                    0 <= i < self.scopes.entries@.len() && self.scopes.entries@[i].0.view() == k;
                assert(self.scopes.as_map()[self.scopes.entries@[i].0.view()]
                    == self.scopes.entries@[i].1);
                assert(old(self).scopes.entries@[i].0.view() == k);
                assert(old(self).scopes.as_map().contains_key(k));
                assert(old(self).scopes.as_map()[old(self).scopes.entries@[i].0.view()] == old(
                    self,
                ).scopes.entries@[i].1);
                assert(old(self).scopes.entries@[i].1.wf());
                assert(self.scopes.entries@[i].1.constants == old(
                    self,
                ).scopes.entries@[i].1.constants);
                assert(self.scopes.entries@[i].1.rules.wf());
                assert(self.scopes.entries@[i].1.rules.as_map() == Map::<
                    Seq<char>,
                    GenericRule,
                >::empty());
            }
        }
    }
}

/// Two entry sequences with pointwise equal keys, equal names and
/// constants, and emptied rule tables describe the expected mappings.
proof fn lemma_rebuilt_scopes(s1: Seq<(Symbol, Scope)>, s2: Seq<(Symbol, Scope)>)
    requires
        crate::maps::sorted_entries(s1),
        s1.len() == s2.len(),
        forall|j: int|
            0 <= j < s1.len() ==> {
                &&& (#[trigger] s2[j]).0 == s1[j].0
                &&& s2[j].1.name == s1[j].1.name
                &&& s2[j].1.constants == s1[j].1.constants
                &&& s2[j].1.rules.as_map() == Map::<Seq<char>, GenericRule>::empty()
            },
    ensures
        crate::maps::sorted_entries(s2),
        forall|k: Seq<char>|
            #[trigger] crate::maps::seq_to_map(s2).contains_key(k) == crate::maps::seq_to_map(
                s1,
            ).contains_key(k),
        forall|k: Seq<char>|
            crate::maps::seq_to_map(s1).contains_key(k) ==> {
                &&& (#[trigger] crate::maps::seq_to_map(s2)[k]).name == crate::maps::seq_to_map(
                    s1,
                )[k].name
                &&& crate::maps::seq_to_map(s2)[k].constants == crate::maps::seq_to_map(
                    s1,
                )[k].constants
                &&& crate::maps::seq_to_map(s2)[k].rules.as_map() == Map::<
                    Seq<char>,
                    GenericRule,
                >::empty()
            },
{
    assert forall|i: int, j: int| 0 <= i < j < s2.len() implies #[trigger] crate::maps::lex_lt(
        s2[i].0.view(),
        s2[j].0.view(),
    ) by {
        assert(crate::maps::lex_lt(s1[i].0.view(), s1[j].0.view()));
    }
    crate::maps::lemma_seq_to_map_characterization(s1);
    crate::maps::lemma_seq_to_map_characterization(s2);
    assert forall|k: Seq<char>| #[trigger]
        crate::maps::seq_to_map(s2).contains_key(k) == crate::maps::seq_to_map(s1).contains_key(
        k,
    ) by {
        if crate::maps::seq_to_map(s1).contains_key(k) {
            let i = choose|i: int| 0 <= i < s1.len() && s1[i].0.view() == k;
            assert(s2[i].0.view() == k);
            assert(crate::maps::seq_to_map(s2).contains_key(s2[i].0.view()));
        }
        if crate::maps::seq_to_map(s2).contains_key(k) {
            let i = choose|i: int| 0 <= i < s2.len() && s2[i].0.view() == k;
            assert(s1[i].0.view() == k);
            assert(crate::maps::seq_to_map(s1).contains_key(s1[i].0.view()));
        }
    }
    assert forall|k: Seq<char>| crate::maps::seq_to_map(s1).contains_key(k) implies {
        &&& (#[trigger] crate::maps::seq_to_map(s2)[k]).name == crate::maps::seq_to_map(s1)[k].name
        &&& crate::maps::seq_to_map(s2)[k].constants == crate::maps::seq_to_map(s1)[k].constants
        &&& crate::maps::seq_to_map(s2)[k].rules.as_map() == Map::<Seq<char>, GenericRule>::empty()
    } by {
        let i = choose|i: int| 0 <= i < s1.len() && s1[i].0.view() == k;
        assert(crate::maps::seq_to_map(s1)[s1[i].0.view()] == s1[i].1);
        assert(crate::maps::seq_to_map(s2)[s2[i].0.view()] == s2[i].1);
        assert(s2[i].0.view() == k);
    }
}

/// The decimal digit character of a value below ten.
pub open spec fn dec_digit(d: nat) -> char {
    if d == 0 {
        '0'
    } else if d == 1 {
        '1'
    } else if d == 2 {
        '2'
    } else if d == 3 {
        '3'
    } else if d == 4 {
        '4'
    } else if d == 5 {
        '5'
    } else if d == 6 {
        '6'
    } else if d == 7 {
        '7'
    } else if d == 8 {
        '8'
    } else {
        '9'
    }
}

/// The decimal digits of a natural number, most significant first.
pub open spec fn dec_str(n: nat) -> Seq<char>
    decreases n,
{
    if n < 10 {
        seq![dec_digit(n)]
    } else {
        dec_str(n / 10).push(dec_digit(n % 10))
    }
}

/// The text of a generated symbol: `_<n>` for the placeholder prefix `_`,
/// `<prefix>_<n>` for a prefix already starting with `_`, and
/// `_<prefix>_<n>` otherwise.
pub open spec fn gensym_name(prefix: Seq<char>, n: u64) -> Seq<char> {
    if prefix == seq!['_'] {
        seq!['_'] + dec_str(n as nat)
    } else if prefix.len() > 0 && prefix[0] == '_' {
        prefix + seq!['_'] + dec_str(n as nat)
    } else {
        seq!['_'] + prefix + seq!['_'] + dec_str(n as nat)
    }
}

/// Relies on the standard formatting of `u64`, which prints exactly the
/// decimal digits of the value, most significant first.
#[verifier::external_body]
fn u64_to_decimal(n: u64) -> (r: String)
    ensures
        r@ == dec_str(n as nat),
{
    format!("{}", n)
}

/// Decimal strings are nonempty and never contain an underscore.
proof fn lemma_dec_str_shape(n: nat)
    ensures
        dec_str(n).len() >= 1,
        forall|i: int| 0 <= i < dec_str(n).len() ==> dec_str(n)[i] != '_',
    decreases n,
{
    if n >= 10 {
        lemma_dec_str_shape(n / 10);
    }
}

/// Digit characters of distinct digits differ.
proof fn lemma_dec_digit_injective(x: nat, y: nat)
    requires
        x < 10,
        y < 10,
        dec_digit(x) == dec_digit(y),
    ensures
        x == y,
{
}

/// Distinct values have distinct decimal strings.
proof fn lemma_dec_str_injective(a: nat, b: nat)
    requires
        dec_str(a) == dec_str(b),
    ensures
        a == b,
    decreases a,
{
    if a < 10 && b < 10 {
        assert(dec_str(a)[0] == dec_digit(a));
        assert(dec_str(b)[0] == dec_digit(b));
        lemma_dec_digit_injective(a, b);
    } else if a >= 10 && b >= 10 {
        assert(dec_str(a).last() == dec_digit(a % 10));
        assert(dec_str(b).last() == dec_digit(b % 10));
        assert(dec_str(a).drop_last() =~= dec_str(a / 10));
        assert(dec_str(b).drop_last() =~= dec_str(b / 10));
        lemma_dec_str_injective(a / 10, b / 10);
        lemma_dec_digit_injective(a % 10, b % 10);
        assert(a == 10 * (a / 10) + a % 10) by {
            vstd::arithmetic::div_mod::lemma_fundamental_div_mod(a as int, 10);
        }
        assert(b == 10 * (b / 10) + b % 10) by {
            vstd::arithmetic::div_mod::lemma_fundamental_div_mod(b as int, 10);
        }
    } else if a < 10 {
        lemma_dec_str_shape(b / 10);
        assert(dec_str(b).len() >= 2);
    } else {
        lemma_dec_str_shape(a / 10);
        assert(dec_str(a).len() >= 2);
    }
}

/// The part of a generated name that precedes the final underscore and the
/// counter digits.
spec fn gensym_stem(prefix: Seq<char>) -> Seq<char> {
    if prefix == seq!['_'] {
        Seq::empty()
    } else if prefix.len() > 0 && prefix[0] == '_' {
        prefix
    } else {
        seq!['_'] + prefix
    }
}

/// A generated name is its stem, an underscore, and the counter digits.
proof fn lemma_gensym_name_shape(prefix: Seq<char>, n: u64)
    ensures
        gensym_name(prefix, n) == gensym_stem(prefix) + seq!['_'] + dec_str(n as nat),
{
    assert(gensym_name(prefix, n) =~= gensym_stem(prefix) + seq!['_'] + dec_str(n as nat));
}

/// Gensym uniqueness: names generated at distinct counter values differ,
/// whatever the prefixes, so successive `gensym` calls on one knowledge
/// base yield pairwise distinct symbols until the counter wraps around.
pub proof fn lemma_gensym_injective(p1: Seq<char>, n1: u64, p2: Seq<char>, n2: u64)
    requires
        n1 != n2,
    ensures
        gensym_name(p1, n1) != gensym_name(p2, n2),
{
    lemma_gensym_name_shape(p1, n1);
    lemma_gensym_name_shape(p2, n2);
    lemma_dec_str_shape(n1 as nat);
    lemma_dec_str_shape(n2 as nat);
    let a = gensym_stem(p1);
    let b = gensym_stem(p2);
    let d1 = dec_str(n1 as nat);
    let d2 = dec_str(n2 as nat);
    let s1 = a + seq!['_'] + d1;
    let s2 = b + seq!['_'] + d2;
    if s1 == s2 {
        let len = s1.len() as int;
        assert(a.len() + 1 + d1.len() == b.len() + 1 + d2.len());
        if d1.len() < d2.len() {
            // The underscore before the short digit string falls inside the
            // long digit string: impossible.
            let j = a.len() as int;
            assert(s1[j] == '_');
            assert(j == b.len() + 1 + (d2.len() - d1.len() - 1));
            assert(s2[j] == d2[d2.len() - d1.len() - 1]);
            assert(false);
        } else if d2.len() < d1.len() {
            let j = b.len() as int;
            assert(s2[j] == '_');
            assert(j == a.len() + 1 + (d1.len() - d2.len() - 1));
            assert(s1[j] == d1[d1.len() - d2.len() - 1]);
            assert(false);
        } else {
            assert(d1 =~= d2) by {
                assert forall|i: int| 0 <= i < d1.len() implies d1[i] == d2[i] by {
                    assert(s1[a.len() + 1 + i] == d1[i]);
                    assert(s2[b.len() + 1 + i] == d2[i]);
                }
            }
            lemma_dec_str_injective(n1 as nat, n2 as nat);
            assert(false);
        }
    }
}

} // verus!
