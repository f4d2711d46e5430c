//! The framework-level laws of the fold: the identity fold returns its
//! input unchanged, and a fold that rewrites only variables reaches every
//! variable occurrence at any nesting depth.

use vstd::prelude::*;

use crate::folder::{
    identity_leaf_fns, insert_entry_v, rename_leaf_fns, sort_entries_v, spec_fold_entries,
    spec_fold_param, spec_fold_params, spec_fold_rule, spec_fold_term, spec_fold_terms,
    spec_fold_value, lemma_spec_fold_entries, lemma_spec_fold_terms,
};
use crate::maps::{lex_lt, lemma_lex_trichotomy};
use crate::terms::{
    entries_have_var, sorted_entry_views, term_has_var, terms_have_var, value_has_var, wf_dict_v,
    wf_entries_v, wf_param_v, wf_params_v, wf_rule_v, wf_term_v, wf_terms_v, wf_value_v,
    DictionaryV, ParameterV, RuleV, TermV, ValueV,
};

verus! {

broadcast use vstd::seq::group_seq_axioms;

/// Inserting a key greater than every key of a sorted sequence appends.
proof fn lemma_insert_entry_at_end(s: Seq<(Seq<char>, TermV)>, k: Seq<char>, t: TermV)
    requires
        forall|i: int| 0 <= i < s.len() ==> lex_lt(#[trigger] s[i].0, k),
    ensures
        insert_entry_v(s, k, t) == s.push((k, t)),
    decreases s,
{
    if s.len() == 0 {
        assert(insert_entry_v(s, k, t) =~= s.push((k, t)));
    } else {
        lemma_lex_trichotomy(k, s[0].0);
        assert(forall|i: int|
            0 <= i < s.drop_first().len() ==> lex_lt(#[trigger] s.drop_first()[i].0, k));
        lemma_insert_entry_at_end(s.drop_first(), k, t);
        assert(insert_entry_v(s, k, t) =~= s.push((k, t)));
    }
}

/// Re-sorting an already-sorted entry sequence is the identity.
proof fn lemma_sort_sorted_identity(s: Seq<(Seq<char>, TermV)>)
    requires
        sorted_entry_views(s),
    ensures
        sort_entries_v(s) == s,
    decreases s,
{
    if s.len() > 0 {
        let prefix = s.drop_last();
        assert forall|i: int, j: int| 0 <= i < j < prefix.len() implies #[trigger] lex_lt(
            prefix[i].0,
            prefix[j].0,
        ) by {
            assert(prefix[i] == s[i]);
            assert(prefix[j] == s[j]);
        }
        lemma_sort_sorted_identity(prefix);
        assert forall|i: int| 0 <= i < prefix.len() implies lex_lt(
            #[trigger] prefix[i].0,
            s.last().0,
        ) by {
            assert(prefix[i] == s[i]);
            assert(lex_lt(s[i].0, s[s.len() - 1].0));
        }
        lemma_insert_entry_at_end(prefix, s.last().0, s.last().1);
        assert((s.last().0, s.last().1) == s.last());
        assert(sort_entries_v(s) =~= s);
    }
}

/// Transformer identity law: the identity fold — the fold of a transformer
/// that overrides no hooks — returns every well-formed term unchanged,
/// provenance included.
pub proof fn lemma_fold_identity_term(t: TermV)
    requires
        wf_term_v(t),
    ensures
        spec_fold_term(identity_leaf_fns(), t) == t,
    decreases t,
{
    lemma_fold_identity_value(t.value);
    assert(spec_fold_term(identity_leaf_fns(), t) =~= t);
}

/// Identity law at the value level.
pub proof fn lemma_fold_identity_value(v: ValueV)
    requires
        wf_value_v(v),
    ensures
        spec_fold_value(identity_leaf_fns(), v) == v,
    decreases v,
{
    let lf = identity_leaf_fns();
    match v {
        ValueV::Number(_) => {
        },
        ValueV::String(_) => {
        },
        ValueV::Boolean(_) => {
        },
        ValueV::Variable(_) => {
        },
        ValueV::Dictionary(d) => {
            lemma_fold_identity_dict(d);
        },
        ValueV::InstanceLiteral(i) => {
            lemma_fold_identity_dict(i.fields);
            assert(spec_fold_value(lf, v) =~= v);
        },
        ValueV::Call(c) => {
            lemma_fold_identity_terms(c.args);
            match c.kwargs {
                Some(k) => {
                    lemma_fold_identity_dict(k);
                },
                None => {
                },
            }
            assert(spec_fold_value(lf, v) =~= v);
        },
        ValueV::List(l) => {
            lemma_fold_identity_terms(l.elements);
            assert(spec_fold_value(lf, v) =~= v);
        },
        ValueV::Expression(o) => {
            lemma_fold_identity_terms(o.args);
            assert(spec_fold_value(lf, v) =~= v);
        },
    }
}

/// Identity law for term sequences.
pub proof fn lemma_fold_identity_terms(s: Seq<TermV>)
    requires
        wf_terms_v(s),
    ensures
        spec_fold_terms(identity_leaf_fns(), s) == s,
    decreases s,
{
    if s.len() > 0 {
        lemma_fold_identity_term(s[0]);
        lemma_fold_identity_terms(s.drop_first());
        assert(spec_fold_terms(identity_leaf_fns(), s) =~= s);
    } else {
        assert(spec_fold_terms(identity_leaf_fns(), s) =~= s);
    }
}

/// Identity law for entry sequences (element-wise; sorting is separate).
pub proof fn lemma_fold_identity_entries(s: Seq<(Seq<char>, TermV)>)
    requires
        wf_entries_v(s),
    ensures
        spec_fold_entries(identity_leaf_fns(), s) == s,
    decreases s,
{
    if s.len() > 0 {
        lemma_fold_identity_term(s[0].1);
        lemma_fold_identity_entries(s.drop_first());
        assert(spec_fold_entries(identity_leaf_fns(), s) =~= s);
    } else {
        assert(spec_fold_entries(identity_leaf_fns(), s) =~= s);
    }
}

/// Identity law for dictionaries: folding leaves the entries unchanged and
/// re-sorting a sorted dictionary is the identity.
pub proof fn lemma_fold_identity_dict(d: DictionaryV)
    requires
        wf_dict_v(d),
    ensures
        crate::folder::spec_fold_dict(identity_leaf_fns(), d) == d,
    decreases d,
{
    lemma_fold_identity_entries(d.entries);
    lemma_sort_sorted_identity(d.entries);
    assert(crate::folder::spec_fold_dict(identity_leaf_fns(), d) =~= d);
}

/// Identity law for parameters.
pub proof fn lemma_fold_identity_param(p: ParameterV)
    requires
        wf_param_v(p),
    ensures
        spec_fold_param(identity_leaf_fns(), p) == p,
    decreases p,
{
    lemma_fold_identity_term(p.parameter);
    match p.specializer {
        Some(t) => {
            lemma_fold_identity_term(t);
        },
        None => {
        },
    }
    assert(spec_fold_param(identity_leaf_fns(), p) =~= p);
}

/// Identity law for rules, provenance and `required` flag included.
pub proof fn lemma_fold_identity_rule(r: RuleV)
    requires
        wf_rule_v(r),
    ensures
        spec_fold_rule(identity_leaf_fns(), r) == r,
    decreases r,
{
    let ghost s = r.params;
    lemma_fold_identity_term(r.body);
    assert forall|i: int| 0 <= i < s.len() implies spec_fold_params(identity_leaf_fns(), s)[i]
        == s[i] by {
        lemma_spec_fold_params_wf(s, i);
    }
    lemma_spec_fold_params_len(s);
    assert(spec_fold_params(identity_leaf_fns(), s) =~= s);
    assert(spec_fold_rule(identity_leaf_fns(), r) =~= r);
}

/// Length of a folded parameter sequence.
proof fn lemma_spec_fold_params_len(s: Seq<ParameterV>)
    ensures
        spec_fold_params(identity_leaf_fns(), s).len() == s.len(),
    decreases s,
{
    if s.len() > 0 {
        lemma_spec_fold_params_len(s.drop_first());
    }
}

/// One element of a folded well-formed parameter sequence is unchanged.
proof fn lemma_spec_fold_params_wf(s: Seq<ParameterV>, i: int)
    requires
        wf_params_v(s),
        0 <= i < s.len(),
    ensures
        spec_fold_params(identity_leaf_fns(), s)[i] == s[i],
    decreases s,
{
    if i == 0 {
        lemma_fold_identity_param(s[0]);
        lemma_spec_fold_params_len(s.drop_first());
    } else {
        lemma_spec_fold_params_wf(s.drop_first(), i - 1);
        lemma_spec_fold_params_len(s.drop_first());
    }
}

/// An occurrence of a variable in an entry sequence is an occurrence in
/// one of its values, and conversely.
proof fn lemma_entries_have_var_pointwise(s: Seq<(Seq<char>, TermV)>, x: Seq<char>)
    ensures
        entries_have_var(s, x) == (exists|i: int|
            0 <= i < s.len() && term_has_var(#[trigger] s[i].1, x)),
    decreases s,
{
    if s.len() > 0 {
        lemma_entries_have_var_pointwise(s.drop_first(), x);
        assert(forall|i: int| 0 < i < s.len() ==> #[trigger] s[i] == s.drop_first()[i - 1]);
        if entries_have_var(s, x) {
            if term_has_var(s[0].1, x) {
                assert(term_has_var(s[0].1, x));
            } else {
                let i = choose|i: int|
                    0 <= i < s.drop_first().len() && term_has_var(
                        #[trigger] s.drop_first()[i].1,
                        x,
                    );
                assert(term_has_var(s[i + 1].1, x));
            }
        }
        if exists|i: int| 0 <= i < s.len() && term_has_var(#[trigger] s[i].1, x) {
            let i = choose|i: int| 0 <= i < s.len() && term_has_var(#[trigger] s[i].1, x);
            if i > 0 {
                assert(term_has_var(s.drop_first()[i - 1].1, x));
            }
            assert(entries_have_var(s, x));
        }
    }
}

/// The same, for term sequences.
proof fn lemma_terms_have_var_pointwise(s: Seq<TermV>, x: Seq<char>)
    ensures
        terms_have_var(s, x) == (exists|i: int| 0 <= i < s.len() && term_has_var(#[trigger] s[i], x)),
    decreases s,
{
    if s.len() > 0 {
        lemma_terms_have_var_pointwise(s.drop_first(), x);
        assert(forall|i: int| 0 < i < s.len() ==> #[trigger] s[i] == s.drop_first()[i - 1]);
        if terms_have_var(s, x) {
            if !term_has_var(s[0], x) {
                let i = choose|i: int|
                    0 <= i < s.drop_first().len() && term_has_var(#[trigger] s.drop_first()[i], x);
                assert(term_has_var(s[i + 1], x));
            }
        }
        if exists|i: int| 0 <= i < s.len() && term_has_var(#[trigger] s[i], x) {
            let i = choose|i: int| 0 <= i < s.len() && term_has_var(#[trigger] s[i], x);
            if i > 0 {
                assert(term_has_var(s.drop_first()[i - 1], x));
            }
            assert(terms_have_var(s, x));
        }
    }
}

/// Every entry of a sorted insertion is the inserted pair or an old entry.
proof fn lemma_insert_entry_members(s: Seq<(Seq<char>, TermV)>, k: Seq<char>, t: TermV)
    ensures
        forall|i: int|
            0 <= i < insert_entry_v(s, k, t).len() ==> (#[trigger] insert_entry_v(s, k, t)[i]) == (
            k,
            t,
        ) || exists|m: int| 0 <= m < s.len() && s[m] == insert_entry_v(s, k, t)[i],
    decreases s,
{
    let r = insert_entry_v(s, k, t);
    if s.len() == 0 {
    } else if lex_lt(k, s[0].0) {
        assert(forall|i: int| 0 < i < r.len() ==> #[trigger] r[i] == s[i - 1]);
    } else if k == s[0].0 {
        assert(forall|i: int|
            0 < i < r.len() ==> #[trigger] r[i] == s.drop_first()[i - 1] && s.drop_first()[i - 1]
                == s[i]);
    } else {
        lemma_insert_entry_members(s.drop_first(), k, t);
        let rr = insert_entry_v(s.drop_first(), k, t);
        assert forall|i: int|
            0 <= i < r.len() implies (#[trigger] r[i]) == (k, t) || exists|m: int|
            0 <= m < s.len() && s[m] == r[i] by {
            if i == 0 {
                assert(s[0] == r[0]);
            } else {
                assert(r[i] == rr[i - 1]);
                if rr[i - 1] != (k, t) {
                    let m = choose|m: int|
                        0 <= m < s.drop_first().len() && #[trigger] s.drop_first()[m] == rr[i - 1];
                    assert(s[m + 1] == r[i]);
                }
            }
        }
    }
}

/// Every entry of a re-sorted sequence is one of the original entries.
proof fn lemma_sort_members(s: Seq<(Seq<char>, TermV)>)
    ensures
        forall|i: int|
            0 <= i < sort_entries_v(s).len() ==> exists|m: int|
                0 <= m < s.len() && s[m] == #[trigger] sort_entries_v(s)[i],
    decreases s,
{
    if s.len() > 0 {
        let prefix = s.drop_last();
        lemma_sort_members(prefix);
        lemma_insert_entry_members(sort_entries_v(prefix), s.last().0, s.last().1);
        let r = sort_entries_v(s);
        assert forall|i: int| 0 <= i < r.len() implies exists|m: int|
            0 <= m < s.len() && s[m] == #[trigger] r[i] by {
            if r[i] == (s.last().0, s.last().1) {
                assert((s.last().0, s.last().1) == s.last());
                assert(s[s.len() - 1] == r[i]);
            } else {
                let m1 = choose|m1: int|
                    0 <= m1 < sort_entries_v(prefix).len() && #[trigger] sort_entries_v(prefix)[m1]
                        == r[i];
                let m = choose|m: int|
                    0 <= m < prefix.len() && #[trigger] prefix[m] == sort_entries_v(prefix)[m1];
                assert(s[m] == r[i]);
            }
        }
    }
}

/// Open-recursion law: a fold that rewrites only the variable hook, taking
/// every variable named `from` to a different name `to`, leaves no
/// occurrence of `from` anywhere in the result — across call arguments,
/// list elements, dictionary values, and operation arguments, at any depth.
pub proof fn lemma_rename_eliminates_term(t: TermV, from: Seq<char>, to: Seq<char>)
    requires
        from != to,
    ensures
        !term_has_var(spec_fold_term(rename_leaf_fns(from, to), t), from),
    decreases t,
{
    lemma_rename_eliminates_value(t.value, from, to);
}

/// The open-recursion law at the value level.
pub proof fn lemma_rename_eliminates_value(v: ValueV, from: Seq<char>, to: Seq<char>)
    requires
        from != to,
    ensures
        !value_has_var(spec_fold_value(rename_leaf_fns(from, to), v), from),
    decreases v,
{
    let lf = rename_leaf_fns(from, to);
    match v {
        ValueV::Number(_) => {
        },
        ValueV::String(_) => {
        },
        ValueV::Boolean(_) => {
        },
        ValueV::Variable(n) => {
            assert((lf.variable)(n) != from);
        },
        ValueV::Dictionary(d) => {
            lemma_rename_eliminates_dict(d, from, to);
        },
        ValueV::InstanceLiteral(i) => {
            lemma_rename_eliminates_dict(i.fields, from, to);
        },
        ValueV::Call(c) => {
            lemma_rename_eliminates_terms(c.args, from, to);
            match c.kwargs {
                Some(k) => {
                    lemma_rename_eliminates_dict(k, from, to);
                },
                None => {
                },
            }
        },
        ValueV::List(l) => {
            lemma_rename_eliminates_terms(l.elements, from, to);
            match l.rest_var {
                Some(n) => {
                    assert((lf.variable)(n) != from);
                },
                None => {
                },
            }
        },
        ValueV::Expression(o) => {
            lemma_rename_eliminates_terms(o.args, from, to);
        },
    }
}

/// The open-recursion law for term sequences.
proof fn lemma_rename_eliminates_terms(s: Seq<TermV>, from: Seq<char>, to: Seq<char>)
    requires
        from != to,
    ensures
        !terms_have_var(spec_fold_terms(rename_leaf_fns(from, to), s), from),
    decreases s,
{
    let lf = rename_leaf_fns(from, to);
    let r = spec_fold_terms(lf, s);
    lemma_spec_fold_terms(lf, s);
    lemma_terms_have_var_pointwise(r, from);
    assert forall|i: int| 0 <= i < r.len() implies !term_has_var(#[trigger] r[i], from) by {
        lemma_rename_eliminates_term(s[i], from, to);
    }
}

/// The open-recursion law for dictionaries: element-wise freedom survives
/// the re-sort, since every sorted entry is one of the folded entries.
proof fn lemma_rename_eliminates_dict(d: DictionaryV, from: Seq<char>, to: Seq<char>)
    requires
        from != to,
    ensures
        !entries_have_var(crate::folder::spec_fold_dict(rename_leaf_fns(from, to), d).entries, from),
    decreases d,
{
    let lf = rename_leaf_fns(from, to);
    let folded = spec_fold_entries(lf, d.entries);
    lemma_spec_fold_entries(lf, d.entries);
    assert forall|i: int| 0 <= i < folded.len() implies !term_has_var(
        #[trigger] folded[i].1,
        from,
    ) by {
        lemma_rename_eliminates_term(d.entries[i].1, from, to);
    }
    let sorted = sort_entries_v(folded);
    lemma_sort_members(folded);
    lemma_entries_have_var_pointwise(sorted, from);
    assert forall|i: int| 0 <= i < sorted.len() implies !term_has_var(
        #[trigger] sorted[i].1,
        from,
    ) by {
        let m = choose|m: int| 0 <= m < folded.len() && folded[m] == sorted[i];
    }
}

/// Sorted insertion at view level preserves sortedness.
proof fn lemma_insert_entry_v_sorted(s: Seq<(Seq<char>, TermV)>, k: Seq<char>, t: TermV)
    requires
        sorted_entry_views(s),
    ensures
        sorted_entry_views(insert_entry_v(s, k, t)),
    decreases s,
{
    let r = insert_entry_v(s, k, t);
    if s.len() == 0 {
    } else if lex_lt(k, s[0].0) {
        assert forall|i: int, j: int| 0 <= i < j < r.len() implies #[trigger] lex_lt(
            r[i].0,
            r[j].0,
        ) by {
            if i == 0 {
                if j > 1 {
                    crate::maps::lemma_lex_transitive(k, s[0].0, s[j - 1].0);
                }
            }
        }
    } else if k == s[0].0 {
        assert forall|i: int, j: int| 0 <= i < j < r.len() implies #[trigger] lex_lt(
            r[i].0,
            r[j].0,
        ) by {
            assert(r[j] == s[j]);
            if i == 0 {
                assert(lex_lt(s[0].0, s[j].0));
            } else {
                assert(r[i] == s[i]);
            }
        }
    } else {
        let rest = s.drop_first();
        assert forall|i: int, j: int| 0 <= i < j < rest.len() implies #[trigger] lex_lt(
            rest[i].0,
            rest[j].0,
        ) by {
            assert(rest[i] == s[i + 1]);
            assert(rest[j] == s[j + 1]);
        }
        lemma_insert_entry_v_sorted(rest, k, t);
        lemma_lex_trichotomy(k, s[0].0);
        lemma_insert_entry_members(rest, k, t);
        let rr = insert_entry_v(rest, k, t);
        assert forall|i: int, j: int| 0 <= i < j < r.len() implies #[trigger] lex_lt(
            r[i].0,
            r[j].0,
        ) by {
            if i == 0 {
                assert(r[j] == rr[j - 1]);
                if rr[j - 1] == (k, t) {
                    assert(lex_lt(s[0].0, k));
                } else {
                    let m = choose|m: int| 0 <= m < rest.len() && rest[m] == rr[j - 1];
                    assert(lex_lt(s[0].0, rest[m].0));
                }
            } else {
                assert(r[i] == rr[i - 1]);
                assert(r[j] == rr[j - 1]);
            }
        }
    }
}

/// A re-sorted entry sequence is sorted.
proof fn lemma_sort_entries_v_sorted(s: Seq<(Seq<char>, TermV)>)
    ensures
        sorted_entry_views(sort_entries_v(s)),
    decreases s,
{
    if s.len() > 0 {
        lemma_sort_entries_v_sorted(s.drop_last());
        lemma_insert_entry_v_sorted(sort_entries_v(s.drop_last()), s.last().0, s.last().1);
    }
}

/// Well-formedness of an entry sequence is element-wise well-formedness of
/// its values.
proof fn lemma_wf_entries_pointwise(s: Seq<(Seq<char>, TermV)>)
    ensures
        wf_entries_v(s) == (forall|i: int| 0 <= i < s.len() ==> wf_term_v(#[trigger] s[i].1)),
    decreases s,
{
    if s.len() > 0 {
        lemma_wf_entries_pointwise(s.drop_first());
        assert(forall|i: int| 0 < i < s.len() ==> #[trigger] s[i] == s.drop_first()[i - 1]);
        if wf_entries_v(s) {
            assert forall|i: int| 0 <= i < s.len() implies wf_term_v(#[trigger] s[i].1) by {
                if i > 0 {
                    assert(wf_term_v(s.drop_first()[i - 1].1));
                }
            }
        }
        if forall|i: int| 0 <= i < s.len() ==> wf_term_v(#[trigger] s[i].1) {
            assert forall|i: int|
                0 <= i < s.drop_first().len() implies wf_term_v(
                #[trigger] s.drop_first()[i].1,
            ) by {
                assert(s.drop_first()[i] == s[i + 1]);
            }
        }
    }
}

/// The same for term sequences.
proof fn lemma_wf_terms_pointwise(s: Seq<TermV>)
    ensures
        wf_terms_v(s) == (forall|i: int| 0 <= i < s.len() ==> wf_term_v(#[trigger] s[i])),
    decreases s,
{
    if s.len() > 0 {
        lemma_wf_terms_pointwise(s.drop_first());
        assert(forall|i: int| 0 < i < s.len() ==> #[trigger] s[i] == s.drop_first()[i - 1]);
        if wf_terms_v(s) {
            assert forall|i: int| 0 <= i < s.len() implies wf_term_v(#[trigger] s[i]) by {
                if i > 0 {
                    assert(wf_term_v(s.drop_first()[i - 1]));
                }
            }
        }
        if forall|i: int| 0 <= i < s.len() ==> wf_term_v(#[trigger] s[i]) {
            assert forall|i: int|
                0 <= i < s.drop_first().len() implies wf_term_v(#[trigger] s.drop_first()[i]) by {
                assert(s.drop_first()[i] == s[i + 1]);
            }
        }
    }
}

/// Folds keep terms well-formed: whatever the folder's leaf behaviours,
/// every dictionary of the result is key-sorted, because dictionaries are
/// rebuilt by sorted insertion.
pub proof fn lemma_fold_wf_term(lf: crate::folder::LeafFns, t: TermV)
    ensures
        wf_term_v(spec_fold_term(lf, t)),
    decreases t,
{
    lemma_fold_wf_value(lf, t.value);
}

/// Fold well-formedness at the value level.
pub proof fn lemma_fold_wf_value(lf: crate::folder::LeafFns, v: ValueV)
    ensures
        wf_value_v(spec_fold_value(lf, v)),
    decreases v,
{
    match v {
        ValueV::Number(_) => {
        },
        ValueV::String(_) => {
        },
        ValueV::Boolean(_) => {
        },
        ValueV::Variable(_) => {
        },
        ValueV::Dictionary(d) => {
            lemma_fold_wf_dict(lf, d);
        },
        ValueV::InstanceLiteral(i) => {
            lemma_fold_wf_dict(lf, i.fields);
        },
        ValueV::Call(c) => {
            lemma_fold_wf_terms(lf, c.args);
            match c.kwargs {
                Some(k) => {
                    lemma_fold_wf_dict(lf, k);
                },
                None => {
                },
            }
        },
        ValueV::List(l) => {
            lemma_fold_wf_terms(lf, l.elements);
        },
        ValueV::Expression(o) => {
            lemma_fold_wf_terms(lf, o.args);
        },
    }
}

/// Fold well-formedness for term sequences.
proof fn lemma_fold_wf_terms(lf: crate::folder::LeafFns, s: Seq<TermV>)
    ensures
        wf_terms_v(spec_fold_terms(lf, s)),
    decreases s,
{
    let r = spec_fold_terms(lf, s);
    lemma_spec_fold_terms(lf, s);
    lemma_wf_terms_pointwise(r);
    assert forall|i: int| 0 <= i < r.len() implies wf_term_v(#[trigger] r[i]) by {
        lemma_fold_wf_term(lf, s[i]);
    }
}

/// Fold well-formedness for dictionaries: the rebuilt entry sequence is
/// sorted and its values are well-formed.
proof fn lemma_fold_wf_dict(lf: crate::folder::LeafFns, d: DictionaryV)
    ensures
        wf_dict_v(crate::folder::spec_fold_dict(lf, d)),
    decreases d,
{
    let folded = spec_fold_entries(lf, d.entries);
    lemma_spec_fold_entries(lf, d.entries);
    assert forall|i: int| 0 <= i < folded.len() implies wf_term_v(#[trigger] folded[i].1) by {
        lemma_fold_wf_term(lf, d.entries[i].1);
    }
    let sorted = sort_entries_v(folded);
    lemma_sort_entries_v_sorted(folded);
    lemma_sort_members(folded);
    lemma_wf_entries_pointwise(sorted);
    assert forall|i: int| 0 <= i < sorted.len() implies wf_term_v(#[trigger] sorted[i].1) by {
        let m = choose|m: int| 0 <= m < folded.len() && folded[m] == sorted[i];
    }
}

} // verus!
