//! A key-sorted association map from `Symbol` to an arbitrary value type.
//!
//! Entries are kept sorted by the strict lexicographic order of the key
//! text, with no duplicate keys, so a map built from the same key/value
//! pairs in any insertion order has the same entry sequence (see
//! [`SymbolMap::lemma_canonical`]). The map doubles as the dictionary
//! container of the term model and as the scope tables of the knowledge
//! base.

use vstd::prelude::*;

use crate::terms::Symbol;

verus! {

broadcast use {vstd::std_specs::vec::group_vec_axioms, vstd::seq::group_seq_axioms};

/// Strict lexicographic order on character sequences.
pub open spec fn lex_lt(a: Seq<char>, b: Seq<char>) -> bool
    decreases a.len(),
{
    if b.len() == 0 {
        false
    } else if a.len() == 0 {
        true
    } else if a[0] == b[0] {
        lex_lt(a.drop_first(), b.drop_first())
    } else {
        a[0] < b[0]
    }
}

/// `lex_lt` is irreflexive and asymmetric, and total on distinct sequences.
pub proof fn lemma_lex_trichotomy(a: Seq<char>, b: Seq<char>)
    ensures
        lex_lt(a, b) || lex_lt(b, a) || a == b,
        !(lex_lt(a, b) && lex_lt(b, a)),
        lex_lt(a, b) ==> a != b,
    decreases a.len(),
{
    if a.len() > 0 && b.len() > 0 && a[0] == b[0] {
        lemma_lex_trichotomy(a.drop_first(), b.drop_first());
        if a.drop_first() == b.drop_first() {
            assert(a =~= b) by {
                assert(a.len() == b.len());
                assert(forall|i: int|
                    0 < i < a.len() ==> #[trigger] a[i] == a.drop_first()[i - 1] && b[i]
                        == b.drop_first()[i - 1]);
            }
        }
        if a == b {
            assert(a.drop_first() =~= b.drop_first());
        }
    } else if a.len() == 0 && b.len() == 0 {
        assert(a =~= b);
    }
}

/// `lex_lt` is transitive.
pub proof fn lemma_lex_transitive(a: Seq<char>, b: Seq<char>, c: Seq<char>)
    requires
        lex_lt(a, b),
        lex_lt(b, c),
    ensures
        lex_lt(a, c),
    decreases a.len() + b.len() + c.len(),
{
    if a.len() > 0 && b.len() > 0 && c.len() > 0 {
        if a[0] == b[0] && b[0] == c[0] {
            lemma_lex_transitive(a.drop_first(), b.drop_first(), c.drop_first());
        }
    }
}

/// Compare two symbols in lexicographic order of their text.
pub fn symbol_lt(a: &Symbol, b: &Symbol) -> (r: bool)
    ensures
        r == lex_lt(a.view(), b.view()),
{
    let a_str = a.0.as_str();
    let b_str = b.0.as_str();
    let a_len = a_str.unicode_len();
    let b_len = b_str.unicode_len();
    let mut i: usize = 0;
    proof {
        assert(a.view().skip(0) =~= a.view());
        assert(b.view().skip(0) =~= b.view());
    }
    loop
        invariant
            i <= a_len,
            i <= b_len,
            a_len == a.view().len(),
            b_len == b.view().len(),
            a_str@ == a.view(),
            b_str@ == b.view(),
            lex_lt(a.view(), b.view()) == lex_lt(
                a.view().skip(i as int),
                b.view().skip(i as int),
            ),
        decreases a_len - i,
    {
        if i == b_len {
            return false;
        }
        if i == a_len {
            return true;
        }
        let ca = a_str.get_char(i);
        let cb = b_str.get_char(i);
        proof {
            lemma_lex_step(a.view().skip(i as int), b.view().skip(i as int));
        }
        if ca != cb {
            return ca < cb;
        }
        i = i + 1;
        proof {
            assert(a.view().skip(i - 1).drop_first() =~= a.view().skip(i as int));
            assert(b.view().skip(i - 1).drop_first() =~= b.view().skip(i as int));
        }
    }
}

/// One step of `lex_lt`: on nonempty sequences it is decided by the first
/// characters, recursing only when they are equal.
proof fn lemma_lex_step(a: Seq<char>, b: Seq<char>)
    ensures
        a.len() > 0 && b.len() > 0 && a[0] == b[0] ==> lex_lt(a, b) == lex_lt(
            a.drop_first(),
            b.drop_first(),
        ),
        a.len() > 0 && b.len() > 0 && a[0] != b[0] ==> lex_lt(a, b) == (a[0] < b[0]),
        b.len() == 0 ==> !lex_lt(a, b),
        a.len() == 0 && b.len() > 0 ==> lex_lt(a, b),
{
}

/// An association map with entries sorted strictly by key text.
#[derive(Debug, PartialEq)]
pub struct SymbolMap<V> {
    pub entries: Vec<(Symbol, V)>,
}

/// The entry sequence with each key abstracted to its text.
pub open spec fn keyed_entries<V>(s: Seq<(Symbol, V)>) -> Seq<(Seq<char>, V)> {
    s.map_values(|p: (Symbol, V)| (p.0.view(), p.1))
}

/// The mapping from key text to value described by an entry sequence; on
/// duplicate keys the earliest entry wins (well-formed sequences have none).
pub open spec fn seq_to_map<V>(s: Seq<(Symbol, V)>) -> Map<Seq<char>, V>
    decreases s,
{
    if s.len() == 0 {
        Map::empty()
    } else {
        seq_to_map(s.drop_first()).insert(s[0].0.view(), s[0].1)
    }
}

/// Sorted insertion into an entry sequence, replacing an equal key.
pub open spec fn spec_insert<V>(s: Seq<(Symbol, V)>, key: Symbol, value: V) -> Seq<(Symbol, V)>
    decreases s,
{
    if s.len() == 0 {
        seq![(key, value)]
    } else if lex_lt(key.view(), s[0].0.view()) {
        seq![(key, value)] + s
    } else if key.view() == s[0].0.view() {
        seq![(key, value)] + s.drop_first()
    } else {
        seq![s[0]] + spec_insert(s.drop_first(), key, value)
    }
}

/// Entry sequences sorted strictly by key text.
pub open spec fn sorted_entries<V>(s: Seq<(Symbol, V)>) -> bool {
    forall|i: int, j: int|
        0 <= i < j < s.len() ==> #[trigger] lex_lt(s[i].0.view(), s[j].0.view())
}

impl<V> SymbolMap<V> {
    /// Well-formed: entries strictly sorted by key text (hence keys unique).
    pub open spec fn wf(&self) -> bool {
        sorted_entries(self.entries@)
    }

    /// The mapping from key text to value that this map holds.
    pub open spec fn as_map(&self) -> Map<Seq<char>, V> {
        seq_to_map(self.entries@)
    }

    pub fn new() -> (r: SymbolMap<V>)
        ensures
            r.wf(),
            r.as_map() == Map::<Seq<char>, V>::empty(),
            r.entries@ == Seq::<(Symbol, V)>::empty(),
    {
        SymbolMap { entries: Vec::new() }
    }

    pub fn len(&self) -> (r: usize)
        ensures
            r == self.entries@.len(),
    {
        self.entries.len()
    }

    /// Look up a key by its text.
    pub fn get(&self, name: &Symbol) -> (r: Option<&V>)
        requires
            self.wf(),
        ensures
            match r {
                Some(v) => self.as_map().contains_key(name.view()) && *v == self.as_map()[
                    name.view()],
                None => !self.as_map().contains_key(name.view()),
            },
    {
        proof {
            lemma_seq_to_map_characterization(self.entries@);
        }
        let n = self.entries.len();
        let mut i: usize = 0;
        while i < n
            invariant
                n == self.entries@.len(),
                i <= n,
                self.wf(),
                forall|j: int| 0 <= j < i ==> self.entries@[j].0.view() != name.view(),
            decreases n - i,
        {
            let entry = &self.entries[i];
            if entry.0.0 == name.0 {
                proof {
                    lemma_seq_to_map_characterization(self.entries@);
                    assert(self.entries@[i as int].0.view() == name.view());
                    assert(self.as_map()[self.entries@[i as int].0.view()] == self.entries@[
                        i as int].1);
                }
                return Some(&entry.1);
            }
            i = i + 1;
        }
        None
    }

    /// Whether a key with the given text is present.
    pub fn contains_key(&self, name: &Symbol) -> (r: bool)
        requires
            self.wf(),
        ensures
            r == self.as_map().contains_key(name.view()),
    {
        match self.get(name) {
            Some(_) => true,
            None => false,
        }
    }

    /// Insert or overwrite a binding, keeping the entries sorted.
    pub fn insert(&mut self, key: Symbol, value: V)
        requires
            old(self).wf(),
        ensures
            final(self).wf(),
            final(self).entries@ == spec_insert(old(self).entries@, key, value),
            final(self).as_map() == old(self).as_map().insert(key.view(), value),
    {
        proof {
            lemma_spec_insert_sorted(self.entries@, key, value);
            lemma_spec_insert_map(self.entries@, key, value);
        }
        let mut taken: Vec<(Symbol, V)> = Vec::new();
        core::mem::swap(&mut taken, &mut self.entries);
        self.entries = insert_inner(taken, key, value);
    }
}

/// Recursive worker for [`SymbolMap::insert`], mirroring [`spec_insert`].
fn insert_inner<V>(s: Vec<(Symbol, V)>, key: Symbol, value: V) -> (r: Vec<(Symbol, V)>)
    ensures
        r@ == spec_insert(s@, key, value),
    decreases s@.len(),
{
    let mut s = s;
    if s.len() == 0 {
        s.push((key, value));
        proof {
            assert(s@ =~= spec_insert(Seq::<(Symbol, V)>::empty(), key, value));
        }
        s
    } else if symbol_lt(&key, &s[0].0) {
        let ghost s0 = s@;
        s.insert(0, (key, value));
        proof {
            assert(s@ =~= seq![(key, value)] + s0);
        }
        s
    } else {
        let ghost s0 = s@;
        let head = s.remove(0);
        if head.0.0 == key.0 {
            proof {
                assert(head.0.view() == key.view());
                lemma_lex_trichotomy(key.view(), head.0.view());
            }
            s.insert(0, (key, value));
            proof {
                assert(s@ =~= seq![(key, value)] + s0.drop_first());
            }
            s
        } else {
            proof {
                lemma_lex_trichotomy(key.view(), head.0.view());
            }
            let mut r = insert_inner(s, key, value);
            r.insert(0, head);
            proof {
                assert(r@ =~= seq![s0[0]] + spec_insert(s0.drop_first(), key, value));
            }
            r
        }
    }
}

/// Every key of the described map comes from some entry, and every entry's
/// key is in the map; on sorted sequences each entry supplies its own value.
pub proof fn lemma_seq_to_map_characterization<V>(s: Seq<(Symbol, V)>)
    ensures
        forall|k: Seq<char>|
            #[trigger] seq_to_map(s).contains_key(k) ==> exists|i: int|
                0 <= i < s.len() && s[i].0.view() == k,
        forall|i: int| 0 <= i < s.len() ==> seq_to_map(s).contains_key(#[trigger] s[i].0.view()),
        sorted_entries(s) ==> forall|i: int|
            0 <= i < s.len() ==> seq_to_map(s)[#[trigger] s[i].0.view()] == s[i].1,
    decreases s,
{
    if s.len() > 0 {
        let rest = s.drop_first();
        lemma_seq_to_map_characterization(rest);
        assert(forall|i: int| 0 < i < s.len() ==> #[trigger] s[i] == rest[i - 1]);
        assert forall|k: Seq<char>| #[trigger] seq_to_map(s).contains_key(k) implies exists|i: int|
            0 <= i < s.len() && s[i].0.view() == k by {
            if k == s[0].0.view() {
                assert(s[0].0.view() == k);
            } else {
                assert(seq_to_map(rest).contains_key(k));
                let i = choose|i: int| 0 <= i < rest.len() && rest[i].0.view() == k;
                assert(s[i + 1].0.view() == k);
            }
        }
        assert forall|i: int| 0 <= i < s.len() implies seq_to_map(s).contains_key(
            #[trigger] s[i].0.view(),
        ) by {
            if i > 0 {
                assert(rest[i - 1].0.view() == s[i].0.view());
                assert(seq_to_map(rest).contains_key(rest[i - 1].0.view()));
                if s[i].0.view() != s[0].0.view() {
                    assert(seq_to_map(s).contains_key(s[i].0.view()));
                }
            }
        }
        if sorted_entries(s) {
            assert forall|i: int, j: int| 0 <= i < j < rest.len() implies #[trigger] lex_lt(
                rest[i].0.view(),
                rest[j].0.view(),
            ) by {
                assert(rest[i] == s[i + 1]);
                assert(rest[j] == s[j + 1]);
            }
            assert forall|i: int|
                0 <= i < s.len() implies seq_to_map(s)[#[trigger] s[i].0.view()] == s[i].1 by {
                if i > 0 {
                    assert(lex_lt(s[0].0.view(), s[i].0.view()));
                    lemma_lex_trichotomy(s[0].0.view(), s[i].0.view());
                }
            }
        }
    }
}

/// Sorted insertion preserves sortedness.
pub proof fn lemma_spec_insert_sorted<V>(s: Seq<(Symbol, V)>, key: Symbol, value: V)
    requires
        sorted_entries(s),
    ensures
        sorted_entries(spec_insert(s, key, value)),
    decreases s,
{
    let r = spec_insert(s, key, value);
    if s.len() == 0 {
    } else if lex_lt(key.view(), s[0].0.view()) {
        assert forall|i: int, j: int| 0 <= i < j < r.len() implies #[trigger] lex_lt(
            r[i].0.view(),
            r[j].0.view(),
        ) by {
            if i == 0 {
                if j > 1 {
                    lemma_lex_transitive(key.view(), s[0].0.view(), s[j - 1].0.view());
                }
            }
        }
    } else if key.view() == s[0].0.view() {
        assert forall|i: int, j: int| 0 <= i < j < r.len() implies #[trigger] lex_lt(
            r[i].0.view(),
            r[j].0.view(),
        ) by {
            assert(r[j] == s[j]);
            if i == 0 {
                assert(lex_lt(s[0].0.view(), s[j].0.view()));
            } else {
                assert(r[i] == s[i]);
            }
        }
    } else {
        let rest = s.drop_first();
        assert forall|i: int, j: int| 0 <= i < j < rest.len() implies #[trigger] lex_lt(
            rest[i].0.view(),
            rest[j].0.view(),
        ) by {
            assert(rest[i] == s[i + 1]);
            assert(rest[j] == s[j + 1]);
        }
        lemma_spec_insert_sorted(rest, key, value);
        lemma_lex_trichotomy(key.view(), s[0].0.view());
        let rr = spec_insert(rest, key, value);
        lemma_spec_insert_keys(rest, key, value);
        assert forall|i: int, j: int| 0 <= i < j < r.len() implies #[trigger] lex_lt(
            r[i].0.view(),
            r[j].0.view(),
        ) by {
            if i == 0 {
                assert(r[j] == rr[j - 1]);
                if rr[j - 1].0.view() == key.view() {
                    assert(lex_lt(s[0].0.view(), key.view()));
                } else {
                    let m = choose|m: int| 0 <= m < rest.len() && rest[m] == rr[j - 1];
                    assert(lex_lt(s[0].0.view(), rest[m].0.view()));
                }
            } else {
                assert(r[i] == rr[i - 1]);
                assert(r[j] == rr[j - 1]);
            }
        }
    }
}

/// Every entry of an insertion result carries the new key or an old entry.
proof fn lemma_spec_insert_keys<V>(s: Seq<(Symbol, V)>, key: Symbol, value: V)
    ensures
        forall|i: int|
            0 <= i < spec_insert(s, key, value).len() ==> (#[trigger] spec_insert(
                s,
                key,
                value,
            )[i]).0.view() == key.view() || exists|m: int|
                0 <= m < s.len() && s[m] == spec_insert(s, key, value)[i],
    decreases s,
{
    let r = spec_insert(s, key, value);
    if s.len() == 0 {
    } else if lex_lt(key.view(), s[0].0.view()) {
        assert(forall|i: int| 0 < i < r.len() ==> r[i] == s[i - 1]);
    } else if key.view() == s[0].0.view() {
        assert(forall|i: int| 0 < i < r.len() ==> r[i] == s.drop_first()[i - 1] && s.drop_first()[
            i - 1] == s[i]);
    } else {
        let rest = s.drop_first();
        lemma_spec_insert_keys(rest, key, value);
        let rr = spec_insert(rest, key, value);
        assert forall|i: int|
            0 <= i < r.len() implies (#[trigger] r[i]).0.view() == key.view() || exists|m: int|
            0 <= m < s.len() && s[m] == r[i] by {
            if i == 0 {
                assert(s[0] == r[0]);
            } else {
                assert(r[i] == rr[i - 1]);
                if rr[i - 1].0.view() != key.view() {
                    let m = choose|m: int| 0 <= m < rest.len() && rest[m] == rr[i - 1];
                    assert(s[m + 1] == r[i]);
                }
            }
        }
    }
}

/// Sorted insertion updates the described mapping at exactly the new key.
pub proof fn lemma_spec_insert_map<V>(s: Seq<(Symbol, V)>, key: Symbol, value: V)
    ensures
        seq_to_map(spec_insert(s, key, value)) == seq_to_map(s).insert(key.view(), value),
    decreases s,
{
    let r = spec_insert(s, key, value);
    if s.len() == 0 {
        assert(r[0] == (key, value));
        assert(r.drop_first() =~= Seq::<(Symbol, V)>::empty());
        assert(seq_to_map(Seq::<(Symbol, V)>::empty()) == Map::<Seq<char>, V>::empty());
        assert(seq_to_map(r) =~= seq_to_map(s).insert(key.view(), value));
    } else if lex_lt(key.view(), s[0].0.view()) {
        assert(r.drop_first() =~= s);
        assert(r[0] == (key, value));
        assert(seq_to_map(r) == seq_to_map(s).insert(key.view(), value));
    } else if key.view() == s[0].0.view() {
        assert(r.drop_first() =~= s.drop_first());
        assert(r[0] == (key, value));
        assert(seq_to_map(r) == seq_to_map(s.drop_first()).insert(key.view(), value));
        assert(seq_to_map(s) == seq_to_map(s.drop_first()).insert(s[0].0.view(), s[0].1));
        assert(seq_to_map(r) =~= seq_to_map(s).insert(key.view(), value));
    } else {
        let rest = s.drop_first();
        lemma_spec_insert_map(rest, key, value);
        lemma_lex_trichotomy(key.view(), s[0].0.view());
        assert(r.drop_first() =~= spec_insert(rest, key, value));
        assert(r[0] == s[0]);
        assert(seq_to_map(r) == seq_to_map(spec_insert(rest, key, value)).insert(
            s[0].0.view(),
            s[0].1,
        ));
        assert(seq_to_map(r) == seq_to_map(rest).insert(key.view(), value).insert(
            s[0].0.view(),
            s[0].1,
        ));
        assert(seq_to_map(s) == seq_to_map(rest).insert(s[0].0.view(), s[0].1));
        assert(key.view() != s[0].0.view());
        let lhs = seq_to_map(r);
        let rhs = seq_to_map(s).insert(key.view(), value);
        assert forall|k: Seq<char>| #![auto] lhs.contains_key(k) == rhs.contains_key(k) && (
        lhs.contains_key(k) ==> lhs[k] == rhs[k]) by {
            if k == s[0].0.view() {
                assert(lhs[k] == s[0].1);
                assert(rhs[k] == s[0].1);
            } else if k == key.view() {
                assert(lhs[k] == value);
                assert(rhs[k] == value);
            }
        }
        assert(lhs =~= rhs);
    }
}

impl<V> SymbolMap<V> {
    /// Two well-formed maps describing the same mapping hold the same keyed
    /// entries in the same order: construction order does not matter.
    pub proof fn lemma_canonical(m1: SymbolMap<V>, m2: SymbolMap<V>)
        requires
            m1.wf(),
            m2.wf(),
            m1.as_map() == m2.as_map(),
        ensures
            keyed_entries(m1.entries@) == keyed_entries(m2.entries@),
    {
        lemma_sorted_canonical(m1.entries@, m2.entries@);
    }
}

/// Two sorted entry sequences describing the same mapping agree keyed-entry
/// by keyed-entry.
proof fn lemma_sorted_canonical<V>(s1: Seq<(Symbol, V)>, s2: Seq<(Symbol, V)>)
    requires
        sorted_entries(s1),
        sorted_entries(s2),
        seq_to_map(s1) == seq_to_map(s2),
    ensures
        keyed_entries(s1) == keyed_entries(s2),
    decreases s1.len(),
{
    lemma_seq_to_map_characterization(s1);
    lemma_seq_to_map_characterization(s2);
    if s1.len() == 0 && s2.len() == 0 {
        assert(keyed_entries(s1) =~= keyed_entries(s2));
    } else if s1.len() == 0 {
        assert(seq_to_map(s2).contains_key(s2[0].0.view()));
        assert(false);
    } else if s2.len() == 0 {
        assert(seq_to_map(s1).contains_key(s1[0].0.view()));
        assert(false);
    } else {
        // The head key of each sorted sequence is the minimum key of the
        // shared mapping, so the heads agree.
        assert(seq_to_map(s2).contains_key(s1[0].0.view()));
        let i2 = choose|i: int| 0 <= i < s2.len() && s2[i].0.view() == s1[0].0.view();
        assert(seq_to_map(s1).contains_key(s2[0].0.view()));
        let i1 = choose|i: int| 0 <= i < s1.len() && s1[i].0.view() == s2[0].0.view();
        if i2 > 0 {
            assert(lex_lt(s2[0].0.view(), s1[0].0.view()));
            if i1 > 0 {
                assert(lex_lt(s1[0].0.view(), s2[0].0.view()));
                lemma_lex_trichotomy(s1[0].0.view(), s2[0].0.view());
                assert(false);
            }
        }
        assert(s1[0].0.view() == s2[0].0.view());
        assert(s1[0].1 == seq_to_map(s1)[s1[0].0.view()]);
        assert(s2[0].1 == seq_to_map(s2)[s2[0].0.view()]);
        let r1 = s1.drop_first();
        let r2 = s2.drop_first();
        assert forall|i: int, j: int| 0 <= i < j < r1.len() implies #[trigger] lex_lt(
            r1[i].0.view(),
            r1[j].0.view(),
        ) by {
            assert(r1[i] == s1[i + 1] && r1[j] == s1[j + 1]);
        }
        assert forall|i: int, j: int| 0 <= i < j < r2.len() implies #[trigger] lex_lt(
            r2[i].0.view(),
            r2[j].0.view(),
        ) by {
            assert(r2[i] == s2[i + 1] && r2[j] == s2[j + 1]);
        }
        lemma_seq_to_map_characterization(r1);
        lemma_seq_to_map_characterization(r2);
        assert(seq_to_map(r1) =~= seq_to_map(r2)) by {
            assert forall|k: Seq<char>| #![auto]
                seq_to_map(r1).contains_key(k) == seq_to_map(r2).contains_key(k) && (seq_to_map(
                    r1,
                ).contains_key(k) ==> seq_to_map(r1)[k] == seq_to_map(r2)[k]) by {
                lemma_drop_first_map(s1, k);
                lemma_drop_first_map(s2, k);
            }
        }
        lemma_sorted_canonical(r1, r2);
        assert(s1.len() == s2.len()) by {
            assert(keyed_entries(r1).len() == r1.len());
            assert(keyed_entries(r2).len() == r2.len());
        }
        assert(keyed_entries(s1) =~= keyed_entries(s2)) by {
            assert forall|i: int|
                0 <= i < s1.len() implies #[trigger] keyed_entries(s1)[i] == keyed_entries(
                s2,
            )[i] by {
                assert(keyed_entries(s1)[i] == (s1[i].0.view(), s1[i].1));
                assert(keyed_entries(s2)[i] == (s2[i].0.view(), s2[i].1));
                if i > 0 {
                    assert(s1[i] == r1[i - 1]);
                    assert(s2[i] == r2[i - 1]);
                    assert(keyed_entries(r1)[i - 1] == (r1[i - 1].0.view(), r1[i - 1].1));
                    assert(keyed_entries(r2)[i - 1] == (r2[i - 1].0.view(), r2[i - 1].1));
                    assert(keyed_entries(r1)[i - 1] == keyed_entries(r2)[i - 1]);
                }
            }
        }
    }
}

/// On a sorted sequence, dropping the head removes exactly the head key
/// from the described mapping.
proof fn lemma_drop_first_map<V>(s: Seq<(Symbol, V)>, k: Seq<char>)
    requires
        sorted_entries(s),
        s.len() > 0,
    ensures
        k != s[0].0.view() ==> (seq_to_map(s.drop_first()).contains_key(k) == seq_to_map(
            s,
        ).contains_key(k) && (seq_to_map(s).contains_key(k) ==> seq_to_map(s.drop_first())[k]
            == seq_to_map(s)[k])),
        !seq_to_map(s.drop_first()).contains_key(s[0].0.view()),
{
    lemma_seq_to_map_characterization(s.drop_first());
    if seq_to_map(s.drop_first()).contains_key(s[0].0.view()) {
        let i = choose|i: int|
            0 <= i < s.drop_first().len() && s.drop_first()[i].0.view() == s[0].0.view();
        assert(s.drop_first()[i] == s[i + 1]);
        assert(lex_lt(s[0].0.view(), s[i + 1].0.view()));
        lemma_lex_trichotomy(s[0].0.view(), s[i + 1].0.view());
        assert(false);
    }
}

/// Removal of a key from an entry sequence.
pub open spec fn spec_remove<V>(s: Seq<(Symbol, V)>, key: Seq<char>) -> Seq<(Symbol, V)>
    decreases s,
{
    if s.len() == 0 {
        s
    } else if s[0].0.view() == key {
        s.drop_first()
    } else {
        seq![s[0]] + spec_remove(s.drop_first(), key)
    }
}

/// Removal preserves sortedness and removes exactly the given key from the
/// described mapping (on sorted sequences).
pub proof fn lemma_spec_remove<V>(s: Seq<(Symbol, V)>, key: Seq<char>)
    requires
        sorted_entries(s),
    ensures
        sorted_entries(spec_remove(s, key)),
        seq_to_map(spec_remove(s, key)) == seq_to_map(s).remove(key),
    decreases s,
{
    let r = spec_remove(s, key);
    lemma_seq_to_map_characterization(s);
    if s.len() == 0 {
        assert(seq_to_map(r) =~= seq_to_map(s).remove(key));
    } else {
        let rest = s.drop_first();
        assert forall|i: int, j: int| 0 <= i < j < rest.len() implies #[trigger] lex_lt(
            rest[i].0.view(),
            rest[j].0.view(),
        ) by {
            assert(rest[i] == s[i + 1]);
            assert(rest[j] == s[j + 1]);
        }
        lemma_seq_to_map_characterization(rest);
        if s[0].0.view() == key {
            assert forall|k: Seq<char>| #![auto]
                seq_to_map(r).contains_key(k) == seq_to_map(s).remove(key).contains_key(k) && (
                seq_to_map(r).contains_key(k) ==> seq_to_map(r)[k] == seq_to_map(s).remove(
                    key,
                )[k]) by {
                if k == key {
                    if seq_to_map(rest).contains_key(k) {
                        let i = choose|i: int| 0 <= i < rest.len() && rest[i].0.view() == k;
                        assert(rest[i] == s[i + 1]);
                        assert(lex_lt(s[0].0.view(), s[i + 1].0.view()));
                        lemma_lex_trichotomy(s[0].0.view(), s[i + 1].0.view());
                        assert(false);
                    }
                }
            }
            assert(seq_to_map(r) =~= seq_to_map(s).remove(key));
        } else {
            lemma_spec_remove(rest, key);
            let rr = spec_remove(rest, key);
            lemma_seq_to_map_characterization(rr);
            assert(r[0] == s[0]);
            assert(r.drop_first() =~= rr);
            assert(seq_to_map(r) == seq_to_map(rr).insert(s[0].0.view(), s[0].1));
            assert(seq_to_map(r) =~= seq_to_map(s).remove(key));
            assert forall|i: int, j: int| 0 <= i < j < r.len() implies #[trigger] lex_lt(
                r[i].0.view(),
                r[j].0.view(),
            ) by {
                if i == 0 {
                    assert(r[j] == rr[j - 1]);
                    if seq_to_map(rr).contains_key(rr[j - 1].0.view()) {
                        assert(seq_to_map(rest).remove(key).contains_key(rr[j - 1].0.view()));
                        let mm = choose|mm: int|
                            0 <= mm < rest.len() && rest[mm].0.view() == rr[j - 1].0.view();
                        assert(rest[mm] == s[mm + 1]);
                        assert(lex_lt(s[0].0.view(), s[mm + 1].0.view()));
                    }
                } else {
                    assert(r[i] == rr[i - 1]);
                    assert(r[j] == rr[j - 1]);
                }
            }
        }
    }
}

/// Recursive worker for [`SymbolMap::remove`], mirroring [`spec_remove`].
fn remove_inner<V>(s: Vec<(Symbol, V)>, key: &Symbol) -> (res: (Vec<(Symbol, V)>, Option<V>))
    ensures
        res.0@ == spec_remove(s@, key.view()),
        match res.1 {
            Some(v) => exists|i: int| 0 <= i < s@.len() && s@[i].0.view() == key.view() && s@[i].1
                == v,
            None => forall|i: int| 0 <= i < s@.len() ==> s@[i].0.view() != key.view(),
        },
    decreases s@.len(),
{
    let mut s = s;
    if s.len() == 0 {
        (s, None)
    } else {
        let ghost s0 = s@;
        let head = s.remove(0);
        if head.0.0 == key.0 {
            proof {
                assert(s0[0].0.view() == key.view());
                assert(s0[0].1 == head.1);
                assert(s@ =~= spec_remove(s0, key.view()));
            }
            (s, Some(head.1))
        } else {
            let (mut r, found) = remove_inner(s, key);
            r.insert(0, head);
            proof {
                assert(r@ =~= seq![s0[0]] + spec_remove(s0.drop_first(), key.view()));
                assert(forall|i: int|
                    0 < i < s0.len() ==> s0[i] == #[trigger] s0.drop_first()[i - 1]);
                if found is Some {
                    let v = found.unwrap();
                    let i = choose|i: int|
                        0 <= i < s0.drop_first().len() && s0.drop_first()[i].0.view()
                            == key.view() && s0.drop_first()[i].1 == v;
                    assert(s0[i + 1].0.view() == key.view() && s0[i + 1].1 == v);
                } else {
                    assert forall|i: int| 0 <= i < s0.len() implies s0[i].0.view()
                        != key.view() by {
                        if i > 0 {
                            assert(s0[i] == s0.drop_first()[i - 1]);
                            assert(s0.drop_first()[i - 1].0.view() != key.view());
                        }
                    }
                }
            }
            (r, found)
        }
    }
}

impl<V> SymbolMap<V> {
    /// Remove a binding by key text, returning its value if present.
    pub fn remove(&mut self, key: &Symbol) -> (r: Option<V>)
        requires
            old(self).wf(),
        ensures
            final(self).wf(),
            final(self).entries@ == spec_remove(old(self).entries@, key.view()),
            final(self).as_map() == old(self).as_map().remove(key.view()),
            match r {
                Some(v) => old(self).as_map().contains_key(key.view()) && v == old(self).as_map()[
                    key.view()],
                None => !old(self).as_map().contains_key(key.view()),
            },
    {
        proof {
            lemma_spec_remove(self.entries@, key.view());
            lemma_seq_to_map_characterization(self.entries@);
        }
        let mut taken: Vec<(Symbol, V)> = Vec::new();
        core::mem::swap(&mut taken, &mut self.entries);
        let (kept, found) = remove_inner(taken, key);
        self.entries = kept;
        found
    }
}

} // verus!
