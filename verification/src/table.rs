//! An association table keyed by strings, kept in key order.
use vstd::prelude::*;
use vstd::seq_lib::seq_to_set_is_finite;

use crate::text::{
    lemma_str_lt_irreflexive, lemma_str_lt_total, lemma_str_lt_transitive, str_eq, str_less,
    str_lt,
};

verus! {

/// Strictly increasing in dictionary order, hence without duplicates.
pub open spec fn ascending(ks: Seq<Seq<char>>) -> bool {
    forall|i: int, j: int| 0 <= i < j < ks.len() ==> str_lt(#[trigger] ks[i], #[trigger] ks[j])
}

/// Two ascending sequences with the same members are the same sequence, so
/// the key order of a table is a function of its key set.
pub proof fn law_ascending_is_canonical(a: Seq<Seq<char>>, b: Seq<Seq<char>>)
    requires
        ascending(a),
        ascending(b),
        forall|k: Seq<char>| #[trigger] a.contains(k) <==> b.contains(k),
    ensures
        a == b,
    decreases a.len(),
{
    if a.len() == 0 {
        if b.len() > 0 {
            assert(b.contains(b[0]));
            assert(a.contains(b[0]));
        }
        assert(a =~= b);
    } else {
        assert(a.contains(a[0]));
        assert(b.len() > 0);
        assert(b.contains(b[0]));
        assert(a.contains(b[0]));
        let x = a[0];
        let y = b[0];
        let i = choose|i: int| 0 <= i < b.len() && b[i] == x;
        let j = choose|j: int| 0 <= j < a.len() && a[j] == y;
        if x != y {
            assert(str_lt(b[0], b[i]));
            assert(str_lt(a[0], a[j]));
            lemma_str_lt_transitive(x, y, x);
            lemma_str_lt_irreflexive(x);
        }
        let p = a.skip(1);
        let q = b.skip(1);
        assert(ascending(p)) by {
            assert forall|i: int, j: int| 0 <= i < j < p.len() implies str_lt(
                #[trigger] p[i],
                #[trigger] p[j],
            ) by {
                assert(p[i] == a[i + 1] && p[j] == a[j + 1]);
            }
        }
        assert(ascending(q)) by {
            assert forall|i: int, j: int| 0 <= i < j < q.len() implies str_lt(
                #[trigger] q[i],
                #[trigger] q[j],
            ) by {
                assert(q[i] == b[i + 1] && q[j] == b[j + 1]);
            }
        }
        assert forall|k: Seq<char>| #[trigger] p.contains(k) <==> q.contains(k) by {
            if p.contains(k) {
                let m = choose|m: int| 0 <= m < p.len() && p[m] == k;
                assert(a[m + 1] == k);
                assert(a.contains(k));
                let n = choose|n: int| 0 <= n < b.len() && b[n] == k;
                assert(str_lt(a[0], a[m + 1]));
                lemma_str_lt_irreflexive(k);
                assert(n != 0);
                assert(q[n - 1] == k);
            }
            if q.contains(k) {
                let m = choose|m: int| 0 <= m < q.len() && q[m] == k;
                assert(b[m + 1] == k);
                assert(b.contains(k));
                assert(a.contains(k));
                let n = choose|n: int| 0 <= n < a.len() && a[n] == k;
                assert(str_lt(b[0], b[m + 1]));
                lemma_str_lt_irreflexive(k);
                assert(n != 0);
                assert(p[n - 1] == k);
            }
        }
        law_ascending_is_canonical(p, q);
        assert(a =~= seq![x] + p);
        assert(b =~= seq![y] + q);
    }
}

/// A map from strings to values that hands its entries out in key order.
#[derive(Debug)]
pub struct Table<V> {
    entries: Vec<(String, V)>,
}

spec fn entry_keys<V>(e: Seq<(String, V)>) -> Seq<Seq<char>> {
    e.map_values(|p: (String, V)| p.0@)
}

spec fn entry_map<V>(e: Seq<(String, V)>) -> Map<Seq<char>, V> {
    Map::new(
        |k: Seq<char>| entry_keys(e).contains(k),
        |k: Seq<char>| e[entry_keys(e).index_of(k)].1,
    )
}

proof fn lemma_position<V>(e: Seq<(String, V)>, i: int)
    requires
        ascending(entry_keys(e)),
        0 <= i < e.len(),
    ensures
        entry_keys(e).index_of(e[i].0@) == i,
        entry_map(e).contains_key(e[i].0@),
        entry_map(e)[e[i].0@] == e[i].1,
{
    let ks = entry_keys(e);
    assert(ks[i] == e[i].0@);
    assert(ks.contains(e[i].0@));
    let j = ks.index_of(e[i].0@);
    assert(0 <= j < ks.len() && ks[j] == ks[i]);
    if j < i {
        assert(str_lt(ks[j], ks[i]));
        lemma_str_lt_irreflexive(ks[i]);
    } else if i < j {
        assert(str_lt(ks[i], ks[j]));
        lemma_str_lt_irreflexive(ks[i]);
    }
}

impl<V> View for Table<V> {
    type V = Map<Seq<char>, V>;

    closed spec fn view(&self) -> Map<Seq<char>, V> {
        entry_map(self.entries@)
    }
}

impl<V> Table<V> {
    /// The keys in the order in which the table hands its entries out.
    pub closed spec fn keys(&self) -> Seq<Seq<char>> {
        entry_keys(self.entries@)
    }

    #[verifier::type_invariant]
    spec fn inv(&self) -> bool {
        ascending(entry_keys(self.entries@))
    }

    pub fn new() -> (t: Self)
        ensures
            t@ == Map::<Seq<char>, V>::empty(),
            t.keys() == Seq::<Seq<char>>::empty(),
    {
        let entries: Vec<(String, V)> = Vec::new();
        assert(entry_keys(entries@) =~= Seq::<Seq<char>>::empty());
        assert(entry_map(entries@) =~= Map::<Seq<char>, V>::empty());
        Table { entries }
    }

    /// A table holds finitely many entries.
    pub proof fn lemma_finite(self)
        ensures
            self@.dom().finite(),
    {
        let ks = self.keys();
        seq_to_set_is_finite(ks);
        assert(ks.to_set() =~= self@.dom());
    }

    pub fn len(&self) -> (n: usize)
        ensures
            n == self.keys().len(),
            n == self@.dom().len(),
            self@.dom().finite(),
    {
        proof {
            use_type_invariant(self);
            let ks = self.keys();
            assert(ks.no_duplicates()) by {
                assert forall|i: int, j: int| 0 <= i < j < ks.len() implies ks[i] != ks[j] by {
                    assert(str_lt(ks[i], ks[j]));
                    lemma_str_lt_irreflexive(ks[i]);
                }
            }
            ks.unique_seq_to_set();
            assert(ks.to_set() =~= self@.dom());
        }
        self.entries.len()
    }

    /// The first index whose key is not below `key`.
    fn slot(&self, key: &str) -> (i: usize)
        ensures
            i <= self.entries@.len(),
            forall|j: int| 0 <= j < i ==> str_lt(#[trigger] self.entries@[j].0@, key@),
            i < self.entries@.len() ==> !str_lt(self.entries@[i as int].0@, key@),
    {
        let mut i: usize = 0;
        while i < self.entries.len() && str_less(self.entries[i].0.as_str(), key)
            invariant
                i <= self.entries@.len(),
                forall|j: int| 0 <= j < i ==> str_lt(#[trigger] self.entries@[j].0@, key@),
            decreases self.entries.len() - i,
        {
            i += 1;
        }
        i
    }

    /// The index of `key`, where the table holds it.
    fn locate(&self, key: &str) -> (r: Option<usize>)
        ensures
            r is Some <==> self@.contains_key(key@),
            r matches Some(i) ==> i < self.entries@.len() && self.entries@[i as int].0@ == key@
                && self.entries@[i as int].1 == self@[key@],
    {
        proof {
            use_type_invariant(self);
        }
        let i = self.slot(key);
        if i < self.entries.len() && str_eq(self.entries[i].0.as_str(), key) {
            proof {
                lemma_position(self.entries@, i as int);
            }
            Some(i)
        } else {
            proof {
                let ks = self.keys();
                if ks.contains(key@) {
                    let j = choose|j: int| 0 <= j < ks.len() && ks[j] == key@;
                    assert(ks[j] == self.entries@[j].0@);
                    if j < i {
                        lemma_str_lt_irreflexive(key@);
                    } else if j > i {
                        assert(ks[i as int] == self.entries@[i as int].0@);
                        assert(str_lt(ks[i as int], ks[j]));
                    }
                }
            }
            None
        }
    }

    pub fn get(&self, key: &str) -> (r: Option<&V>)
        ensures
            match r {
                Some(v) => self@.contains_key(key@) && *v == self@[key@],
                None => !self@.contains_key(key@),
            },
    {
        match self.locate(key) {
            Some(i) => Some(&self.entries[i].1),
            None => None,
        }
    }

    pub fn contains(&self, key: &str) -> (r: bool)
        ensures
            r == self@.contains_key(key@),
    {
        self.locate(key).is_some()
    }

    /// Removes `key`; hands back the value it had.
    pub fn remove(&mut self, key: &str) -> (r: Option<V>)
        ensures
            final(self)@ == old(self)@.remove(key@),
            match r {
                Some(v) => old(self)@.contains_key(key@) && v == old(self)@[key@],
                None => !old(self)@.contains_key(key@),
            },
    {
        proof {
            use_type_invariant(&*self);
        }
        match self.locate(key) {
            Some(i) => {
                let ghost before = self.entries@;
                proof {
                    lemma_remove_entry(before, i as int);
                }
                let mut entries: Vec<(String, V)> = Vec::new();
                core::mem::swap(&mut self.entries, &mut entries);
                let e = entries.remove(i);
                core::mem::swap(&mut self.entries, &mut entries);
                Some(e.1)
            },
            None => {
                proof {
                    assert(self@.remove(key@) =~= self@);
                }
                None
            },
        }
    }

    /// Sets `key` to `value`; hands back the value it had before.
    pub fn insert(&mut self, key: String, value: V) -> (r: Option<V>)
        ensures
            final(self)@ == old(self)@.insert(key@, value),
            match r {
                Some(v) => old(self)@.contains_key(key@) && v == old(self)@[key@],
                None => !old(self)@.contains_key(key@),
            },
    {
        let r = self.remove(key.as_str());
        proof {
            use_type_invariant(&*self);
        }
        let ghost before = self.entries@;
        let i = self.slot(key.as_str());
        proof {
            lemma_insert_entry(before, i as int, key, value);
            assert(old(self)@.remove(key@).insert(key@, value) =~= old(self)@.insert(key@, value));
        }
        let mut entries: Vec<(String, V)> = Vec::new();
        core::mem::swap(&mut self.entries, &mut entries);
        entries.insert(i, (key, value));
        core::mem::swap(&mut self.entries, &mut entries);
        r
    }

    /// The values in key order.
    pub fn values(&self) -> (r: Vec<&V>)
        ensures
            ascending(self.keys()),
            forall|k: Seq<char>| #[trigger] self.keys().contains(k) <==> self@.contains_key(k),
            r@.len() == self.keys().len(),
            forall|i: int| 0 <= i < r@.len() ==> *(#[trigger] r@[i]) == self@[self.keys()[i]],
    {
        proof {
            use_type_invariant(self);
        }
        let mut r: Vec<&V> = Vec::new();
        let mut i: usize = 0;
        while i < self.entries.len()
            invariant
                i <= self.entries@.len(),
                ascending(self.keys()),
                r@.len() == i,
                forall|j: int| 0 <= j < i ==> *(#[trigger] r@[j]) == self@[self.keys()[j]],
            decreases self.entries.len() - i,
        {
            proof {
                lemma_position(self.entries@, i as int);
                assert(self.keys()[i as int] == self.entries@[i as int].0@);
            }
            r.push(&self.entries[i].1);
            i += 1;
        }
        r
    }

    /// The keys in order.
    pub fn key_list(&self) -> (r: Vec<String>)
        ensures
            ascending(self.keys()),
            forall|k: Seq<char>| #[trigger] self.keys().contains(k) <==> self@.contains_key(k),
            crate::text::views(r@) == self.keys(),
    {
        proof {
            use_type_invariant(self);
        }
        let mut r: Vec<String> = Vec::new();
        let mut i: usize = 0;
        while i < self.entries.len()
            invariant
                i <= self.entries@.len(),
                r@.len() == i,
                forall|j: int| 0 <= j < i ==> #[trigger] r@[j]@ == self.keys()[j],
            decreases self.entries.len() - i,
        {
            r.push(self.entries[i].0.clone());
            assert(self.keys()[i as int] == self.entries@[i as int].0@);
            i += 1;
        }
        assert(crate::text::views(r@) =~= self.keys());
        r
    }
}

pub proof fn lemma_take_next_contains<A>(s: Seq<A>, i: int, a: A)
    requires
        0 <= i < s.len(),
    ensures
        s.take(i + 1).contains(a) <==> s.take(i).contains(a) || s[i] == a,
{
    let t = s.take(i + 1);
    let u = s.take(i);
    if t.contains(a) {
        let j = choose|j: int| 0 <= j < t.len() && t[j] == a;
        if j < i {
            assert(u[j] == a);
        }
    }
    if u.contains(a) {
        let j = choose|j: int| 0 <= j < u.len() && u[j] == a;
        assert(t[j] == a);
    }
    assert(t[i] == s[i]);
}

/// A value that can be duplicated exactly.
pub trait Record: Sized {
    fn duplicate(&self) -> (r: Self)
        ensures
            r == *self,
    ;
}

impl<V: Record> Table<V> {
    /// Copies of the values, in key order.
    pub fn list(&self) -> (r: Vec<V>)
        ensures
            ascending(self.keys()),
            forall|k: Seq<char>| #[trigger] self.keys().contains(k) <==> self@.contains_key(k),
            r@ == self.keys().map_values(|k: Seq<char>| self@[k]),
    {
        let refs = self.values();
        let mut r: Vec<V> = Vec::new();
        let mut i: usize = 0;
        while i < refs.len()
            invariant
                i <= refs.len(),
                r@.len() == i,
                refs@.len() == self.keys().len(),
                forall|j: int|
                    0 <= j < refs@.len() ==> *(#[trigger] refs@[j]) == self@[self.keys()[j]],
                forall|j: int| 0 <= j < i ==> #[trigger] r@[j] == self@[self.keys()[j]],
            decreases refs.len() - i,
        {
            assert(*refs@[i as int] == self@[self.keys()[i as int]]);
            r.push(refs[i].duplicate());
            i += 1;
        }
        assert(r@ =~= self.keys().map_values(|k: Seq<char>| self@[k]));
        r
    }

    /// A copy of the value of `key`.
    pub fn get_copy(&self, key: &str) -> (r: Option<V>)
        ensures
            r == self@.get(key@),
    {
        match self.get(key) {
            Some(v) => Some(v.duplicate()),
            None => None,
        }
    }

    pub fn copy(&self) -> (r: Self)
        ensures
            r@ == self@,
            r.keys() == self.keys(),
    {
        let keys = self.key_list();
        let ghost ks = crate::text::views(keys@);
        let mut r: Table<V> = Table::new();
        let mut i: usize = 0;
        while i < keys.len()
            invariant
                i <= keys.len(),
                ks == crate::text::views(keys@),
                ks == self.keys(),
                forall|k: Seq<char>| #[trigger] ks.contains(k) <==> self@.contains_key(k),
                forall|k: Seq<char>| #[trigger] r@.contains_key(k) <==> ks.take(i as int).contains(k),
                forall|k: Seq<char>| #[trigger] r@.contains_key(k) ==> r@[k] == self@[k],
            decreases keys.len() - i,
        {
            let ghost before = r@;
            proof {
                assert(ks[i as int] == keys@[i as int]@);
                assert(ks.contains(ks[i as int]));
            }
            match self.get_copy(keys[i].as_str()) {
                Some(v) => {
                    let _ = r.insert(keys[i].clone(), v);
                },
                None => {},
            }
            proof {
                assert forall|k: Seq<char>| #[trigger]
                    r@.contains_key(k) <==> ks.take(i + 1).contains(k) by {
                    lemma_take_next_contains(ks, i as int, k);
                    assert(before.contains_key(k) <==> ks.take(i as int).contains(k));
                }
            }
            i += 1;
        }
        proof {
            assert(ks.take(i as int) =~= ks);
            assert forall|k: Seq<char>| #[trigger] r@.contains_key(k) <==> self@.contains_key(k) by {
                assert(ks.contains(k) <==> self@.contains_key(k));
            }
            assert(r@ =~= self@);
        }
        let rk = r.key_list();
        proof {
            assert forall|k: Seq<char>| #[trigger] r.keys().contains(k) <==> self.keys().contains(
                k,
            ) by {}
            law_ascending_is_canonical(r.keys(), self.keys());
        }
        r
    }
}

impl<V> Table<V> {
    /// Removes each of `keys`; says how many of them were there.
    pub fn remove_all(&mut self, keys: &Vec<String>) -> (n: usize)
        ensures
            forall|k: Seq<char>| #[trigger]
                final(self)@.contains_key(k) <==> old(self)@.contains_key(k) && !crate::text::views(
                    keys@,
                ).contains(k),
            forall|k: Seq<char>| #[trigger]
                final(self)@.contains_key(k) ==> final(self)@[k] == old(self)@[k],
            n == old(self)@.dom().len() - final(self)@.dom().len(),
    {
        let ghost ks = crate::text::views(keys@);
        let start: usize = self.len();
        let mut n: usize = 0;
        let mut i: usize = 0;
        while i < keys.len()
            invariant
                i <= keys.len(),
                ks == crate::text::views(keys@),
                start == old(self)@.dom().len(),
                forall|k: Seq<char>| #[trigger]
                    self@.contains_key(k) <==> old(self)@.contains_key(k) && !ks.take(
                        i as int,
                    ).contains(k),
                forall|k: Seq<char>| #[trigger]
                    self@.contains_key(k) ==> self@[k] == old(self)@[k],
                self@.dom().finite(),
                n == old(self)@.dom().len() - self@.dom().len(),
            decreases keys.len() - i,
        {
            let ghost before = self@;
            let r = self.remove(keys[i].as_str());
            let left: usize = self.len();
            proof {
                assert(ks[i as int] == keys@[i as int]@);
                assert forall|k: Seq<char>| #[trigger]
                    self@.contains_key(k) <==> old(self)@.contains_key(k) && !ks.take(
                        i + 1,
                    ).contains(k) by {
                    lemma_take_next_contains(ks, i as int, k);
                    assert(before.contains_key(k) <==> old(self)@.contains_key(k) && !ks.take(
                        i as int,
                    ).contains(k));
                }
                assert(self@.dom() =~= before.dom().remove(ks[i as int]));
            }
            if r.is_some() {
                n += 1;
            }
            i += 1;
        }
        assert(ks.take(i as int) =~= ks);
        n
    }
}

proof fn lemma_remove_entry<V>(e: Seq<(String, V)>, i: int)
    requires
        ascending(entry_keys(e)),
        0 <= i < e.len(),
    ensures
        ascending(entry_keys(e.remove(i))),
        entry_map(e.remove(i)) == entry_map(e).remove(e[i].0@),
{
    let f = e.remove(i);
    let ks = entry_keys(e);
    let fs = entry_keys(f);
    assert forall|a: int, b: int| 0 <= a < b < fs.len() implies str_lt(
        #[trigger] fs[a],
        #[trigger] fs[b],
    ) by {
        let x = if a < i { a } else { a + 1 };
        let y = if b < i { b } else { b + 1 };
        assert(fs[a] == ks[x] && fs[b] == ks[y]);
    }
    let k0 = e[i].0@;
    assert(ks[i] == k0);
    assert forall|k: Seq<char>| #[trigger] fs.contains(k) <==> ks.contains(k) && k != k0 by {
        if fs.contains(k) {
            let a = choose|a: int| 0 <= a < fs.len() && fs[a] == k;
            let x = if a < i { a } else { a + 1 };
            assert(ks[x] == k);
            if x < i {
                assert(str_lt(ks[x], ks[i]));
            } else {
                assert(str_lt(ks[i], ks[x]));
            }
            lemma_str_lt_irreflexive(k);
        }
        if ks.contains(k) && k != k0 {
            let x = choose|x: int| 0 <= x < ks.len() && ks[x] == k;
            let a = if x < i { x } else { x - 1 };
            assert(fs[a] == k);
        }
    }
    assert forall|k: Seq<char>| #[trigger] entry_map(f).contains_key(k) implies entry_map(f)[k]
        == entry_map(e).remove(k0)[k] by {
        let a = choose|a: int| 0 <= a < fs.len() && fs[a] == k;
        let x = if a < i { a } else { a + 1 };
        assert(f[a] == e[x]);
        lemma_position(f, a);
        lemma_position(e, x);
    }
    assert(entry_map(f) =~= entry_map(e).remove(k0));
}

proof fn lemma_insert_entry<V>(e: Seq<(String, V)>, i: int, key: String, value: V)
    requires
        ascending(entry_keys(e)),
        0 <= i <= e.len(),
        !entry_map(e).contains_key(key@),
        forall|j: int| 0 <= j < i ==> str_lt(#[trigger] e[j].0@, key@),
        i < e.len() ==> !str_lt(e[i].0@, key@),
    ensures
        ascending(entry_keys(e.insert(i, (key, value)))),
        entry_map(e.insert(i, (key, value))) == entry_map(e).insert(key@, value),
{
    let f = e.insert(i, (key, value));
    let ks = entry_keys(e);
    let fs = entry_keys(f);
    assert forall|a: int, b: int| 0 <= a < b < fs.len() implies str_lt(
        #[trigger] fs[a],
        #[trigger] fs[b],
    ) by {
        let x = if a < i { a } else { a - 1 };
        let y = if b < i { b } else { b - 1 };
        if a == i {
            assert(fs[a] == key@);
            assert(fs[b] == ks[y]);
            assert(ks[i] == e[i].0@);
            lemma_str_lt_total(key@, ks[i]);
            assert(ks.contains(ks[i]));
            if y > i {
                assert(str_lt(ks[i], ks[y]));
                lemma_str_lt_transitive(key@, ks[i], ks[y]);
            }
        } else if b == i {
            assert(fs[b] == key@);
            assert(fs[a] == e[a].0@);
        } else {
            assert(fs[a] == ks[x] && fs[b] == ks[y]);
        }
    }
    assert(fs[i] == key@);
    assert forall|k: Seq<char>| #[trigger] fs.contains(k) <==> ks.contains(k) || k == key@ by {
        if fs.contains(k) && k != key@ {
            let a = choose|a: int| 0 <= a < fs.len() && fs[a] == k;
            let x = if a < i { a } else { a - 1 };
            assert(ks[x] == k);
        }
        if ks.contains(k) {
            let x = choose|x: int| 0 <= x < ks.len() && ks[x] == k;
            let a = if x < i { x } else { x + 1 };
            assert(fs[a] == k);
        }
    }
    assert forall|k: Seq<char>| #[trigger] entry_map(f).contains_key(k) implies entry_map(f)[k]
        == entry_map(e).insert(key@, value)[k] by {
        let a = choose|a: int| 0 <= a < fs.len() && fs[a] == k;
        lemma_position(f, a);
        if a == i {
            assert(f[a] == (key, value));
        } else {
            let x = if a < i { a } else { a - 1 };
            assert(f[a] == e[x]);
            lemma_position(e, x);
            assert(ks[x] == k);
        }
    }
    assert(entry_map(f) =~= entry_map(e).insert(key@, value));
}

} // verus!
