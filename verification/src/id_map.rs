//! Finite maps keyed by 64-bit identifiers, and by pairs of them.
//!
//! Both maps are association vectors with unique keys; their view is the
//! mathematical `Map` they denote. The ledger and the header store are built
//! on these.

use vstd::prelude::*;

verus! {

/// The map denoted by an association sequence; later entries shadow earlier
/// ones, which the unique-key invariant below makes irrelevant.
pub open spec fn map_of<V>(s: Seq<(u64, V)>) -> Map<u64, V>
    decreases s.len(),
{
    if s.len() == 0 {
        Map::empty()
    } else {
        map_of(s.drop_last()).insert(s.last().0, s.last().1)
    }
}

pub open spec fn unique_keys<V>(s: Seq<(u64, V)>) -> bool {
    forall|i: int, j: int| 0 <= i < j < s.len() ==> (#[trigger] s[i]).0 != (#[trigger] s[j]).0
}

pub proof fn lemma_map_of_contains<V>(s: Seq<(u64, V)>, k: u64)
    ensures
        map_of(s).contains_key(k) <==> exists|i: int| 0 <= i < s.len() && (#[trigger] s[i]).0 == k,
    decreases s.len(),
{
    if s.len() == 0 {
    } else {
        lemma_map_of_contains(s.drop_last(), k);
        if s.last().0 == k {
            assert(s[s.len() - 1].0 == k);
        } else if map_of(s).contains_key(k) {
            let i = choose|i: int| 0 <= i < s.drop_last().len() && (#[trigger] s.drop_last()[i]).0 == k;
            assert(s[i].0 == k);
        } else if exists|i: int| 0 <= i < s.len() && (#[trigger] s[i]).0 == k {
            let i = choose|i: int| 0 <= i < s.len() && (#[trigger] s[i]).0 == k;
            assert(i < s.len() - 1);
            assert(s.drop_last()[i].0 == k);
        }
    }
}

pub proof fn lemma_map_of_index<V>(s: Seq<(u64, V)>, i: int)
    requires
        unique_keys(s),
        0 <= i < s.len(),
    ensures
        map_of(s).contains_key(s[i].0),
        map_of(s)[s[i].0] == s[i].1,
    decreases s.len(),
{
    if i == s.len() - 1 {
    } else {
        assert(s.drop_last()[i] == s[i]);
        lemma_map_of_index(s.drop_last(), i);
        assert(s[i].0 != s.last().0);
    }
}

pub proof fn lemma_map_of_update<V>(s: Seq<(u64, V)>, i: int, v: V)
    requires
        unique_keys(s),
        0 <= i < s.len(),
    ensures
        map_of(s.update(i, (s[i].0, v))) == map_of(s).insert(s[i].0, v),
        unique_keys(s.update(i, (s[i].0, v))),
    decreases s.len(),
{
    let t = s.update(i, (s[i].0, v));
    assert(forall|j: int| 0 <= j < s.len() && j != i ==> #[trigger] t[j] == s[j]);
    if i == s.len() - 1 {
        assert(t.drop_last() =~= s.drop_last());
        assert(map_of(t) =~= map_of(s).insert(s[i].0, v));
    } else {
        assert(t.drop_last() =~= s.drop_last().update(i, (s[i].0, v)));
        assert(s.drop_last()[i] == s[i]);
        lemma_map_of_update(s.drop_last(), i, v);
        assert(s[i].0 != s.last().0);
        assert(map_of(t) =~= map_of(s).insert(s[i].0, v));
    }
}

pub proof fn lemma_map_of_remove<V>(s: Seq<(u64, V)>, i: int)
    requires
        unique_keys(s),
        0 <= i < s.len(),
    ensures
        map_of(s.remove(i)) == map_of(s).remove(s[i].0),
        unique_keys(s.remove(i)),
    decreases s.len(),
{
    let t = s.remove(i);
    assert(forall|j: int| 0 <= j < i ==> #[trigger] t[j] == s[j]);
    assert(forall|j: int| i <= j < t.len() ==> #[trigger] t[j] == s[j + 1]);
    if i == s.len() - 1 {
        assert(t =~= s.drop_last());
        lemma_map_of_contains(s.drop_last(), s[i].0);
        assert(forall|j: int| 0 <= j < s.drop_last().len() ==> (#[trigger] s.drop_last()[j]).0 != s[i].0);
        assert(!map_of(s.drop_last()).contains_key(s[i].0));
        assert(map_of(t) =~= map_of(s).remove(s[i].0));
    } else {
        assert(t.last() == s.last());
        assert(t.drop_last() =~= s.drop_last().remove(i));
        assert(s.drop_last()[i] == s[i]);
        lemma_map_of_remove(s.drop_last(), i);
        assert(s[i].0 != s.last().0);
        assert(map_of(t) =~= map_of(s).remove(s[i].0));
    }
}

pub proof fn lemma_map_of_len<V>(s: Seq<(u64, V)>)
    requires
        unique_keys(s),
    ensures
        map_of(s).dom().finite(),
        map_of(s).dom().len() == s.len(),
    decreases s.len(),
{
    if s.len() == 0 {
        assert(map_of(s).dom() =~= Set::<u64>::empty());
    } else {
        lemma_map_of_len(s.drop_last());
        lemma_map_of_contains(s.drop_last(), s.last().0);
        assert(forall|j: int| 0 <= j < s.drop_last().len() ==> (#[trigger] s.drop_last()[j]).0 != s.last().0);
        assert(!map_of(s.drop_last()).contains_key(s.last().0));
        assert(map_of(s).dom() =~= map_of(s.drop_last()).dom().insert(s.last().0));
    }
}

pub proof fn lemma_map_of_finite<V>(s: Seq<(u64, V)>)
    ensures
        map_of(s).dom().finite(),
    decreases s.len(),
{
    if s.len() == 0 {
        assert(map_of(s).dom() =~= Set::<u64>::empty());
    } else {
        lemma_map_of_finite(s.drop_last());
    }
}

pub proof fn lemma_map_of_push<V>(s: Seq<(u64, V)>, k: u64, v: V)
    requires
        unique_keys(s),
        !map_of(s).contains_key(k),
    ensures
        map_of(s.push((k, v))) == map_of(s).insert(k, v),
        unique_keys(s.push((k, v))),
{
    let t = s.push((k, v));
    assert(t.drop_last() =~= s);
    assert(map_of(t) =~= map_of(s).insert(k, v));
    lemma_map_of_contains(s, k);
    assert(forall|j: int| 0 <= j < s.len() ==> (#[trigger] t[j]).0 != k);
}

/// Finite map from `u64` identifiers to values.
pub struct IdMap<V> {
    entries: Vec<(u64, V)>,
}

impl<V> View for IdMap<V> {
    type V = Map<u64, V>;

    closed spec fn view(&self) -> Map<u64, V> {
        map_of(self.entries@)
    }
}

impl<V> IdMap<V> {
    #[verifier::type_invariant]
    spec fn inv(&self) -> bool {
        unique_keys(self.entries@)
    }

    /// The keys in insertion order; exposed so that callers can enumerate a
    /// map whose view is otherwise unordered.
    pub closed spec fn key_seq(&self) -> Seq<u64> {
        self.entries@.map_values(|e: (u64, V)| e.0)
    }

    /// The view of a map is always finite.
    pub proof fn lemma_dom_finite(&self)
        ensures
            self@.dom().finite(),
    {
        lemma_map_of_finite(self.entries@);
    }

    /// Ghost no-op that publishes how `key_seq` enumerates the view: every key
    /// exactly once.
    pub fn key_seq_facts(&self)
        ensures
            self@.dom().finite(),
            self.key_seq().len() == self@.dom().len(),
            forall|i: int| 0 <= i < self.key_seq().len() ==> self@.contains_key(#[trigger] self.key_seq()[i]),
            forall|k: u64| self@.contains_key(k) ==> self.key_seq().contains(k),
            forall|i: int, j: int|
                0 <= i < j < self.key_seq().len() ==> self.key_seq()[i] != self.key_seq()[j],
    {
        proof {
            use_type_invariant(self);
            lemma_map_of_len(self.entries@);
            assert forall|i: int| 0 <= i < self.key_seq().len() implies self@.contains_key(
                #[trigger] self.key_seq()[i],
            ) by {
                lemma_map_of_index(self.entries@, i);
            }
            assert forall|k: u64| self@.contains_key(k) implies self.key_seq().contains(k) by {
                lemma_map_of_contains(self.entries@, k);
                let i = choose|i: int| 0 <= i < self.entries@.len() && (#[trigger] self.entries@[i]).0 == k;
                assert(self.key_seq()[i] == k);
            }
        }
    }

    pub fn new() -> (r: Self)
        ensures
            r@ == Map::<u64, V>::empty(),
    {
        IdMap { entries: Vec::new() }
    }

    pub fn len(&self) -> (n: usize)
        ensures
            n == self@.dom().len(),
            self@.dom().finite(),
    {
        proof {
            use_type_invariant(self);
            lemma_map_of_len(self.entries@);
        }
        self.entries.len()
    }

    fn find_index(&self, k: u64) -> (r: Option<usize>)
        ensures
            match r {
                Some(i) => i < self.entries@.len() && self.entries@[i as int].0 == k,
                None => forall|j: int|
                    0 <= j < self.entries@.len() ==> (#[trigger] self.entries@[j]).0 != k,
            },
    {
        let n = self.entries.len();
        let mut i: usize = 0;
        while i < n
            invariant
                i <= n,
                n == self.entries@.len(),
                forall|j: int| 0 <= j < i ==> (#[trigger] self.entries@[j]).0 != k,
            decreases n - i,
        {
            if self.entries[i].0 == k {
                return Some(i);
            }
            i = i + 1;
        }
        None
    }

    pub fn contains_key(&self, k: u64) -> (r: bool)
        ensures
            r == self@.contains_key(k),
    {
        proof {
            use_type_invariant(self);
            lemma_map_of_contains(self.entries@, k);
        }
        self.find_index(k).is_some()
    }

    pub fn get(&self, k: u64) -> (r: Option<&V>)
        ensures
            match r {
                Some(v) => self@.contains_key(k) && *v == self@[k],
                None => !self@.contains_key(k),
            },
    {
        proof {
            use_type_invariant(self);
            lemma_map_of_contains(self.entries@, k);
        }
        match self.find_index(k) {
            Some(i) => {
                proof {
                    use_type_invariant(self);
                    lemma_map_of_index(self.entries@, i as int);
                }
                Some(&self.entries[i].1)
            },
            None => None,
        }
    }

    pub fn insert(&mut self, k: u64, v: V)
        ensures
            final(self)@ == old(self)@.insert(k, v),
    {
        proof {
            use_type_invariant(&*self);
        }
        match self.find_index(k) {
            Some(i) => {
                proof {
                    lemma_map_of_update(self.entries@, i as int, v);
                }
                let mut es: Vec<(u64, V)> = Vec::new();
                core::mem::swap(&mut es, &mut self.entries);
                es[i] = (k, v);
                core::mem::swap(&mut es, &mut self.entries);
            },
            None => {
                proof {
                    lemma_map_of_contains(self.entries@, k);
                    lemma_map_of_push(self.entries@, k, v);
                }
                let mut es: Vec<(u64, V)> = Vec::new();
                core::mem::swap(&mut es, &mut self.entries);
                es.push((k, v));
                core::mem::swap(&mut es, &mut self.entries);
            },
        }
    }

    pub fn remove(&mut self, k: u64) -> (r: Option<V>)
        ensures
            final(self)@ == old(self)@.remove(k),
            match r {
                Some(v) => old(self)@.contains_key(k) && v == old(self)@[k],
                None => !old(self)@.contains_key(k),
            },
    {
        proof {
            use_type_invariant(&*self);
            lemma_map_of_contains(self.entries@, k);
        }
        match self.find_index(k) {
            Some(i) => {
                proof {
                    lemma_map_of_index(self.entries@, i as int);
                    lemma_map_of_remove(self.entries@, i as int);
                }
                let mut es: Vec<(u64, V)> = Vec::new();
                core::mem::swap(&mut es, &mut self.entries);
                let v = es.remove(i);
                core::mem::swap(&mut es, &mut self.entries);
                Some(v.1)
            },
            None => {
                proof {
                    assert(self@ =~= self@.remove(k));
                }
                None
            },
        }
    }

    /// The `i`th key in insertion order.
    pub fn key_at(&self, i: usize) -> (k: u64)
        requires
            i < self@.dom().len(),
        ensures
            k == self.key_seq()[i as int],
            self@.contains_key(k),
    {
        proof {
            use_type_invariant(self);
            lemma_map_of_len(self.entries@);
            lemma_map_of_index(self.entries@, i as int);
        }
        self.entries[i].0
    }

    /// The value under the `i`th key in insertion order.
    pub fn value_at(&self, i: usize) -> (v: &V)
        requires
            i < self@.dom().len(),
        ensures
            self@.contains_key(self.key_seq()[i as int]),
            *v == self@[self.key_seq()[i as int]],
    {
        proof {
            use_type_invariant(self);
            lemma_map_of_len(self.entries@);
            lemma_map_of_index(self.entries@, i as int);
        }
        &self.entries[i].1
    }
}

/// The map denoted by an association sequence over pair keys.
pub open spec fn pair_map_of<V>(s: Seq<((u64, u64), V)>) -> Map<(u64, u64), V>
    decreases s.len(),
{
    if s.len() == 0 {
        Map::empty()
    } else {
        pair_map_of(s.drop_last()).insert(s.last().0, s.last().1)
    }
}

pub open spec fn unique_pair_keys<V>(s: Seq<((u64, u64), V)>) -> bool {
    forall|i: int, j: int| 0 <= i < j < s.len() ==> (#[trigger] s[i]).0 != (#[trigger] s[j]).0
}

pub proof fn lemma_pair_map_of_contains<V>(s: Seq<((u64, u64), V)>, k: (u64, u64))
    ensures
        pair_map_of(s).contains_key(k) <==> exists|i: int|
            0 <= i < s.len() && (#[trigger] s[i]).0 == k,
    decreases s.len(),
{
    if s.len() == 0 {
    } else {
        lemma_pair_map_of_contains(s.drop_last(), k);
        if s.last().0 == k {
            assert(s[s.len() - 1].0 == k);
        } else if pair_map_of(s).contains_key(k) {
            let i = choose|i: int|
                0 <= i < s.drop_last().len() && (#[trigger] s.drop_last()[i]).0 == k;
            assert(s[i].0 == k);
        } else if exists|i: int| 0 <= i < s.len() && (#[trigger] s[i]).0 == k {
            let i = choose|i: int| 0 <= i < s.len() && (#[trigger] s[i]).0 == k;
            assert(i < s.len() - 1);
            assert(s.drop_last()[i].0 == k);
        }
    }
}

pub proof fn lemma_pair_map_of_index<V>(s: Seq<((u64, u64), V)>, i: int)
    requires
        unique_pair_keys(s),
        0 <= i < s.len(),
    ensures
        pair_map_of(s).contains_key(s[i].0),
        pair_map_of(s)[s[i].0] == s[i].1,
    decreases s.len(),
{
    if i == s.len() - 1 {
    } else {
        assert(s.drop_last()[i] == s[i]);
        lemma_pair_map_of_index(s.drop_last(), i);
        assert(s[i].0 != s.last().0);
    }
}

pub proof fn lemma_pair_map_of_update<V>(s: Seq<((u64, u64), V)>, i: int, v: V)
    requires
        unique_pair_keys(s),
        0 <= i < s.len(),
    ensures
        pair_map_of(s.update(i, (s[i].0, v))) == pair_map_of(s).insert(s[i].0, v),
        unique_pair_keys(s.update(i, (s[i].0, v))),
    decreases s.len(),
{
    let t = s.update(i, (s[i].0, v));
    assert(forall|j: int| 0 <= j < s.len() && j != i ==> #[trigger] t[j] == s[j]);
    if i == s.len() - 1 {
        assert(t.drop_last() =~= s.drop_last());
        assert(pair_map_of(t) =~= pair_map_of(s).insert(s[i].0, v));
    } else {
        assert(t.drop_last() =~= s.drop_last().update(i, (s[i].0, v)));
        assert(s.drop_last()[i] == s[i]);
        lemma_pair_map_of_update(s.drop_last(), i, v);
        assert(s[i].0 != s.last().0);
        assert(pair_map_of(t) =~= pair_map_of(s).insert(s[i].0, v));
    }
}

/// Finite map from pairs of `u64` identifiers to values.
pub struct IdPairMap<V> {
    entries: Vec<((u64, u64), V)>,
}

impl<V> View for IdPairMap<V> {
    type V = Map<(u64, u64), V>;

    closed spec fn view(&self) -> Map<(u64, u64), V> {
        pair_map_of(self.entries@)
    }
}

impl<V> IdPairMap<V> {
    #[verifier::type_invariant]
    spec fn inv(&self) -> bool {
        unique_pair_keys(self.entries@)
    }

    pub fn new() -> (r: Self)
        ensures
            r@ == Map::<(u64, u64), V>::empty(),
    {
        IdPairMap { entries: Vec::new() }
    }

    fn find_index(&self, k: (u64, u64)) -> (r: Option<usize>)
        ensures
            match r {
                Some(i) => i < self.entries@.len() && self.entries@[i as int].0 == k,
                None => forall|j: int|
                    0 <= j < self.entries@.len() ==> (#[trigger] self.entries@[j]).0 != k,
            },
    {
        let n = self.entries.len();
        let mut i: usize = 0;
        while i < n
            invariant
                i <= n,
                n == self.entries@.len(),
                forall|j: int| 0 <= j < i ==> (#[trigger] self.entries@[j]).0 != k,
            decreases n - i,
        {
            if self.entries[i].0.0 == k.0 && self.entries[i].0.1 == k.1 {
                return Some(i);
            }
            i = i + 1;
        }
        None
    }

    pub fn get(&self, a: u64, b: u64) -> (r: Option<&V>)
        ensures
            match r {
                Some(v) => self@.contains_key((a, b)) && *v == self@[(a, b)],
                None => !self@.contains_key((a, b)),
            },
    {
        proof {
            use_type_invariant(self);
            lemma_pair_map_of_contains(self.entries@, (a, b));
        }
        match self.find_index((a, b)) {
            Some(i) => {
                proof {
                    use_type_invariant(self);
                    lemma_pair_map_of_index(self.entries@, i as int);
                }
                Some(&self.entries[i].1)
            },
            None => None,
        }
    }

    pub fn contains_key(&self, a: u64, b: u64) -> (r: bool)
        ensures
            r == self@.contains_key((a, b)),
    {
        proof {
            use_type_invariant(self);
            lemma_pair_map_of_contains(self.entries@, (a, b));
        }
        self.find_index((a, b)).is_some()
    }

    pub fn insert(&mut self, a: u64, b: u64, v: V)
        ensures
            final(self)@ == old(self)@.insert((a, b), v),
    {
        proof {
            use_type_invariant(&*self);
        }
        match self.find_index((a, b)) {
            Some(i) => {
                proof {
                    lemma_pair_map_of_update(self.entries@, i as int, v);
                }
                let mut es: Vec<((u64, u64), V)> = Vec::new();
                core::mem::swap(&mut es, &mut self.entries);
                es[i] = ((a, b), v);
                core::mem::swap(&mut es, &mut self.entries);
            },
            None => {
                proof {
                    lemma_pair_map_of_contains(self.entries@, (a, b));
                    let t = self.entries@.push(((a, b), v));
                    assert(t.drop_last() =~= self.entries@);
                    assert(pair_map_of(t) =~= pair_map_of(self.entries@).insert((a, b), v));
                    assert(forall|j: int|
                        0 <= j < self.entries@.len() ==> (#[trigger] self.entries@[j]).0 != (a, b));
                }
                let mut es: Vec<((u64, u64), V)> = Vec::new();
                core::mem::swap(&mut es, &mut self.entries);
                es.push(((a, b), v));
                core::mem::swap(&mut es, &mut self.entries);
            },
        }
    }
}

} // verus!
