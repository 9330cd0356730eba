//! A finite map kept as two parallel vectors, with keys compared through
//! `MapKey::key_eq`. Its abstract view is a `Map<K, V>`; entries keep the
//! order in which their keys were first inserted.
use vstd::prelude::*;

verus! {

/// Keys that can be compared for equality in executable code, with the
/// comparison agreeing with mathematical equality.
pub trait MapKey: Copy + Sized {
    fn key_eq(&self, other: &Self) -> (b: bool)
        ensures
            b == (*self == *other),
    ;
}

impl MapKey for u64 {
    fn key_eq(&self, other: &Self) -> (b: bool) {
        *self == *other
    }
}

impl MapKey for u32 {
    fn key_eq(&self, other: &Self) -> (b: bool) {
        *self == *other
    }
}

/// Returns whether `x` occurs in `v`.
pub fn vec_contains<K: MapKey>(v: &Vec<K>, x: &K) -> (b: bool)
    ensures
        b == v@.contains(*x),
{
    let mut i: usize = 0;
    while i < v.len()
        invariant
            i <= v.len(),
            forall|j: int| 0 <= j < i ==> v@[j] != *x,
        decreases v.len() - i,
    {
        if v[i].key_eq(x) {
            return true;
        }
        i = i + 1;
    }
    false
}

/// A copy of `v`.
pub fn vec_copy<K: Copy>(v: &Vec<K>) -> (r: Vec<K>)
    ensures
        r@ == v@,
{
    let mut out: Vec<K> = Vec::new();
    let mut i: usize = 0;
    while i < v.len()
        invariant
            i <= v@.len(),
            out@ == v@.take(i as int),
        decreases v@.len() - i,
    {
        out.push(v[i]);
        i = i + 1;
        assert(out@ =~= v@.take(i as int));
    }
    assert(v@.take(v@.len() as int) =~= v@);
    out
}

/// The predicate "differs from `x`".
pub open spec fn neq_pred<K>(x: K) -> spec_fn(K) -> bool {
    |y: K| y != x
}

/// `v` without any occurrence of `x`, in the same order.
pub fn vec_without<K: MapKey>(v: &Vec<K>, x: &K) -> (r: Vec<K>)
    ensures
        r@ == v@.filter(neq_pred(*x)),
{
    let ghost pred = neq_pred(*x);
    let mut out: Vec<K> = Vec::new();
    let mut i: usize = 0;
    while i < v.len()
        invariant
            i <= v.len(),
            out@ == v@.take(i as int).filter(pred),
            pred == neq_pred(*x),
        decreases v.len() - i,
    {
        proof {
            reveal_with_fuel(Seq::<_>::filter, 1);
            assert(v@.take(i + 1).drop_last() =~= v@.take(i as int));
            assert(v@.take(i + 1).last() == v@[i as int]);
        }
        if !v[i].key_eq(x) {
            out.push(v[i]);
        }
        i = i + 1;
    }
    proof {
        assert(v@.take(v@.len() as int) =~= v@);
    }
    out
}

/// `a` and `b` have the same keys and agree everywhere except possibly at `k`.
pub open spec fn agree_except<K, V>(a: Map<K, V>, b: Map<K, V>, k: K) -> bool {
    &&& a.dom() == b.dom()
    &&& forall|k2: K| #[trigger] a.contains_key(k2) && k2 != k ==> a[k2] == b[k2]
}

/// An element survives a filter exactly when it occurs and meets the predicate.
pub proof fn lemma_filter_membership<A>(s: Seq<A>, p: spec_fn(A) -> bool, x: A)
    ensures
        s.filter(p).contains(x) <==> s.contains(x) && p(x),
{
    if s.filter(p).contains(x) {
        s.lemma_filter_contains_rev(p, x);
        let k = choose|k: int| 0 <= k < s.filter(p).len() && s.filter(p)[k] == x;
        s.lemma_filter_pred(p, k);
    }
    if s.contains(x) && p(x) {
        let k = choose|k: int| 0 <= k < s.len() && s[k] == x;
        s.lemma_filter_contains(p, k);
    }
}

/// Filtering by a predicate that holds everywhere keeps everything.
pub proof fn lemma_filter_all<A>(s: Seq<A>, p: spec_fn(A) -> bool)
    requires
        forall|x: A| #[trigger] p(x),
    ensures
        s.filter(p) == s,
    decreases s.len(),
{
    reveal_with_fuel(Seq::<_>::filter, 1);
    if s.len() > 0 {
        lemma_filter_all(s.drop_last(), p);
        assert(s.drop_last().push(s.last()) =~= s);
    }
}

/// Both predicates hold.
pub open spec fn and_pred<A>(p: spec_fn(A) -> bool, q: spec_fn(A) -> bool) -> spec_fn(A) -> bool {
    |x: A| p(x) && q(x)
}

/// Filtering twice is filtering once by both predicates.
pub proof fn lemma_filter_filter<A>(s: Seq<A>, p: spec_fn(A) -> bool, q: spec_fn(A) -> bool)
    ensures
        s.filter(p).filter(q) == s.filter(and_pred(p, q)),
    decreases s.len(),
{
    reveal_with_fuel(Seq::<_>::filter, 1);
    if s.len() > 0 {
        lemma_filter_filter(s.drop_last(), p, q);
        if p(s.last()) {
            let fp = s.drop_last().filter(p).push(s.last());
            assert(fp.drop_last() =~= s.drop_last().filter(p));
            assert(fp.last() == s.last());
        }
    }
}

pub struct VecMap<K, V> {
    keys: Vec<K>,
    vals: Vec<V>,
}

impl<K: MapKey, V> VecMap<K, V> {
    /// Keys in the order in which they were first inserted.
    pub closed spec fn key_seq(&self) -> Seq<K> {
        self.keys@
    }

    /// Values, position by position with `key_seq`.
    pub closed spec fn val_seq(&self) -> Seq<V> {
        self.vals@
    }

    pub closed spec fn wf(&self) -> bool {
        &&& self.keys@.len() == self.vals@.len()
        &&& self.keys@.no_duplicates()
    }

    pub closed spec fn view(&self) -> Map<K, V> {
        Map::new(
            |k: K| self.keys@.contains(k),
            |k: K| self.vals@[self.keys@.index_of(k)],
        )
    }

    /// What `wf` gives a caller: the positions and the map agree.
    pub proof fn lemma_wf(&self)
        requires
            self.wf(),
        ensures
            self.key_seq().len() == self.val_seq().len(),
            self.key_seq().no_duplicates(),
            self@.dom().finite(),
            forall|i: int|
                0 <= i < self.key_seq().len() ==> #[trigger] self@.contains_key(self.key_seq()[i])
                    && self@[self.key_seq()[i]] == self.val_seq()[i],
            forall|k: K|
                #[trigger] self@.contains_key(k) ==> exists|i: int|
                    0 <= i < self.key_seq().len() && self.key_seq()[i] == k,
            self@.dom().len() == self.key_seq().len(),
    {
        assert forall|i: int| 0 <= i < self.key_seq().len() implies #[trigger] self@.contains_key(
            self.key_seq()[i],
        ) && self@[self.key_seq()[i]] == self.val_seq()[i] by {
            let k = self.keys@[i];
            assert(self.keys@.contains(k));
            let j = self.keys@.index_of(k);
            assert(self.keys@[j] == k);
        }
        self.lemma_dom_is_key_set();
        self.keys@.unique_seq_to_set();
    }

    proof fn lemma_dom_is_key_set(&self)
        ensures
            self@.dom() == self.keys@.to_set(),
            self@.dom().finite(),
    {
        assert(self@.dom() =~= self.keys@.to_set());
        vstd::seq_lib::seq_to_set_is_finite(self.keys@);
    }

    pub fn new() -> (m: Self)
        ensures
            m.wf(),
            m@ == Map::<K, V>::empty(),
            m.key_seq() == Seq::<K>::empty(),
    {
        let m = VecMap { keys: Vec::new(), vals: Vec::new() };
        assert(m@ =~= Map::<K, V>::empty());
        m
    }

    pub fn len(&self) -> (n: usize)
        requires
            self.wf(),
        ensures
            n == self.key_seq().len(),
            n == self@.dom().len(),
    {
        proof {
            self.lemma_wf();
        }
        self.keys.len()
    }

    pub fn is_empty(&self) -> (b: bool)
        requires
            self.wf(),
        ensures
            b == (self@.dom().len() == 0),
    {
        proof {
            self.lemma_wf();
        }
        self.keys.len() == 0
    }

    /// Position of `k`, if present.
    pub fn find(&self, k: &K) -> (r: Option<usize>)
        requires
            self.wf(),
        ensures
            match r {
                Some(i) => i < self.key_seq().len() && self.key_seq()[i as int] == *k
                    && self@.contains_key(*k) && self@[*k] == self.val_seq()[i as int],
                None => !self@.contains_key(*k),
            },
    {
        let mut i: usize = 0;
        while i < self.keys.len()
            invariant
                i <= self.keys@.len(),
                self.wf(),
                forall|j: int| 0 <= j < i ==> self.keys@[j] != *k,
            decreases self.keys@.len() - i,
        {
            if self.keys[i].key_eq(k) {
                proof {
                    self.lemma_wf();
                }
                return Some(i);
            }
            i = i + 1;
        }
        None
    }

    pub fn contains_key(&self, k: &K) -> (b: bool)
        requires
            self.wf(),
        ensures
            b == self@.contains_key(*k),
    {
        self.find(k).is_some()
    }

    pub fn get(&self, k: &K) -> (r: Option<&V>)
        requires
            self.wf(),
        ensures
            match r {
                Some(v) => self@.contains_key(*k) && *v == self@[*k],
                None => !self@.contains_key(*k),
            },
    {
        match self.find(k) {
            Some(i) => Some(&self.vals[i]),
            None => None,
        }
    }

    pub fn key_at(&self, i: usize) -> (k: &K)
        requires
            self.wf(),
            i < self.key_seq().len(),
        ensures
            *k == self.key_seq()[i as int],
    {
        &self.keys[i]
    }

    pub fn val_at(&self, i: usize) -> (v: &V)
        requires
            self.wf(),
            i < self.key_seq().len(),
        ensures
            *v == self.val_seq()[i as int],
            *v == self@[self.key_seq()[i as int]],
    {
        proof {
            self.lemma_wf();
        }
        &self.vals[i]
    }

    /// Mutable access to the value of `k`, if present; the keys stay.
    pub fn get_mut(&mut self, k: &K) -> (r: Option<&mut V>)
        requires
            old(self).wf(),
        ensures
            match r {
                Some(v) => exists|i: int|
                    0 <= i < old(self).key_seq().len() && old(self).key_seq()[i] == *k && *v == old(self).val_seq()[i]
                        && final(self).key_seq() == old(self).key_seq() && final(self).val_seq() == old(
                        self).val_seq().update(i, *final(v)),
                None => !old(self)@.contains_key(*k) && *final(self) == *old(self),
            },
    {
        match self.find(k) {
            Some(i) => Some(self.val_at_mut(i)),
            None => None,
        }
    }

    /// Mutable access to the value at position `i`; the key stays.
    /// `lemma_update_at` turns the result into a statement about the map.
    pub fn val_at_mut(&mut self, i: usize) -> (v: &mut V)
        requires
            old(self).wf(),
            i < old(self).key_seq().len(),
        ensures
            *v == old(self).val_seq()[i as int],
            *v == old(self)@[old(self).key_seq()[i as int]],
            i < old(self).val_seq().len(),
            final(self).key_seq() == old(self).key_seq(),
            final(self).val_seq() == old(self).val_seq().update(i as int, *final(v)),
    {
        proof {
            self.lemma_wf();
        }
        &mut self.vals[i]
    }

    /// A map whose value at position `i` was replaced by `x` is the old map
    /// with the key at `i` bound to `x`.
    pub proof fn lemma_update_at(old_m: &Self, new_m: &Self, i: int, x: V)
        requires
            old_m.wf(),
            0 <= i < old_m.key_seq().len(),
            new_m.key_seq() == old_m.key_seq(),
            new_m.val_seq() == old_m.val_seq().update(i, x),
        ensures
            new_m.wf(),
            new_m@ == old_m@.insert(old_m.key_seq()[i], x),
    {
        let k = old_m.keys@[i];
        assert(old_m.keys@.index_of(k) == i) by {
            assert(old_m.keys@.contains(k));
            let j = old_m.keys@.index_of(k);
            assert(old_m.keys@[j] == k);
        }
        assert forall|k2: K| old_m.keys@.contains(k2) && k2 != k implies old_m.keys@.index_of(k2)
            != i by {
            let j = old_m.keys@.index_of(k2);
            assert(old_m.keys@[j] == k2);
        }
        assert(new_m@ =~= old_m@.insert(k, x));
    }

    /// Binds `k` to `v`: a new key goes to the end, an existing one keeps its place.
    pub fn insert(&mut self, k: K, v: V)
        requires
            old(self).wf(),
        ensures
            final(self).wf(),
            final(self)@ == old(self)@.insert(k, v),
            old(self)@.contains_key(k) ==> final(self).key_seq() == old(self).key_seq(),
            !old(self)@.contains_key(k) ==> final(self).key_seq() == old(self).key_seq().push(k),
            old(self)@.contains_key(k) ==> exists|i: int|
                0 <= i < old(self).key_seq().len() && old(self).key_seq()[i] == k && final(self).val_seq()
                    == old(self).val_seq().update(i, v),
            !old(self)@.contains_key(k) ==> final(self).val_seq() == old(self).val_seq().push(v),
    {
        match self.find(&k) {
            Some(i) => {
                let ghost old_self = *self;
                self.vals.set(i, v);
                proof {
                    Self::lemma_update_at(&old_self, self, i as int, v);
                }
            },
            None => {
                let ghost old_keys = self.keys@;
                let ghost old_vals = self.vals@;
                let ghost old_map = self@;
                self.keys.push(k);
                self.vals.push(v);
                proof {
                    assert forall|k2: K| old_keys.contains(k2) implies self.keys@.index_of(k2)
                        == old_keys.index_of(k2) by {
                        let j = old_keys.index_of(k2);
                        assert(old_keys[j] == k2);
                        assert(self.keys@[j] == k2);
                        let j2 = self.keys@.index_of(k2);
                        assert(self.keys@.contains(k2));
                        assert(self.keys@[j2] == k2);
                    }
                    assert(self.keys@.index_of(k) == old_keys.len()) by {
                        assert(self.keys@[old_keys.len() as int] == k);
                        assert(self.keys@.contains(k));
                    }
                    assert forall|k2: K| self.keys@.contains(k2) <==> old_keys.contains(k2) || k2 == k by {
                        if self.keys@.contains(k2) && k2 != k {
                            let j = choose|j: int| 0 <= j < self.keys@.len() && self.keys@[j] == k2;
                            assert(old_keys[j] == k2);
                        }
                        if old_keys.contains(k2) {
                            let j = choose|j: int| 0 <= j < old_keys.len() && old_keys[j] == k2;
                            assert(self.keys@[j] == k2);
                        }
                    }
                    assert(self@ =~= old_map.insert(k, v));
                }
            },
        }
    }

    /// Removes `k` and returns its value; the other entries keep their order.
    pub fn remove(&mut self, k: &K) -> (r: Option<V>)
        requires
            old(self).wf(),
        ensures
            final(self).wf(),
            final(self)@ == old(self)@.remove(*k),
            match r {
                Some(v) => old(self)@.contains_key(*k) && v == old(self)@[*k],
                None => !old(self)@.contains_key(*k) && final(self).key_seq() == old(self).key_seq(),
            },
            final(self).key_seq() == old(self).key_seq().filter(|y: K| y != *k),
            old(self)@.contains_key(*k) ==> exists|i: int|
                0 <= i < old(self).key_seq().len() && old(self).key_seq()[i] == *k
                    && final(self).val_seq() == old(self).val_seq().remove(i),
            !old(self)@.contains_key(*k) ==> *final(self) == *old(self),
    {
        match self.find(k) {
            Some(i) => {
                let ghost old_keys = self.keys@;
                let ghost old_vals = self.vals@;
                let ghost old_map = self@;
                proof {
                    old_keys.remove_ensures(i as int);
                    old_vals.remove_ensures(i as int);
                }
                self.keys.remove(i);
                let v = self.vals.remove(i);
                proof {
                    let nk = self.keys@;
                    assert(old_keys.index_of(*k) == i) by {
                        let j = old_keys.index_of(*k);
                        assert(old_keys.contains(*k));
                        assert(old_keys[j] == *k);
                    }
                    assert(nk.no_duplicates()) by {
                        assert forall|a: int, b: int|
                            0 <= a < nk.len() && 0 <= b < nk.len() && a != b implies nk[a] != nk[b] by {
                            let oa = if a < i { a } else { a + 1 };
                            let ob = if b < i { b } else { b + 1 };
                            assert(nk[a] == old_keys[oa]);
                            assert(nk[b] == old_keys[ob]);
                        }
                    }
                    assert forall|k2: K| nk.contains(k2) <==> old_keys.contains(k2) && k2 != *k by {
                        if nk.contains(k2) {
                            let j = choose|j: int| 0 <= j < nk.len() && nk[j] == k2;
                            let oj = if j < i { j } else { j + 1 };
                            assert(old_keys[oj] == k2);
                            assert(oj != i);
                        }
                        if old_keys.contains(k2) && k2 != *k {
                            let j = choose|j: int| 0 <= j < old_keys.len() && old_keys[j] == k2;
                            assert(j != i);
                            let nj = if j < i { j } else { j - 1 };
                            assert(nk[nj] == k2);
                        }
                    }
                    assert forall|k2: K| nk.contains(k2) implies self.vals@[nk.index_of(k2)]
                        == old_vals[old_keys.index_of(k2)] by {
                        let j = nk.index_of(k2);
                        assert(nk[j] == k2);
                        let oj = if j < i { j } else { j + 1 };
                        assert(old_keys[oj] == k2);
                        let oi = old_keys.index_of(k2);
                        assert(old_keys.contains(k2));
                        assert(old_keys[oi] == k2);
                        assert(oi == oj);
                    }
                    assert(self@ =~= old_map.remove(*k));
                    assert(v == old_map[*k]);
                    lemma_filter_remove_unique(old_keys, i as int, *k);
                }
                Some(v)
            },
            None => {
                proof {
                    assert(self@ =~= self@.remove(*k));
                    lemma_filter_absent(self.keys@, *k);
                }
                None
            },
        }
    }
}

proof fn lemma_filter_absent<K>(s: Seq<K>, x: K)
    requires
        !s.contains(x),
    ensures
        s.filter(|y: K| y != x) == s,
    decreases s.len(),
{
    reveal_with_fuel(Seq::<_>::filter, 1);
    if s.len() > 0 {
        assert(!s.drop_last().contains(x)) by {
            if s.drop_last().contains(x) {
                let j = choose|j: int| 0 <= j < s.drop_last().len() && s.drop_last()[j] == x;
                assert(s[j] == x);
            }
        }
        lemma_filter_absent(s.drop_last(), x);
        assert(s.last() != x) by {
            assert(s[s.len() - 1] == s.last());
        }
        assert(s.drop_last().push(s.last()) =~= s);
    }
}

proof fn lemma_filter_remove_unique<K>(s: Seq<K>, i: int, x: K)
    requires
        0 <= i < s.len(),
        s[i] == x,
        s.no_duplicates(),
    ensures
        s.filter(|y: K| y != x) == s.remove(i),
    decreases s.len(),
{
    reveal_with_fuel(Seq::<_>::filter, 1);
    s.remove_ensures(i);
    if i == s.len() - 1 {
        assert(!s.drop_last().contains(x)) by {
            if s.drop_last().contains(x) {
                let j = choose|j: int| 0 <= j < s.drop_last().len() && s.drop_last()[j] == x;
                assert(s[j] == x);
            }
        }
        lemma_filter_absent(s.drop_last(), x);
        assert(s.remove(i) =~= s.drop_last());
    } else {
        let t = s.drop_last();
        assert(t[i] == x);
        assert(t.no_duplicates());
        lemma_filter_remove_unique(t, i, x);
        t.remove_ensures(i);
        assert(s.last() != x) by {
            assert(s[s.len() - 1] == s.last());
        }
        assert(s.remove(i) =~= t.remove(i).push(s.last()));
    }
}

/// Appends `x` to the list bound to `k` (an empty list when unbound).
pub fn push_to_list<K: MapKey, T>(table: &mut VecMap<K, Vec<T>>, k: K, x: T)
    requires
        old(table).wf(),
    ensures
        final(table).wf(),
        final(table)@.contains_key(k),
        final(table)@[k]@ == (if old(table)@.contains_key(k) {
            old(table)@[k]@
        } else {
            Seq::empty()
        }).push(x),
        forall|j: K| j != k ==> (#[trigger] final(table)@.contains_key(j) <==> old(table)@.contains_key(j)),
        forall|j: K| j != k && old(table)@.contains_key(j) ==> #[trigger] final(table)@[j] == old(table)@[j],
{
    match table.find(&k) {
        Some(i) => {
            let ghost before = *table;
            let list = table.val_at_mut(i);
            list.push(x);
            proof {
                let nv = table.val_seq()[i as int];
                VecMap::lemma_update_at(&before, table, i as int, nv);
            }
        },
        None => {
            let mut list: Vec<T> = Vec::new();
            list.push(x);
            table.insert(k, list);
        },
    }
}

} // verus!
