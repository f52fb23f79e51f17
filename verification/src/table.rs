//! Ordered tables and sets, keyed by ids.
//!
//! A [`Table`] is viewed as a `Map` and a [`KeySet`] as a `Set`. Both are
//! walked in the order of their keys, so what is done for "every entry" is done
//! in an order that depends on nothing but which entries there are.

use crate::seqs;
use vstd::prelude::*;

verus! {

/// Something a table can be keyed by.
pub trait Key: Sized {
    /// Where the key stands among all keys of its kind.
    spec fn rank(self) -> int;

    /// No two keys stand in the same place.
    proof fn rank_names(a: Self, b: Self)
        requires
            a.rank() == b.rank(),
        ensures
            a == b,
    ;

    /// Whether this key comes before another.
    fn before(&self, other: &Self) -> (r: bool)
        ensures
            r == (self.rank() < other.rank()),
    ;

    /// The same key again.
    fn again(&self) -> (r: Self)
        ensures
            r == *self,
    ;
}

impl Key for u32 {
    open spec fn rank(self) -> int {
        self as int
    }

    proof fn rank_names(a: Self, b: Self) {
    }

    fn before(&self, other: &Self) -> (r: bool) {
        *self < *other
    }

    fn again(&self) -> (r: Self) {
        *self
    }
}

impl Key for u64 {
    open spec fn rank(self) -> int {
        self as int
    }

    proof fn rank_names(a: Self, b: Self) {
    }

    fn before(&self, other: &Self) -> (r: bool) {
        *self < *other
    }

    fn again(&self) -> (r: Self) {
        *self
    }
}

impl Key for i32 {
    open spec fn rank(self) -> int {
        self as int
    }

    proof fn rank_names(a: Self, b: Self) {
    }

    fn before(&self, other: &Self) -> (r: bool) {
        *self < *other
    }

    fn again(&self) -> (r: Self) {
        *self
    }
}

impl Key for (u32, u32) {
    open spec fn rank(self) -> int {
        self.0 * 0x1_0000_0000 + self.1
    }

    proof fn rank_names(a: Self, b: Self) {
    }

    fn before(&self, other: &Self) -> (r: bool) {
        self.0 < other.0 || (self.0 == other.0 && self.1 < other.1)
    }

    fn again(&self) -> (r: Self) {
        *self
    }
}

/// Each key comes before the next, so none occurs twice.
pub open spec fn increasing<K: Key>(s: Seq<K>) -> bool {
    forall|i: int, j: int| 0 <= i < j < s.len() ==> (#[trigger] s[i]).rank() < (#[trigger] s[j]).rank()
}

/// These are the keys of the set, in order.
pub open spec fn lists<K: Key>(s: Seq<K>, keys: Set<K>) -> bool {
    &&& increasing(s)
    &&& forall|k: K| #[trigger] s.contains(k) <==> keys.contains(k)
}

/// The keys of a finite set, in order.
pub open spec fn ordered<K: Key>(keys: Set<K>) -> Seq<K> {
    choose|s: Seq<K>| lists(s, keys)
}

/// There is only one way to list a set in order.
pub proof fn lemma_lists_unique<K: Key>(a: Seq<K>, b: Seq<K>, keys: Set<K>)
    requires
        lists(a, keys),
        lists(b, keys),
    ensures
        a == b,
    decreases a.len(),
{
    if a.len() == 0 {
        if b.len() > 0 {
            assert(b.contains(b[0]));
            assert(a.contains(b[0]));
        }
        assert(a =~= b);
    } else {
        assert(a.contains(a.last()));
        assert(b.contains(a.last()));
        let i = choose|i: int| 0 <= i < b.len() && b[i] == a.last();
        assert(b.contains(b.last()));
        assert(a.contains(b.last()));
        let j = choose|j: int| 0 <= j < a.len() && a[j] == b.last();
        if i < b.len() - 1 {
            assert(b[i].rank() < b[b.len() - 1].rank());
            if j < a.len() - 1 {
                assert(a[j].rank() < a[a.len() - 1].rank());
            }
        }
        assert(a.last() == b.last());
        let rest = keys.remove(a.last());
        let a2 = a.drop_last();
        let b2 = b.drop_last();
        assert forall|k: K| #[trigger] a2.contains(k) <==> rest.contains(k) by {
            if a2.contains(k) {
                let n = choose|n: int| 0 <= n < a2.len() && a2[n] == k;
                assert(a[n] == k);
                assert(a.contains(k));
                assert(a[n].rank() < a[a.len() - 1].rank());
            }
            if rest.contains(k) {
                assert(a.contains(k));
                let n = choose|n: int| 0 <= n < a.len() && a[n] == k;
                assert(a2[n] == k);
            }
        }
        assert forall|k: K| #[trigger] b2.contains(k) <==> rest.contains(k) by {
            if b2.contains(k) {
                let n = choose|n: int| 0 <= n < b2.len() && b2[n] == k;
                assert(b[n] == k);
                assert(b.contains(k));
                assert(b[n].rank() < b[b.len() - 1].rank());
            }
            if rest.contains(k) {
                assert(b.contains(k));
                let n = choose|n: int| 0 <= n < b.len() && b[n] == k;
                assert(b2[n] == k);
            }
        }
        lemma_lists_unique(a2, b2, rest);
        assert(a =~= a2.push(a.last()));
        assert(b =~= b2.push(b.last()));
    }
}

/// A listing is *the* listing.
pub proof fn lemma_lists_ordered<K: Key>(s: Seq<K>, keys: Set<K>)
    requires
        lists(s, keys),
    ensures
        ordered(keys) == s,
{
    lemma_lists_unique(s, ordered(keys), keys);
}

/// A listing with one more key in its place.
proof fn lemma_listed_with<K: Key>(s: Seq<K>, keys: Set<K>, a: K) -> (r: Seq<K>)
    requires
        lists(s, keys),
        !keys.contains(a),
    ensures
        lists(r, keys.insert(a)),
    decreases s.len(),
{
    if s.len() == 0 || s.last().rank() < a.rank() {
        let r = s.push(a);
        assert forall|k: K| #[trigger] r.contains(k) <==> keys.insert(a).contains(k) by {
            if r.contains(k) {
                let n = choose|n: int| 0 <= n < r.len() && r[n] == k;
                if n < s.len() {
                    assert(s[n] == k);
                    assert(s.contains(k));
                }
            }
            if k == a {
                assert(r[s.len() as int] == k);
            } else if keys.contains(k) {
                assert(s.contains(k));
                let n = choose|n: int| 0 <= n < s.len() && s[n] == k;
                assert(r[n] == k);
            }
        }
        assert forall|i: int, j: int| 0 <= i < j < r.len() implies (#[trigger] r[i]).rank() < (
        #[trigger] r[j]).rank() by {
            if i < s.len() - 1 {
                assert(s[i].rank() < s[s.len() - 1].rank());
            }
        }
        r
    } else {
        let last = s.last();
        assert(s.contains(last)) by {
            assert(s[s.len() - 1] == last);
        }
        if last.rank() == a.rank() {
            K::rank_names(last, a);
        }
        let rest = s.drop_last();
        let fewer = keys.remove(last);
        assert forall|k: K| #[trigger] rest.contains(k) <==> fewer.contains(k) by {
            if rest.contains(k) {
                let n = choose|n: int| 0 <= n < rest.len() && rest[n] == k;
                assert(s[n] == k);
                assert(s.contains(k));
                assert(s[n].rank() < s[s.len() - 1].rank());
            }
            if fewer.contains(k) {
                assert(s.contains(k));
                let n = choose|n: int| 0 <= n < s.len() && s[n] == k;
                assert(rest[n] == k);
            }
        }
        let front = lemma_listed_with(rest, fewer, a);
        let r = front.push(last);
        assert forall|i: int, j: int| 0 <= i < j < r.len() implies (#[trigger] r[i]).rank() < (
        #[trigger] r[j]).rank() by {
            if j == front.len() {
                assert(front.contains(front[i]));
                if front[i] != a {
                    assert(rest.contains(front[i]));
                    let n = choose|n: int| 0 <= n < rest.len() && rest[n] == front[i];
                    assert(s[n].rank() < s[s.len() - 1].rank());
                }
            }
        }
        assert forall|k: K| #[trigger] r.contains(k) <==> keys.insert(a).contains(k) by {
            if r.contains(k) {
                let n = choose|n: int| 0 <= n < r.len() && r[n] == k;
                if n < front.len() {
                    assert(front[n] == k);
                    assert(front.contains(k));
                }
            }
            if k == last {
                assert(r[front.len() as int] == k);
            } else if keys.insert(a).contains(k) {
                assert(front.contains(k));
                let n = choose|n: int| 0 <= n < front.len() && front[n] == k;
                assert(r[n] == k);
            }
        }
        r
    }
}

/// The keys of a finite set can be listed in order.
pub proof fn lemma_finite_listed<K: Key>(keys: Set<K>)
    requires
        keys.finite(),
    ensures
        lists(ordered(keys), keys),
    decreases keys.len(),
{
    if keys.len() == 0 {
        assert(keys =~= Set::empty());
        assert(lists(Seq::empty(), keys));
    } else {
        let a = keys.choose();
        lemma_finite_listed(keys.remove(a));
        let r = lemma_listed_with(ordered(keys.remove(a)), keys.remove(a), a);
        assert(keys.remove(a).insert(a) =~= keys);
    }
}

/// All but the last of a listing is in order too.
pub proof fn lemma_increasing_front<K: Key>(s: Seq<K>)
    requires
        increasing(s),
        s.len() > 0,
    ensures
        increasing(s.drop_last()),
{
    assert forall|i: int, j: int| 0 <= i < j < s.len() - 1 implies (
    #[trigger] s.drop_last()[i]).rank() < (#[trigger] s.drop_last()[j]).rank() by {
        assert(s[i].rank() < s[j].rank());
    }
}

/// In a listing, different places hold different keys.
pub proof fn lemma_increasing_apart<K: Key>(s: Seq<K>, i: int)
    requires
        increasing(s),
        0 <= i < s.len(),
    ensures
        forall|j: int| 0 <= j < s.len() && j != i ==> #[trigger] s[j] != s[i],
{
    assert forall|j: int| 0 <= j < s.len() && j != i implies #[trigger] s[j] != s[i] by {
        if j < i {
            assert(s[j].rank() < s[i].rank());
        } else {
            assert(s[i].rank() < s[j].rank());
        }
    }
}

/// A table from ids to things, walked in id order.
#[verifier::reject_recursive_types(K)]
pub struct Table<K: Key, V> {
    entries: Vec<(K, V)>,
}

/// Where a key stands in some entries.
spec fn slot<K: Key, V>(entries: Seq<(K, V)>, k: K) -> int {
    choose|i: int| 0 <= i < entries.len() && entries[i].0 == k
}

impl<K: Key, V: View> View for Table<K, V> {
    type V = Map<K, V::V>;

    closed spec fn view(&self) -> Map<K, V::V> {
        Map::new(
            |k: K| exists|i: int| 0 <= i < self.entries@.len() && self.entries@[i].0 == k,
            |k: K| self.entries@[slot(self.entries@, k)].1@,
        )
    }
}

impl<K: Key, V: View> Table<K, V> {
    /// The entries stand in the order of their keys.
    pub closed spec fn wf(&self) -> bool {
        forall|i: int, j: int|
            0 <= i < j < self.entries@.len() ==> (#[trigger] self.entries@[i]).0.rank() < (
            #[trigger] self.entries@[j]).0.rank()
    }

    /// The values as stored, where the view has their views.
    pub closed spec fn stored(&self) -> Map<K, V> {
        Map::new(
            |k: K| exists|i: int| 0 <= i < self.entries@.len() && self.entries@[i].0 == k,
            |k: K| self.entries@[slot(self.entries@, k)].1,
        )
    }

    proof fn lemma_at(&self, i: int)
        requires
            self.wf(),
            0 <= i < self.entries@.len(),
        ensures
            self@.contains_key(self.entries@[i].0),
            self@[self.entries@[i].0] == self.entries@[i].1@,
            self.stored().contains_key(self.entries@[i].0),
            self.stored()[self.entries@[i].0] == self.entries@[i].1,
            slot(self.entries@, self.entries@[i].0) == i,
    {
        let k = self.entries@[i].0;
        let j = slot(self.entries@, k);
        if i < j {
            assert(self.entries@[i].0.rank() < self.entries@[j].0.rank());
        } else if j < i {
            assert(self.entries@[j].0.rank() < self.entries@[i].0.rank());
        }
    }

    proof fn lemma_replaced(&self, after: Self, i: int, nv: V)
        requires
            self.wf(),
            0 <= i < self.entries@.len(),
            after.entries@ == self.entries@.update(i, (self.entries@[i].0, nv)),
        ensures
            after.wf(),
            after@ == self@.insert(self.entries@[i].0, nv@),
            after.stored() == self.stored().insert(self.entries@[i].0, nv),
    {
        let k = self.entries@[i].0;
        assert(after.wf());
        assert forall|k2: K| #[trigger] after@.contains_key(k2) == self@.insert(
            k,
            nv@,
        ).contains_key(k2) by {
            if after@.contains_key(k2) {
                let j = slot(after.entries@, k2);
                assert(self.entries@[j].0 == k2);
            }
            if self@.contains_key(k2) {
                let j = slot(self.entries@, k2);
                assert(after.entries@[j].0 == k2);
            }
            assert(after.entries@[i].0 == k);
        }
        assert forall|k2: K| #[trigger] after@.contains_key(k2) implies after@[k2] == self@.insert(
            k,
            nv@,
        )[k2] by {
            let j = slot(after.entries@, k2);
            self.lemma_at(j);
            after.lemma_at(j);
            after.lemma_at(i);
        }
        assert(after@ =~= self@.insert(k, nv@));
        assert forall|k2: K| #[trigger] after.stored().contains_key(k2) implies after.stored()[k2]
            == self.stored().insert(k, nv)[k2] by {
            let j = slot(after.entries@, k2);
            self.lemma_at(j);
            after.lemma_at(j);
            after.lemma_at(i);
        }
        assert forall|k2: K| #[trigger] after.stored().contains_key(k2) == self.stored().insert(
            k,
            nv,
        ).contains_key(k2) by {
            assert(after@.contains_key(k2) == self@.insert(k, nv@).contains_key(k2));
        }
        assert(after.stored() =~= self.stored().insert(k, nv));
    }

    /// Create an empty table.
    pub fn new() -> (r: Self)
        ensures
            r.wf(),
            r@ == Map::<K, V::V>::empty(),
            r.stored() == Map::<K, V>::empty(),
    {
        let r = Self { entries: Vec::new() };
        assert(r@ =~= Map::<K, V::V>::empty());
        assert(r.stored() =~= Map::<K, V>::empty());
        r
    }

    /// The first slot whose key is not before `k`.
    fn find(&self, k: &K) -> (r: usize)
        requires
            self.wf(),
        ensures
            r <= self.entries@.len(),
            forall|i: int| 0 <= i < r ==> (#[trigger] self.entries@[i]).0.rank() < k.rank(),
            forall|i: int|
                r <= i < self.entries@.len() ==> (#[trigger] self.entries@[i]).0.rank()
                    >= k.rank(),
    {
        let mut lo: usize = 0;
        let mut hi: usize = self.entries.len();
        while lo < hi
            invariant
                lo <= hi <= self.entries@.len(),
                self.wf(),
                forall|i: int| 0 <= i < lo ==> (#[trigger] self.entries@[i]).0.rank() < k.rank(),
                forall|i: int|
                    hi <= i < self.entries@.len() ==> (#[trigger] self.entries@[i]).0.rank()
                        >= k.rank(),
            decreases hi - lo,
        {
            let mid: usize = lo + (hi - lo) / 2;
            if self.entries[mid].0.before(k) {
                lo = mid + 1;
            } else {
                hi = mid;
            }
        }
        lo
    }

    /// Where `k` is, if it is anywhere.
    fn find_exact(&self, k: K) -> (r: Option<usize>)
        requires
            self.wf(),
        ensures
            r matches Some(i) ==> i < self.entries@.len() && self.entries@[i as int].0 == k
                && self@.contains_key(k) && self@[k] == self.entries@[i as int].1@
                && self.stored().contains_key(k) && self.stored()[k] == self.entries@[i as int].1,
            r is None ==> !self@.contains_key(k),
    {
        let i: usize = self.find(&k);
        if i < self.entries.len() && !k.before(&self.entries[i].0) {
            proof {
                K::rank_names(self.entries@[i as int].0, k);
                self.lemma_at(i as int);
            }
            return Some(i);
        }
        proof {
            if self@.contains_key(k) {
                let j = choose|j: int| 0 <= j < self.entries@.len() && self.entries@[j].0 == k;
                if i < self.entries@.len() && j > i {
                    assert(self.entries@[i as int].0.rank() < self.entries@[j].0.rank());
                }
            }
        }
        None
    }

    /// Whether there is an entry for a key.
    pub fn contains_key(&self, k: K) -> (r: bool)
        requires
            self.wf(),
        ensures
            r == self@.contains_key(k),
    {
        self.find_exact(k).is_some()
    }

    /// The entry for a key.
    pub fn get(&self, k: K) -> (r: Option<&V>)
        requires
            self.wf(),
        ensures
            r is Some == self@.contains_key(k),
            r matches Some(v) ==> v@ == self@[k] && *v == self.stored()[k],
    {
        match self.find_exact(k) {
            Some(i) => Some(&self.entries[i].1),
            None => None,
        }
    }

    /// The entry for a key, to be changed in place.
    pub fn get_mut(&mut self, k: K) -> (r: Option<&mut V>)
        requires
            old(self).wf(),
        ensures
            final(self).wf(),
            r is Some == old(self)@.contains_key(k),
            r matches Some(v) ==> v@ == old(self)@[k] && *v == old(self).stored()[k],
            r matches Some(v) ==> final(self)@ == old(self)@.insert(k, final(v)@),
            r matches Some(v) ==> final(self).stored() == old(self).stored().insert(k, *final(v)),
            r is None ==> final(self)@ == old(self)@,
            r is None ==> final(self).stored() == old(self).stored(),
    {
        match self.find_exact(k) {
            Some(i) => {
                proof {
                    let before = *self;
                    assert forall|after: Self, nv: V|
                        #![trigger after.wf(), nv.view()]
                        #![trigger after.view(), nv.view()]
                        after.entries@ == before.entries@.update(i as int, (k, nv)) implies after.wf()
                        && after@ == before@.insert(k, nv@) && after.stored()
                        == before.stored().insert(k, nv) by {
                        before.lemma_replaced(after, i as int, nv);
                    }
                }
                let v = &mut self.entries[i].1;
                Some(v)
            },
            None => None,
        }
    }

    /// Put an entry under a key, replacing the one there was.
    pub fn insert(&mut self, k: K, v: V)
        requires
            old(self).wf(),
        ensures
            final(self).wf(),
            final(self)@ == old(self)@.insert(k, v@),
            final(self).stored() == old(self).stored().insert(k, v),
    {
        let ghost before = *self;
        let i: usize = self.find(&k);
        if i < self.entries.len() && !k.before(&self.entries[i].0) {
            proof {
                K::rank_names(self.entries@[i as int].0, k);
            }
            self.entries.set(i, (k, v));
            proof {
                before.lemma_replaced(*self, i as int, v);
            }
            return ;
        }
        self.entries.insert(i, (k, v));
        proof {
            let after = *self;
            assert(after.wf()) by {
                assert forall|a: int, b: int| 0 <= a < b < after.entries@.len() implies (
                #[trigger] after.entries@[a]).0.rank() < (#[trigger] after.entries@[b]).0.rank() by {
                    let a2 = if a < i { a } else { a - 1 };
                    let b2 = if b < i { b } else { b - 1 };
                    if a != i && b != i {
                        assert(before.entries@[a2].0.rank() < before.entries@[b2].0.rank());
                    } else if a == i {
                        assert(before.entries@[b2].0.rank() >= k.rank());
                        if b2 > i {
                            assert(before.entries@[i as int].0.rank() < before.entries@[b2].0.rank());
                        }
                    } else {
                        assert(before.entries@[a2].0.rank() < k.rank());
                    }
                }
            }
            assert(after.entries@[i as int].0 == k);
            assert forall|k2: K| #[trigger] after@.contains_key(k2) == before@.insert(
                k,
                v@,
            ).contains_key(k2) by {
                if after@.contains_key(k2) && k2 != k {
                    let j = slot(after.entries@, k2);
                    let j2 = if j < i { j } else { j - 1 };
                    assert(before.entries@[j2].0 == k2);
                }
                if before@.contains_key(k2) {
                    let j = slot(before.entries@, k2);
                    let j2 = if j < i { j } else { j + 1 };
                    assert(after.entries@[j2].0 == k2);
                }
            }
            assert forall|k2: K| #[trigger] after@.contains_key(k2) implies after@[k2]
                == before@.insert(k, v@)[k2] by {
                let j = slot(after.entries@, k2);
                after.lemma_at(j);
                after.lemma_at(i as int);
                if j != i {
                    let j2 = if j < i { j } else { j - 1 };
                    before.lemma_at(j2);
                }
            }
            assert(after@ =~= before@.insert(k, v@));
            assert forall|k2: K| #[trigger] after.stored().contains_key(k2) implies after.stored()[k2]
                == before.stored().insert(k, v)[k2] by {
                let j = slot(after.entries@, k2);
                after.lemma_at(j);
                after.lemma_at(i as int);
                if j != i {
                    let j2 = if j < i { j } else { j - 1 };
                    before.lemma_at(j2);
                }
            }
            assert forall|k2: K| #[trigger] after.stored().contains_key(k2)
                == before.stored().insert(k, v).contains_key(k2) by {
                assert(after@.contains_key(k2) == before@.insert(k, v@).contains_key(k2));
            }
            assert(after.stored() =~= before.stored().insert(k, v));
        }
    }

    /// Take the entry for a key out of the table.
    pub fn remove(&mut self, k: K) -> (r: Option<V>)
        requires
            old(self).wf(),
        ensures
            final(self).wf(),
            final(self)@ == old(self)@.remove(k),
            final(self).stored() == old(self).stored().remove(k),
            r is Some == old(self)@.contains_key(k),
            r matches Some(v) ==> v@ == old(self)@[k] && v == old(self).stored()[k],
    {
        let ghost before = *self;
        match self.find_exact(k) {
            Some(i) => {
                let (_, v) = self.entries.remove(i);
                proof {
                    let after = *self;
                    assert(after.wf()) by {
                        assert forall|a: int, b: int| 0 <= a < b < after.entries@.len() implies (
                        #[trigger] after.entries@[a]).0.rank() < (
                        #[trigger] after.entries@[b]).0.rank() by {
                            let a2 = if a < i { a } else { a + 1 };
                            let b2 = if b < i { b } else { b + 1 };
                            assert(before.entries@[a2].0.rank() < before.entries@[b2].0.rank());
                        }
                    }
                    assert forall|k2: K| #[trigger] after@.contains_key(k2) == before@.remove(
                        k,
                    ).contains_key(k2) by {
                        if after@.contains_key(k2) {
                            let j = slot(after.entries@, k2);
                            let j2 = if j < i { j } else { j + 1 };
                            assert(before.entries@[j2].0 == k2);
                            if j2 < i {
                                assert(before.entries@[j2].0.rank() < before.entries@[i as int].0.rank());
                            } else {
                                assert(before.entries@[i as int].0.rank() < before.entries@[j2].0.rank());
                            }
                        }
                        if before@.contains_key(k2) && k2 != k {
                            let j = slot(before.entries@, k2);
                            let j2 = if j < i { j } else { j - 1 };
                            assert(after.entries@[j2].0 == k2);
                        }
                    }
                    assert forall|k2: K| #[trigger] after@.contains_key(k2) implies after@[k2]
                        == before@.remove(k)[k2] by {
                        let j = slot(after.entries@, k2);
                        after.lemma_at(j);
                        let j2 = if j < i { j } else { j + 1 };
                        before.lemma_at(j2);
                    }
                    assert(after@ =~= before@.remove(k));
                    assert forall|k2: K| #[trigger] after.stored().contains_key(
                        k2,
                    ) implies after.stored()[k2] == before.stored().remove(k)[k2] by {
                        let j = slot(after.entries@, k2);
                        after.lemma_at(j);
                        let j2 = if j < i { j } else { j + 1 };
                        before.lemma_at(j2);
                    }
                    assert forall|k2: K| #[trigger] after.stored().contains_key(k2)
                        == before.stored().remove(k).contains_key(k2) by {
                        assert(after@.contains_key(k2) == before@.remove(k).contains_key(k2));
                    }
                    assert(after.stored() =~= before.stored().remove(k));
                }
                Some(v)
            },
            None => {
                assert(self@.remove(k) =~= self@);
                assert(self.stored().remove(k) =~= self.stored()) by {
                    assert(!self@.contains_key(k));
                }
                None
            },
        }
    }

    /// The keys, in order.
    pub fn keys(&self) -> (r: Vec<K>)
        requires
            self.wf(),
        ensures
            r@ == ordered(self@.dom()),
            lists(r@, self@.dom()),
    {
        let mut r: Vec<K> = Vec::new();
        let mut i: usize = 0;
        while i < self.entries.len()
            invariant
                i <= self.entries@.len(),
                r@.len() == i,
                forall|j: int| 0 <= j < i ==> #[trigger] r@[j] == self.entries@[j].0,
            decreases self.entries@.len() - i,
        {
            r.push(self.entries[i].0.again());
            i = i + 1;
        }
        proof {
            assert forall|k: K| #[trigger] r@.contains(k) <==> self@.dom().contains(k) by {
                if r@.contains(k) {
                    let j = choose|j: int| 0 <= j < r@.len() && r@[j] == k;
                    self.lemma_at(j);
                }
                if self@.dom().contains(k) {
                    let j = slot(self.entries@, k);
                    assert(r@[j] == k);
                }
            }
            lemma_lists_ordered(r@, self@.dom());
        }
        r
    }

    /// Stored and seen are the same entries.
    pub proof fn lemma_stored(&self, k: K)
        ensures
            self.stored().contains_key(k) == self@.contains_key(k),
            self@.contains_key(k) ==> self@[k] == self.stored()[k]@,
    {
    }

    /// How many entries there are.
    pub fn len(&self) -> (r: usize)
        requires
            self.wf(),
        ensures
            r == ordered(self@.dom()).len(),
    {
        let keys = self.keys();
        keys.len()
    }

    /// The keys a table has can be listed.
    pub proof fn lemma_listed(&self)
        requires
            self.wf(),
        ensures
            lists(ordered(self@.dom()), self@.dom()),
    {
        let s = Seq::new(self.entries@.len(), |i: int| self.entries@[i].0);
        assert forall|k: K| #[trigger] s.contains(k) <==> self@.dom().contains(k) by {
            if s.contains(k) {
                let j = choose|j: int| 0 <= j < s.len() && s[j] == k;
                self.lemma_at(j);
            }
            if self@.dom().contains(k) {
                let j = slot(self.entries@, k);
                assert(s[j] == k);
            }
        }
        lemma_lists_ordered(s, self@.dom());
    }
}

/// What is left of a map when a client's entries are taken out.
pub open spec fn without_client<T>(m: Map<(u32, u32), T>, client_id: u32) -> Map<(u32, u32), T> {
    m.restrict(m.dom().filter(|k: (u32, u32)| k.0 != client_id))
}

/// What is left of a set when a client's members are taken out.
pub open spec fn keys_of_others(keys: Set<(u32, u32)>, client_id: u32) -> Set<(u32, u32)> {
    keys.filter(|k: (u32, u32)| k.0 != client_id)
}

/// A key that belongs to a client.
pub open spec fn of_client(client_id: u32) -> spec_fn((u32, u32)) -> bool {
    |k: (u32, u32)| k.0 == client_id
}

/// The keys that belong to a client, in order.
pub open spec fn client_keys(keys: Set<(u32, u32)>, client_id: u32) -> Seq<(u32, u32)> {
    ordered(keys).filter(of_client(client_id))
}

impl<V: View> Table<(u32, u32), V> {
    /// The keys of the entries belonging to a client, in order.
    pub fn keys_of(&self, client_id: u32) -> (r: Vec<(u32, u32)>)
        requires
            self.wf(),
        ensures
            r@ == client_keys(self@.dom(), client_id),
    {
        let keys = self.keys();
        let ghost p = of_client(client_id);
        let mut r: Vec<(u32, u32)> = Vec::new();
        let mut i: usize = 0;
        proof {
            reveal(Seq::filter);
            assert(keys@.take(0) =~= Seq::empty());
        }
        while i < keys.len()
            invariant
                i <= keys@.len(),
                p == of_client(client_id),
                r@ == keys@.take(i as int).filter(p),
            decreases keys@.len() - i,
        {
            proof {
                seqs::lemma_filter_step(keys@, p, i as int);
            }
            let k = keys[i];
            if k.0 == client_id {
                r.push(k);
            }
            i = i + 1;
        }
        assert(keys@.take(i as int) =~= keys@);
        r
    }

    /// Take out every entry belonging to a client.
    pub fn remove_client(&mut self, client_id: u32)
        requires
            old(self).wf(),
        ensures
            final(self).wf(),
            final(self)@ == without_client(old(self)@, client_id),
            forall|k: (u32, u32)| #[trigger]
                final(self).stored().contains_key(k) ==> old(self).stored().contains_key(k) && final(self).stored()[k] == old(self).stored()[k],
    {
        let keys = self.keys();
        let mut i: usize = 0;
        let ghost before = self@;
        while i < keys.len()
            invariant
                i <= keys@.len(),
                self.wf(),
                lists(keys@, before.dom()),
                forall|k: (u32, u32)| #[trigger]
                    self.stored().contains_key(k) ==> old(self).stored().contains_key(k)
                        && self.stored()[k] == old(self).stored()[k],
                forall|k: (u32, u32)| #[trigger]
                    self@.contains_key(k) ==> before.contains_key(k) && self@[k] == before[k],
                forall|k: (u32, u32)|
                    before.contains_key(k) && k.0 != client_id ==> #[trigger] self@.contains_key(k),
                forall|j: int|
                    0 <= j < i && (#[trigger] keys@[j]).0 == client_id ==> !self@.contains_key(
                        keys@[j],
                    ),
            decreases keys@.len() - i,
        {
            let k = keys[i];
            if k.0 == client_id {
                self.remove(k);
            }
            i = i + 1;
        }
        proof {
            assert forall|k: (u32, u32)| self@.contains_key(k) implies k.0 != client_id by {
                assert(keys@.contains(k));
                let j = choose|j: int| 0 <= j < keys@.len() && keys@[j] == k;
                assert(keys@[j].0 == k.0);
            }
            assert(self@ =~= without_client(before, client_id));
        }
    }
}

/// A set of ids, walked in id order.
#[verifier::reject_recursive_types(K)]
pub struct KeySet<K: Key> {
    members: Table<K, ()>,
}

impl<K: Key> View for KeySet<K> {
    type V = Set<K>;

    closed spec fn view(&self) -> Set<K> {
        self.members@.dom()
    }
}

impl<K: Key> KeySet<K> {
    /// The members stand in order.
    pub closed spec fn wf(&self) -> bool {
        self.members.wf()
    }

    /// Create an empty set.
    pub fn new() -> (r: Self)
        ensures
            r.wf(),
            r@ == Set::<K>::empty(),
    {
        let r = Self { members: Table::new() };
        assert(r@ =~= Set::<K>::empty());
        r
    }

    /// Whether a key is in the set.
    pub fn contains(&self, k: K) -> (r: bool)
        requires
            self.wf(),
        ensures
            r == self@.contains(k),
    {
        self.members.contains_key(k)
    }

    /// Whether there is no key in the set.
    pub fn is_empty(&self) -> (r: bool)
        requires
            self.wf(),
        ensures
            r == (self@ == Set::<K>::empty()),
    {
        let keys = self.keys();
        if keys.len() == 0 {
            assert forall|k: K| !self@.contains(k) by {
                assert(!keys@.contains(k));
            }
            assert(self@ =~= Set::<K>::empty());
            true
        } else {
            assert(keys@.contains(keys@[0]));
            assert(self@.contains(keys@[0]));
            false
        }
    }

    /// Put a key in the set.
    pub fn insert(&mut self, k: K)
        requires
            old(self).wf(),
        ensures
            final(self).wf(),
            final(self)@ == old(self)@.insert(k),
    {
        self.members.insert(k, ());
        assert(self@ =~= old(self)@.insert(k));
    }

    /// Take a key out of the set. Returns whether it was there.
    pub fn remove(&mut self, k: K) -> (r: bool)
        requires
            old(self).wf(),
        ensures
            final(self).wf(),
            final(self)@ == old(self)@.remove(k),
            r == old(self)@.contains(k),
    {
        let r = self.members.remove(k).is_some();
        assert(self@ =~= old(self)@.remove(k));
        r
    }

    /// The members, in order.
    pub fn keys(&self) -> (r: Vec<K>)
        requires
            self.wf(),
        ensures
            r@ == ordered(self@),
            lists(r@, self@),
    {
        self.members.keys()
    }
}

impl KeySet<(u32, u32)> {
    /// Take out every member belonging to a client.
    pub fn remove_client(&mut self, client_id: u32)
        requires
            old(self).wf(),
        ensures
            final(self).wf(),
            final(self)@ == keys_of_others(old(self)@, client_id),
    {
        self.members.remove_client(client_id);
        assert(self@ =~= keys_of_others(old(self)@, client_id));
    }
}

} // verus!
