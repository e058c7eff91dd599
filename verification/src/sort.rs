//! Sorting paired index/value storage by index, through a safe cursor
//! abstraction over the storage.

use vstd::prelude::*;
use vstd::seq_lib::{to_multiset_update, group_to_multiset_ensures};

verus! {

/// A sortable view of paired storage: each item is a `u64` sort key attached
/// to a payload, and a swap moves key and payload together. This is what the
/// index sort needs from its storage: length, key comparison and lockstep
/// exchange.
pub trait Ptr: Sized {
    /// The payload that travels with each key.
    type Item;

    /// The storage as a sequence of (key, payload) pairs.
    spec fn pairs(&self) -> Seq<(u64, Self::Item)>;

    fn len(&self) -> (r: usize)
        ensures
            r == self.pairs().len(),
    ;

    /// Whether the key at `a` is strictly smaller than the key at `b`.
    fn less(&self, a: usize, b: usize) -> (r: bool)
        requires
            a < self.pairs().len(),
            b < self.pairs().len(),
        ensures
            r == (self.pairs()[a as int].0 < self.pairs()[b as int].0),
    ;

    /// Exchanges the items at `a` and `b`, keys and payloads together.
    fn swap_idx(&mut self, a: usize, b: usize)
        requires
            a < old(self).pairs().len(),
            b < old(self).pairs().len(),
        ensures
            final(self).pairs() == old(self).pairs().update(
                a as int,
                old(self).pairs()[b as int],
            ).update(b as int, old(self).pairs()[a as int]),
    ;
}

/// The pairs are in ascending key order.
pub open spec fn sorted_by_key<I>(s: Seq<(u64, I)>) -> bool {
    forall|i: int, j: int| 0 <= i < j < s.len() ==> (#[trigger] s[i]).0 <= (#[trigger] s[j]).0
}

/// Exchanging two entries of a sequence leaves its multiset of items
/// unchanged.
proof fn lemma_swap_preserves_multiset<A>(s: Seq<A>, a: int, b: int)
    requires
        0 <= a < s.len(),
        0 <= b < s.len(),
    ensures
        s.update(a, s[b]).update(b, s[a]).to_multiset() == s.to_multiset(),
{
    broadcast use to_multiset_update;
    broadcast use group_to_multiset_ensures;

    if a == b {
        assert(s.update(a, s[b]).update(b, s[a]) =~= s);
    } else {
        let s1 = s.update(a, s[b]);
        assert(s1[b] == s[b]);
        assert(s.contains(s[a]));
        assert(s.to_multiset().count(s[a]) > 0);
        assert(s.contains(s[b]));
        assert(s.to_multiset().count(s[b]) > 0);
        assert(s1.update(b, s[a]).to_multiset() =~= s.to_multiset());
    }
}

/// Sorts the paired storage by ascending key, keeping every key attached to
/// its payload: the result is sorted, and its multiset of (key, payload)
/// pairs is exactly that of the input.
pub fn sort_indices<P: Ptr>(v: &mut P)
    ensures
        final(v).pairs().len() == old(v).pairs().len(),
        sorted_by_key(final(v).pairs()),
        final(v).pairs().to_multiset() == old(v).pairs().to_multiset(),
{
    let n = v.len();
    if n == 0 {
        return ;
    }
    let mut i: usize = 1;
    while i < n
        invariant
            n == v.pairs().len(),
            n == old(v).pairs().len(),
            1 <= i <= n,
            v.pairs().to_multiset() == old(v).pairs().to_multiset(),
            forall|a: int, b: int|
                0 <= a < b < i ==> (#[trigger] v.pairs()[a]).0 <= (#[trigger] v.pairs()[b]).0,
        decreases n - i,
    {
        let mut t: usize = i;
        while t > 0 && v.less(t, t - 1)
            invariant
                n == v.pairs().len(),
                n == old(v).pairs().len(),
                1 <= i < n,
                t <= i,
                v.pairs().to_multiset() == old(v).pairs().to_multiset(),
                forall|a: int, b: int|
                    0 <= a < b < t ==> (#[trigger] v.pairs()[a]).0 <= (#[trigger] v.pairs()[b]).0,
                forall|a: int, b: int|
                    t <= a < b <= i ==> (#[trigger] v.pairs()[a]).0 <= (#[trigger] v.pairs()[b]).0,
                forall|a: int, b: int|
                    0 <= a < t && t < b <= i ==> (#[trigger] v.pairs()[a]).0
                        <= (#[trigger] v.pairs()[b]).0,
            decreases t,
        {
            let ghost before = v.pairs();
            v.swap_idx(t, t - 1);
            proof {
                lemma_swap_preserves_multiset(before, t as int, t as int - 1);
            }
            t -= 1;
        }
        i += 1;
    }
}

/// Paired index/value columns: the concrete storage the index sort runs over.
/// The sortable window is the common length of the two vectors.
pub struct IndexValuePairs<V> {
    /// The sort keys.
    pub indices: Vec<u64>,
    /// The payloads, position by position.
    pub values: Vec<V>,
}

impl<V> IndexValuePairs<V> {
    /// The common length of the two columns.
    pub open spec fn spec_common_len(&self) -> int {
        if self.indices@.len() < self.values@.len() {
            self.indices@.len() as int
        } else {
            self.values@.len() as int
        }
    }
}

impl<V: Copy> Ptr for IndexValuePairs<V> {
    type Item = V;

    open spec fn pairs(&self) -> Seq<(u64, V)> {
        Seq::new(
            self.spec_common_len() as nat,
            |i: int| (self.indices@[i], self.values@[i]),
        )
    }

    fn len(&self) -> (r: usize) {
        if self.indices.len() < self.values.len() {
            self.indices.len()
        } else {
            self.values.len()
        }
    }

    fn less(&self, a: usize, b: usize) -> (r: bool) {
        self.indices[a] < self.indices[b]
    }

    fn swap_idx(&mut self, a: usize, b: usize) {
        let ia = self.indices[a];
        let ib = self.indices[b];
        self.indices[a] = ib;
        self.indices[b] = ia;
        let va = self.values[a];
        let vb = self.values[b];
        self.values[a] = vb;
        self.values[b] = va;
        proof {
            assert(self.pairs() =~= old(self).pairs().update(
                a as int,
                old(self).pairs()[b as int],
            ).update(b as int, old(self).pairs()[a as int]));
        }
    }
}

} // verus!
