//! Permutations built from sequences of elementary transpositions, and their
//! inverses.

use vstd::prelude::*;

verus! {

/// Some entry of `p` equals `v`.
pub open spec fn contains_value(p: Seq<usize>, v: usize) -> bool {
    exists|i: int| 0 <= i < p.len() && #[trigger] p[i] == v
}

/// `p` is a bijection on `{0, …, p.len()-1}`: every value is in range, no value
/// repeats, and every value is reached.
pub open spec fn is_permutation(p: Seq<usize>) -> bool {
    &&& forall|i: int| 0 <= i < p.len() ==> (#[trigger] p[i]) < p.len()
    &&& forall|i: int, j: int| 0 <= i < p.len() && 0 <= j < p.len() && i != j ==> p[i] != p[j]
    &&& forall|v: usize| v < p.len() ==> #[trigger] contains_value(p, v)
}

/// The identity sequence `0, 1, …, n-1`.
pub open spec fn identity_seq(n: int) -> Seq<usize> {
    Seq::new(n as nat, |i: int| i as usize)
}

/// `p` with the entries at `a` and `b` exchanged.
pub open spec fn swap_seq(p: Seq<usize>, a: int, b: int) -> Seq<usize> {
    p.update(a, p[b]).update(b, p[a])
}

/// The result of applying, in order, the first `k` elementary transpositions
/// `p.swap(i, t[i])` to `p`.
pub open spec fn apply_swaps(p: Seq<usize>, t: Seq<usize>, k: int) -> Seq<usize>
    decreases k,
{
    if k <= 0 {
        p
    } else {
        let q = apply_swaps(p, t, k - 1);
        swap_seq(q, k - 1, t[k - 1] as int)
    }
}

pub proof fn lemma_identity_is_permutation(n: int)
    requires
        0 <= n <= usize::MAX,
    ensures
        is_permutation(identity_seq(n)),
{
    let p = identity_seq(n);
    assert forall|i: int| 0 <= i < p.len() implies (#[trigger] p[i]) < p.len() by {
        assert(p[i] == i as usize);
    }
    assert forall|i: int, j: int|
        0 <= i < p.len() && 0 <= j < p.len() && i != j implies p[i] != p[j] by {
        assert(p[i] == i as usize);
        assert(p[j] == j as usize);
    }
    assert forall|v: usize| v < p.len() implies #[trigger] contains_value(p, v) by {
        assert(p[v as int] == v);
    }
}

pub proof fn lemma_swap_seq_permutation(p: Seq<usize>, a: int, b: int)
    requires
        is_permutation(p),
        p.len() <= usize::MAX,
        0 <= a < p.len(),
        0 <= b < p.len(),
    ensures
        is_permutation(swap_seq(p, a, b)),
{
    let q = swap_seq(p, a, b);
    assert(q.len() == p.len());
    assert forall|v: usize| v < q.len() implies #[trigger] contains_value(q, v) by {
        assert(contains_value(p, v));
        let i0 = choose|i: int| 0 <= i < p.len() && #[trigger] p[i] == v;
        if i0 == a {
            assert(q[b] == v);
        } else if i0 == b {
            assert(q[a] == v);
        } else {
            assert(q[i0] == v);
        }
    }
}

pub proof fn lemma_apply_swaps_permutation(p: Seq<usize>, t: Seq<usize>, k: int)
    requires
        is_permutation(p),
        p.len() <= usize::MAX,
        k <= t.len(),
        forall|i: int| 0 <= i < k ==> (#[trigger] t[i]) < p.len(),
        k <= p.len(),
    ensures
        is_permutation(apply_swaps(p, t, k)),
        apply_swaps(p, t, k).len() == p.len(),
    decreases k,
{
    if k > 0 {
        lemma_apply_swaps_permutation(p, t, k - 1);
        lemma_swap_seq_permutation(apply_swaps(p, t, k - 1), k - 1, t[k - 1] as int);
    }
}

/// Law: a permutation and a pointwise inverse of it invert each other in both
/// directions: if `q[p[i]] == i` for every `i`, then also `p[q[j]] == j` for
/// every `j`.
pub proof fn lemma_permutation_inverse_roundtrip(p: Seq<usize>, q: Seq<usize>)
    requires
        is_permutation(p),
        p.len() <= usize::MAX,
        q.len() == p.len(),
        forall|i: int| 0 <= i < p.len() ==> (#[trigger] q[p[i] as int]) == i,
    ensures
        forall|j: int| 0 <= j < p.len() ==> (#[trigger] p[q[j] as int]) == j,
        is_permutation(q),
{
    assert forall|j: int| 0 <= j < p.len() implies (#[trigger] p[q[j] as int]) == j by {
        assert(contains_value(p, j as usize));
        let i0 = choose|i: int| 0 <= i < p.len() && #[trigger] p[i] == (j as usize);
        assert(0 <= i0 < p.len());
        assert(p[i0] == (j as usize));
        assert(q[p[i0] as int] == i0);
        assert(p[i0] as int == j);
        assert(q[j] == i0);
    }
    assert forall|j: int| 0 <= j < q.len() implies (#[trigger] q[j]) < q.len() by {
        assert(contains_value(p, j as usize));
        let i0 = choose|i: int| 0 <= i < p.len() && #[trigger] p[i] == (j as usize);
        assert(p[i0] as int == j);
        assert(q[p[i0] as int] == i0);
        assert(q[j] == i0);
    }
    assert forall|i: int, j: int|
        0 <= i < q.len() && 0 <= j < q.len() && i != j implies q[i] != q[j] by {
        if q[i] == q[j] {
            assert(p[q[i] as int] == i);
            assert(p[q[j] as int] == j);
        }
    }
    assert forall|v: usize| v < q.len() implies #[trigger] contains_value(q, v) by {
        assert(q[p[v as int] as int] == v as int);
        assert(q[p[v as int] as int] == v);
    }
}

/// Swaps that exchange each position with itself change nothing.
pub proof fn lemma_apply_identity_swaps(p: Seq<usize>, t: Seq<usize>, k: int)
    requires
        k <= t.len(),
        k <= p.len(),
        forall|i: int| 0 <= i < k ==> (#[trigger] t[i]) as int == i,
    ensures
        apply_swaps(p, t, k) == p,
    decreases k,
{
    if k > 0 {
        lemma_apply_identity_swaps(p, t, k - 1);
        assert(swap_seq(p, k - 1, k - 1) =~= p);
    }
}

/// Fills `p` with the identity permutation.
pub fn fill_identity(p: &mut Vec<usize>)
    ensures
        final(p)@.len() == old(p)@.len(),
        final(p)@ == identity_seq(old(p)@.len() as int),
{
    let n = p.len();
    let mut i: usize = 0;
    while i < n
        invariant
            p@.len() == n,
            i <= n,
            forall|k: int| 0 <= k < i ==> (#[trigger] p@[k]) == k,
        decreases n - i,
    {
        p[i] = i;
        i += 1;
    }
    assert(p@ =~= identity_seq(n as int));
}

/// Exchanges `p[a]` and `p[b]`.
pub fn swap_entries(p: &mut Vec<usize>, a: usize, b: usize)
    requires
        a < old(p)@.len(),
        b < old(p)@.len(),
    ensures
        final(p)@ == swap_seq(old(p)@, a as int, b as int),
{
    let va = p[a];
    let vb = p[b];
    p[a] = vb;
    p[b] = va;
    assert(p@ =~= swap_seq(old(p)@, a as int, b as int));
}

/// Applies, in order, the transpositions `p.swap(i, t[i])` for `i` below
/// `t.len()`.
pub fn apply_transpositions(p: &mut Vec<usize>, t: &Vec<usize>)
    requires
        t@.len() <= old(p)@.len(),
        forall|i: int| 0 <= i < t@.len() ==> (#[trigger] t@[i]) < old(p)@.len(),
    ensures
        final(p)@ == apply_swaps(old(p)@, t@, t@.len() as int),
        final(p)@.len() == old(p)@.len(),
{
    let len = t.len();
    let mut i: usize = 0;
    while i < len
        invariant
            len == t@.len(),
            len <= p@.len(),
            p@.len() == old(p)@.len(),
            forall|k: int| 0 <= k < len ==> (#[trigger] t@[k]) < p@.len(),
            i <= len,
            p@ == apply_swaps(old(p)@, t@, i as int),
        decreases len - i,
    {
        swap_entries(p, i, t[i]);
        i += 1;
    }
}

/// Fills `q` with the inverse of the permutation `p`: `q[p[i]] = i`.
pub fn fill_inverse(p: &Vec<usize>, q: &mut Vec<usize>)
    requires
        is_permutation(p@),
        old(q)@.len() == p@.len(),
    ensures
        final(q)@.len() == p@.len(),
        forall|i: int| 0 <= i < p@.len() ==> (#[trigger] final(q)@[p@[i] as int]) == i,
        forall|j: int| 0 <= j < p@.len() ==> (#[trigger] p@[final(q)@[j] as int]) == j,
        is_permutation(final(q)@),
{
    let n = p.len();
    let mut i: usize = 0;
    while i < n
        invariant
            n == p@.len(),
            q@.len() == n,
            is_permutation(p@),
            i <= n,
            forall|k: int| 0 <= k < i ==> (#[trigger] q@[p@[k] as int]) == k,
        decreases n - i,
    {
        let dest = p[i];
        q[dest] = i;
        assert forall|k: int| 0 <= k < i + 1 implies (#[trigger] q@[p@[k] as int]) == k by {
            if k < i {
                assert(p@[k] != p@[i as int]);
            }
        }
        i += 1;
    }
    proof {
        lemma_permutation_inverse_roundtrip(p@, q@);
    }
}

/// A permutation of `{0, …, len-1}` together with its inverse, as produced by a
/// factorization.
pub struct Permutation {
    /// The forward image: row `i` of the permuted matrix is row `fwd[i]` of the
    /// original.
    pub fwd: Vec<usize>,
    /// The inverse image: `inv[fwd[i]] == i`.
    pub inv: Vec<usize>,
}

impl Permutation {
    /// Both arrays have the same length, each is a bijection, and they invert
    /// each other.
    pub open spec fn wf(&self) -> bool {
        &&& is_permutation(self.fwd@)
        &&& self.inv@.len() == self.fwd@.len()
        &&& forall|i: int|
            0 <= i < self.fwd@.len() ==> (#[trigger] self.inv@[self.fwd@[i] as int]) == i
        &&& forall|j: int|
            0 <= j < self.fwd@.len() ==> (#[trigger] self.fwd@[self.inv@[j] as int]) == j
        &&& is_permutation(self.inv@)
    }

    pub open spec fn spec_len(&self) -> int {
        self.fwd@.len() as int
    }

    pub fn len(&self) -> (r: usize)
        ensures
            r as int == self.spec_len(),
    {
        self.fwd.len()
    }

    /// Builds the pair from a forward permutation, computing the inverse.
    pub fn from_forward(fwd: Vec<usize>) -> (r: Permutation)
        requires
            is_permutation(fwd@),
        ensures
            r.wf(),
            r.fwd@ == fwd@,
    {
        let n = fwd.len();
        let mut inv: Vec<usize> = Vec::new();
        let mut i: usize = 0;
        while i < n
            invariant
                i <= n,
                inv@.len() == i,
            decreases n - i,
        {
            inv.push(0);
            i += 1;
        }
        fill_inverse(&fwd, &mut inv);
        Permutation { fwd, inv }
    }
}

/// Copies a permutation vector.
pub fn dup_indices(p: &Vec<usize>) -> (r: Vec<usize>)
    ensures
        r@ == p@,
{
    let n = p.len();
    let mut r: Vec<usize> = Vec::new();
    let mut i: usize = 0;
    while i < n
        invariant
            n == p@.len(),
            i <= n,
            r@ =~= p@.take(i as int),
        decreases n - i,
    {
        r.push(p[i]);
        i += 1;
    }
    assert(r@ =~= p@);
    r
}

} // verus!
