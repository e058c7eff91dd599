//! Forward and backward substitution against stored LU factors, optionally
//! reading the factors transposed and/or elementwise conjugated.

use vstd::prelude::*;
use crate::field::Field;
use crate::mat::Mat;
use crate::SizeOverflow;

verus! {

/// Entry `(r, c)` of the factor matrix as the solves read it: the stored
/// entry, or the entry of the transpose when `tr`, conjugated when `cj`.
pub open spec fn op_entry<T: Field>(f: Seq<Seq<T>>, tr: bool, cj: bool, r: int, c: int) -> T {
    let e = if tr {
        f[r][c]
    } else {
        f[c][r]
    };
    if cj {
        T::spec_conj(e)
    } else {
        e
    }
}

/// The running value of row `r` during forward substitution, after the terms
/// for rows `t < t_end` have been subtracted: `x[r] - Σ op(F)[r,t]·x[t]`,
/// accumulated in ascending `t`.
pub open spec fn facc<T: Field>(
    f: Seq<Seq<T>>,
    tr: bool,
    cj: bool,
    x: Seq<T>,
    r: int,
    t_end: int,
) -> T
    decreases t_end,
{
    if t_end <= 0 {
        x[r]
    } else {
        T::spec_sub(
            facc::<T>(f, tr, cj, x, r, t_end - 1),
            T::spec_mul(op_entry::<T>(f, tr, cj, r, t_end - 1), x[t_end - 1]),
        )
    }
}

/// The vector after the first `i` rows of a forward (lower-triangular)
/// substitution: row `r` becomes its accumulated value, divided by the
/// diagonal unless the factor has an implicit unit diagonal.
pub open spec fn fsolve<T: Field>(
    f: Seq<Seq<T>>,
    tr: bool,
    cj: bool,
    unit: bool,
    x: Seq<T>,
    i: int,
) -> Seq<T>
    decreases i,
{
    if i <= 0 {
        x
    } else {
        let p = fsolve::<T>(f, tr, cj, unit, x, i - 1);
        let a = facc::<T>(f, tr, cj, p, i - 1, i - 1);
        let v = if unit {
            a
        } else {
            T::spec_mul(a, T::spec_inv(op_entry::<T>(f, tr, cj, i - 1, i - 1)))
        };
        p.update(i - 1, v)
    }
}

/// The running value of row `r` during backward substitution, after the terms
/// for rows `r < t < t_end` have been subtracted, accumulated in ascending
/// `t`.
pub open spec fn bacc<T: Field>(
    f: Seq<Seq<T>>,
    tr: bool,
    cj: bool,
    x: Seq<T>,
    r: int,
    t_end: int,
) -> T
    decreases t_end - r,
{
    if t_end <= r + 1 {
        x[r]
    } else {
        T::spec_sub(
            bacc::<T>(f, tr, cj, x, r, t_end - 1),
            T::spec_mul(op_entry::<T>(f, tr, cj, r, t_end - 1), x[t_end - 1]),
        )
    }
}

/// The vector after the rows `i..x.len()` of a backward (upper-triangular)
/// substitution have been solved, from the last row upward.
pub open spec fn bsolve<T: Field>(
    f: Seq<Seq<T>>,
    tr: bool,
    cj: bool,
    unit: bool,
    x: Seq<T>,
    i: int,
) -> Seq<T>
    decreases x.len() - i,
{
    if i >= x.len() {
        x
    } else {
        let p = bsolve::<T>(f, tr, cj, unit, x, i + 1);
        let a = bacc::<T>(f, tr, cj, p, i, x.len() as int);
        let v = if unit {
            a
        } else {
            T::spec_mul(a, T::spec_inv(op_entry::<T>(f, tr, cj, i, i)))
        };
        p.update(i, v)
    }
}

/// Two factor grids that agree on every entry a row's accumulation reads
/// yield the same accumulated value.
pub proof fn lemma_facc_congruence<T: Field>(
    f1: Seq<Seq<T>>,
    f2: Seq<Seq<T>>,
    tr: bool,
    cj: bool,
    x: Seq<T>,
    r: int,
    t_end: int,
)
    requires
        forall|t: int|
            0 <= t < t_end ==> op_entry::<T>(f1, tr, cj, r, t) == op_entry::<T>(f2, tr, cj, r, t),
    ensures
        facc::<T>(f1, tr, cj, x, r, t_end) == facc::<T>(f2, tr, cj, x, r, t_end),
    decreases t_end,
{
    if t_end > 0 {
        lemma_facc_congruence::<T>(f1, f2, tr, cj, x, r, t_end - 1);
    }
}

/// Two factor grids that agree on every entry a forward substitution reads
/// (the sub-diagonal entries of the first `i` rows, and the diagonal when it
/// is used) yield the same solved vector.
pub proof fn lemma_fsolve_congruence<T: Field>(
    f1: Seq<Seq<T>>,
    f2: Seq<Seq<T>>,
    tr: bool,
    cj: bool,
    unit: bool,
    x: Seq<T>,
    i: int,
)
    requires
        forall|r: int, t: int|
            0 <= t <= r < i ==> op_entry::<T>(f1, tr, cj, r, t) == op_entry::<T>(f2, tr, cj, r, t),
    ensures
        fsolve::<T>(f1, tr, cj, unit, x, i) == fsolve::<T>(f2, tr, cj, unit, x, i),
    decreases i,
{
    if i > 0 {
        lemma_fsolve_congruence::<T>(f1, f2, tr, cj, unit, x, i - 1);
        lemma_facc_congruence::<T>(
            f1,
            f2,
            tr,
            cj,
            fsolve::<T>(f1, tr, cj, unit, x, i - 1),
            i - 1,
            i - 1,
        );
    }
}

/// A row accumulation over all-zero coefficients and an all-zero vector
/// stays zero.
proof fn lemma_facc_zero<T: Field>(f: Seq<Seq<T>>, tr: bool, cj: bool, x: Seq<T>, r: int, t_end: int)
    requires
        0 <= r < x.len(),
        x[r] == T::spec_zero(),
        forall|t: int| 0 <= t < t_end ==> #[trigger] x[t] == T::spec_zero(),
        t_end < x.len(),
    ensures
        facc::<T>(f, tr, cj, x, r, t_end) == T::spec_zero(),
    decreases t_end,
{
    if t_end > 0 {
        lemma_facc_zero::<T>(f, tr, cj, x, r, t_end - 1);
        T::lemma_zero_absorbs(op_entry::<T>(f, tr, cj, r, t_end - 1));
        T::lemma_zero_absorbs(T::spec_mul(op_entry::<T>(f, tr, cj, r, t_end - 1), x[t_end - 1]));
    }
}

/// Law (degenerate data): forward substitution of an all-zero unit-diagonal
/// system over an all-zero right-hand side leaves the vector all zero.
pub proof fn lemma_fsolve_zero<T: Field>(f: Seq<Seq<T>>, tr: bool, cj: bool, x: Seq<T>, i: int)
    requires
        forall|t: int| 0 <= t < x.len() ==> #[trigger] x[t] == T::spec_zero(),
        0 <= i <= x.len(),
    ensures
        fsolve::<T>(f, tr, cj, true, x, i) == x,
    decreases i,
{
    if i > 0 {
        lemma_fsolve_zero::<T>(f, tr, cj, x, i - 1);
        lemma_facc_zero::<T>(f, tr, cj, x, i - 1, i - 1);
        assert(x.update(i - 1, T::spec_zero()) =~= x);
    }
}

/// `x` reordered by the index list `p`: entry `i` of the result is
/// `x[p[i]]`.
pub open spec fn gathered<T>(x: Seq<T>, p: Seq<usize>) -> Seq<T> {
    Seq::new(p.len(), |i: int| x[p[i] as int])
}

/// Reads entry `(r, c)` of the factor matrix as the solves see it.
fn op_read<T: Field>(f: &Mat<T>, tr: bool, cj: bool, r: usize, c: usize) -> (v: T)
    requires
        f.wf(),
        r < f.spec_nrows(),
        r < f.spec_ncols(),
        c < f.spec_nrows(),
        c < f.spec_ncols(),
    ensures
        v == op_entry::<T>(f@, tr, cj, r as int, c as int),
{
    let e = if tr {
        f.read(c, r)
    } else {
        f.read(r, c)
    };
    if cj {
        e.conj()
    } else {
        e
    }
}

/// Solves one right-hand-side column in place by forward substitution.
pub(crate) fn forward_solve_col<T: Field>(
    f: &Mat<T>,
    x: &mut Vec<T>,
    tr: bool,
    cj: bool,
    unit: bool,
)
    requires
        f.wf(),
        old(x)@.len() <= f.spec_nrows(),
        old(x)@.len() <= f.spec_ncols(),
    ensures
        final(x)@.len() == old(x)@.len(),
        final(x)@ == fsolve::<T>(f@, tr, cj, unit, old(x)@, old(x)@.len() as int),
{
    let n = x.len();
    let mut r: usize = 0;
    while r < n
        invariant
            f.wf(),
            n == old(x)@.len(),
            n <= f.spec_nrows(),
            n <= f.spec_ncols(),
            r <= n,
            x@.len() == n,
            x@ == fsolve::<T>(f@, tr, cj, unit, old(x)@, r as int),
        decreases n - r,
    {
        let ghost cur = x@;
        let mut acc = x[r];
        let mut t: usize = 0;
        while t < r
            invariant
                f.wf(),
                n <= f.spec_nrows(),
                n <= f.spec_ncols(),
                t <= r < n,
                x@ == cur,
                x@.len() == n,
                acc == facc::<T>(f@, tr, cj, cur, r as int, t as int),
            decreases r - t,
        {
            acc = acc.sub(op_read(f, tr, cj, r, t).mul(x[t]));
            t += 1;
        }
        if !unit {
            acc = acc.mul(op_read(f, tr, cj, r, r).inv());
        }
        x[r] = acc;
        proof {
            assert(x@ =~= fsolve::<T>(f@, tr, cj, unit, old(x)@, r as int + 1));
        }
        r += 1;
    }
}

/// Solves one right-hand-side column in place by backward substitution.
pub(crate) fn backward_solve_col<T: Field>(
    f: &Mat<T>,
    x: &mut Vec<T>,
    tr: bool,
    cj: bool,
    unit: bool,
)
    requires
        f.wf(),
        old(x)@.len() <= f.spec_nrows(),
        old(x)@.len() <= f.spec_ncols(),
    ensures
        final(x)@.len() == old(x)@.len(),
        final(x)@ == bsolve::<T>(f@, tr, cj, unit, old(x)@, 0),
{
    let n = x.len();
    let mut r: usize = n;
    while r > 0
        invariant
            f.wf(),
            n == old(x)@.len(),
            n <= f.spec_nrows(),
            n <= f.spec_ncols(),
            r <= n,
            x@.len() == n,
            x@ == bsolve::<T>(f@, tr, cj, unit, old(x)@, r as int),
        decreases r,
    {
        r -= 1;
        let ghost cur = x@;
        let mut acc = x[r];
        let mut t: usize = r + 1;
        while t < n
            invariant
                f.wf(),
                n <= f.spec_nrows(),
                n <= f.spec_ncols(),
                r < t <= n,
                r < n,
                x@ == cur,
                x@.len() == n,
                acc == bacc::<T>(f@, tr, cj, cur, r as int, t as int),
            decreases n - t,
        {
            acc = acc.sub(op_read(f, tr, cj, r, t).mul(x[t]));
            t += 1;
        }
        if !unit {
            acc = acc.mul(op_read(f, tr, cj, r, r).inv());
        }
        x[r] = acc;
        proof {
            assert(x@ =~= bsolve::<T>(f@, tr, cj, unit, old(x)@, r as int));
        }
    }
}

/// The number of scratch elements of a temporary `m × k` matrix, or an error
/// when that count does not fit a `usize`.
pub(crate) fn temp_mat_elems(m: usize, k: usize) -> (r: Result<usize, SizeOverflow>)
    ensures
        m * k <= usize::MAX ==> r == Ok::<usize, SizeOverflow>((m * k) as usize),
        m * k > usize::MAX ==> r == Err::<usize, SizeOverflow>(SizeOverflow),
{
    if k == 0 {
        return Ok(0);
    }
    if m <= usize::MAX / k {
        proof {
            assert(m * k <= usize::MAX) by (nonlinear_arith)
                requires
                    k >= 1,
                    m <= usize::MAX as int / k as int,
            ;
        }
        Ok(m * k)
    } else {
        proof {
            assert(m * k > usize::MAX) by (nonlinear_arith)
                requires
                    k >= 1,
                    m > usize::MAX as int / k as int,
            ;
        }
        Err(SizeOverflow)
    }
}

} // verus!
