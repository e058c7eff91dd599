//! LU factorization with full pivoting: `P·A·Qᵗ = L·U`.
//!
//! At every step the pivot is the entry of largest score in the whole trailing
//! sub-matrix; rows and columns are both permuted. The contracts pin the
//! output, entry by entry, to the elimination recurrence [`flu_iter`], and the
//! permutations to the recorded transpositions.

use vstd::prelude::*;
use crate::field::Field;
use crate::mat::{Mat, is_grid, grid_swap_rows, grid_swap_cols, spec_size};
use crate::perm::{
    Permutation, apply_swaps, identity_seq, is_permutation, fill_identity, apply_transpositions,
    fill_inverse, dup_indices, lemma_identity_is_permutation, lemma_apply_swaps_permutation,
    lemma_apply_identity_swaps,
};
use crate::pivot::{
    mat_pivot, mat_pivot_ok, lemma_mat_pivot_unique, lemma_mat_pivot_exists, best_in_matrix,
    rank_one_updated, rank_one_update_and_best_in_matrix, col_scaled_below, scale_col_below,
};
use crate::{Parallelism, SizeOverflow};

verus! {

/// One elimination step of the full-pivoting factorization, applied to the
/// state `g` before step `k`: locate the pivot in the trailing region, swap
/// its row and column to the diagonal, scale the eliminated column, and (on
/// every step but the last) apply the rank-1 Schur-complement update.
pub open spec fn flu_step<T: Field>(g: Seq<Seq<T>>, m: int, size: int, k: int) -> Seq<Seq<T>> {
    let rc = mat_pivot::<T>(g, m, k);
    let s = grid_swap_cols(grid_swap_rows(g, k, rc.0), k, rc.1);
    let sc = col_scaled_below::<T>(s, k);
    if k + 1 == size {
        sc
    } else {
        rank_one_updated::<T>(sc, k)
    }
}

/// The state after the first `k` elimination steps.
pub open spec fn flu_iter<T: Field>(g: Seq<Seq<T>>, m: int, size: int, k: int) -> Seq<Seq<T>>
    decreases k,
{
    if k <= 0 {
        g
    } else {
        flu_step::<T>(flu_iter::<T>(g, m, size, k - 1), m, size, k - 1)
    }
}

/// The (row, column) pivot chosen at step `k`.
pub open spec fn flu_pivot_at<T: Field>(g: Seq<Seq<T>>, m: int, size: int, k: int) -> (int, int) {
    mat_pivot::<T>(flu_iter::<T>(g, m, size, k), m, k)
}

/// How many of the first `k` steps actually swapped a row, plus how many
/// actually swapped a column.
pub open spec fn flu_ntrans<T: Field>(g: Seq<Seq<T>>, m: int, size: int, k: int) -> int
    decreases k,
{
    if k <= 0 {
        0
    } else {
        let rc = flu_pivot_at::<T>(g, m, size, k - 1);
        flu_ntrans::<T>(g, m, size, k - 1) + (if rc.0 != k - 1 {
            1int
        } else {
            0int
        }) + (if rc.1 != k - 1 {
            1int
        } else {
            0int
        })
    }
}

/// The row transpositions of a factorization of an `m × n` matrix, extended
/// with identity entries past `size = min(m, n)` (those steps swap nothing).
pub open spec fn flu_row_transpositions<T: Field>(
    g: Seq<Seq<T>>,
    m: int,
    size: int,
    len: int,
) -> Seq<usize> {
    Seq::new(
        len as nat,
        |i: int|
            if i < size {
                flu_pivot_at::<T>(g, m, size, i).0 as usize
            } else {
                i as usize
            },
    )
}

/// The column transpositions, extended the same way.
pub open spec fn flu_col_transpositions<T: Field>(
    g: Seq<Seq<T>>,
    m: int,
    size: int,
    len: int,
) -> Seq<usize> {
    Seq::new(
        len as nat,
        |i: int|
            if i < size {
                flu_pivot_at::<T>(g, m, size, i).1 as usize
            } else {
                i as usize
            },
    )
}

/// Configuration of the full-pivoting factorization.
#[derive(Default, Copy, Clone)]
#[non_exhaustive]
pub struct FullPivLuComputeParams {}

/// The number of scratch elements (two index arrays) a full-pivoting
/// factorization of an `m × n` matrix allocates.
pub fn lu_in_place_req(
    m: usize,
    n: usize,
    parallelism: Parallelism,
    params: FullPivLuComputeParams,
) -> (r: Result<usize, SizeOverflow>)
    ensures
        m + n <= usize::MAX ==> r == Ok::<usize, SizeOverflow>((m + n) as usize),
        m + n > usize::MAX ==> r == Err::<usize, SizeOverflow>(SizeOverflow),
{
    let _ = parallelism;
    let _ = params;
    if n <= usize::MAX - m {
        Ok(m + n)
    } else {
        Err(SizeOverflow)
    }
}

/// The elimination loop: factors the matrix in place and records, for each
/// step, the chosen pivot row and column.
fn lu_in_place_unblocked<T: Field>(
    m: &mut Mat<T>,
    row_t: &mut Vec<usize>,
    col_t: &mut Vec<usize>,
) -> (nt: usize)
    requires
        old(m).wf(),
        old(row_t)@.len() == old(m).spec_nrows(),
        old(col_t)@.len() == old(m).spec_ncols(),
        old(m).spec_nrows() + old(m).spec_ncols() <= usize::MAX,
    ensures
        final(m).wf(),
        final(m).nrows == old(m).nrows,
        final(m).spec_ncols() == old(m).spec_ncols(),
        final(m)@ == flu_iter::<T>(
            old(m)@,
            old(m).spec_nrows(),
            spec_size(old(m).spec_nrows(), old(m).spec_ncols()),
            spec_size(old(m).spec_nrows(), old(m).spec_ncols()),
        ),
        final(row_t)@.len() == old(row_t)@.len(),
        final(col_t)@.len() == old(col_t)@.len(),
        forall|kk: int|
            0 <= kk < spec_size(old(m).spec_nrows(), old(m).spec_ncols())
                ==> (#[trigger] final(row_t)@[kk]) as int == flu_pivot_at::<T>(
                old(m)@,
                old(m).spec_nrows(),
                spec_size(old(m).spec_nrows(), old(m).spec_ncols()),
                kk,
            ).0 && (final(row_t)@[kk] as int) < old(m).spec_nrows(),
        forall|kk: int|
            0 <= kk < spec_size(old(m).spec_nrows(), old(m).spec_ncols())
                ==> (#[trigger] final(col_t)@[kk]) as int == flu_pivot_at::<T>(
                old(m)@,
                old(m).spec_nrows(),
                spec_size(old(m).spec_nrows(), old(m).spec_ncols()),
                kk,
            ).1 && (final(col_t)@[kk] as int) < old(m).spec_ncols(),
        forall|kk: int|
            spec_size(old(m).spec_nrows(), old(m).spec_ncols()) <= kk < old(row_t)@.len()
                ==> (#[trigger] final(row_t)@[kk]) == old(row_t)@[kk],
        forall|kk: int|
            spec_size(old(m).spec_nrows(), old(m).spec_ncols()) <= kk < old(col_t)@.len()
                ==> (#[trigger] final(col_t)@[kk]) == old(col_t)@[kk],
        nt as int == flu_ntrans::<T>(
            old(m)@,
            old(m).spec_nrows(),
            spec_size(old(m).spec_nrows(), old(m).spec_ncols()),
            spec_size(old(m).spec_nrows(), old(m).spec_ncols()),
        ),
{
    let nr = m.nrows();
    let nc = m.ncols();
    if nr == 0 || nc == 0 {
        return 0;
    }
    let size = if nr < nc {
        nr
    } else {
        nc
    };
    let ghost g0 = m@;
    let ghost gm = m.spec_nrows();
    let ghost gsize = spec_size(old(m).spec_nrows(), old(m).spec_ncols());
    proof {
        assert(gsize == size as int);
    }
    let mut nt: usize = 0;
    let mut piv = best_in_matrix(m, 0);
    let mut k: usize = 0;
    while k < size
        invariant
            m.wf(),
            m.nrows == old(m).nrows,
            nr == m.spec_nrows(),
            nc == m.spec_ncols(),
            nc == old(m).spec_ncols(),
            0 < nr,
            0 < nc,
            nr + nc <= usize::MAX,
            size as int == gsize,
            size <= nr,
            size <= nc,
            g0 == old(m)@,
            gm == nr as int,
            k <= size,
            m@ == flu_iter::<T>(g0, gm, gsize, k as int),
            k < size ==> mat_pivot_ok::<T>(m@, gm, k as int, piv.0 as int, piv.1 as int),
            row_t@.len() == old(row_t)@.len(),
            col_t@.len() == old(col_t)@.len(),
            row_t@.len() == nr,
            col_t@.len() == nc,
            forall|kk: int|
                0 <= kk < k ==> (#[trigger] row_t@[kk]) as int == flu_pivot_at::<T>(
                    g0,
                    gm,
                    gsize,
                    kk,
                ).0 && (row_t@[kk] as int) < nr,
            forall|kk: int|
                0 <= kk < k ==> (#[trigger] col_t@[kk]) as int == flu_pivot_at::<T>(
                    g0,
                    gm,
                    gsize,
                    kk,
                ).1 && (col_t@[kk] as int) < nc,
            forall|kk: int|
                k <= kk < nr ==> (#[trigger] row_t@[kk]) == old(row_t)@[kk],
            forall|kk: int|
                k <= kk < nc ==> (#[trigger] col_t@[kk]) == old(col_t)@[kk],
            nt as int == flu_ntrans::<T>(g0, gm, gsize, k as int),
            nt <= 2 * k,
        decreases size - k,
    {
        let (pr, pc) = piv;
        let ghost gk = m@;
        proof {
            lemma_mat_pivot_unique::<T>(gk, gm, k as int, pr as int, pc as int);
        }
        row_t[k] = pr;
        col_t[k] = pc;
        if pr != k {
            nt += 1;
            m.swap_rows(k, pr);
        }
        if pc != k {
            nt += 1;
            m.swap_cols(k, pc);
        }
        proof {
            if pr == k {
                assert(grid_swap_rows(gk, k as int, pr as int) =~~= gk);
            }
            if pc == k {
                assert(grid_swap_cols(grid_swap_rows(gk, k as int, pr as int), k as int, pc as int)
                    =~~= grid_swap_rows(gk, k as int, pr as int));
            }
            assert(m@ == grid_swap_cols(
                grid_swap_rows(gk, k as int, pr as int),
                k as int,
                pc as int,
            ));
        }
        scale_col_below(m, k);
        if k + 1 == size {
            proof {
                assert(m@ == flu_step::<T>(gk, gm, gsize, k as int));
                assert(m@ == flu_iter::<T>(g0, gm, gsize, k as int + 1));
            }
            k += 1;
        } else {
            piv = rank_one_update_and_best_in_matrix(m, k);
            proof {
                assert(m@ == flu_step::<T>(gk, gm, gsize, k as int));
                assert(m@ == flu_iter::<T>(g0, gm, gsize, k as int + 1));
            }
            k += 1;
        }
    }
    nt
}

/// Computes the LU decomposition of the matrix with full pivoting, replacing
/// the matrix with its factors in place: `P·A·Qᵗ = L·U`, with `L` stored
/// strictly below the diagonal (implicit unit diagonal) and `U` on and above
/// it.
///
/// The entries of the output are exactly the values of the elimination
/// recurrence [`flu_iter`]; the permutations are exactly the recorded
/// transpositions applied to the identity, and each is returned together with
/// its inverse. The result depends only on the input matrix, never on
/// `parallelism`.
///
/// Returns the number of transpositions, the row permutation and the column
/// permutation.
pub fn lu_in_place<T: Field>(
    matrix: &mut Mat<T>,
    row_perm: &mut Vec<usize>,
    row_perm_inv: &mut Vec<usize>,
    col_perm: &mut Vec<usize>,
    col_perm_inv: &mut Vec<usize>,
    parallelism: Parallelism,
    params: FullPivLuComputeParams,
) -> (r: (usize, Permutation, Permutation))
    requires
        old(matrix).wf(),
        old(row_perm)@.len() == old(matrix).spec_nrows(),
        old(row_perm_inv)@.len() == old(matrix).spec_nrows(),
        old(col_perm)@.len() == old(matrix).spec_ncols(),
        old(col_perm_inv)@.len() == old(matrix).spec_ncols(),
        old(matrix).spec_nrows() + old(matrix).spec_ncols() <= usize::MAX,
    ensures
        final(matrix).wf(),
        final(matrix).nrows == old(matrix).nrows,
        final(matrix).spec_ncols() == old(matrix).spec_ncols(),
        final(matrix)@ == flu_iter::<T>(
            old(matrix)@,
            old(matrix).spec_nrows(),
            spec_size(old(matrix).spec_nrows(), old(matrix).spec_ncols()),
            spec_size(old(matrix).spec_nrows(), old(matrix).spec_ncols()),
        ),
        final(row_perm)@ == apply_swaps(
            identity_seq(old(matrix).spec_nrows()),
            flu_row_transpositions::<T>(
                old(matrix)@,
                old(matrix).spec_nrows(),
                spec_size(old(matrix).spec_nrows(), old(matrix).spec_ncols()),
                old(matrix).spec_nrows(),
            ),
            old(matrix).spec_nrows(),
        ),
        final(col_perm)@ == apply_swaps(
            identity_seq(old(matrix).spec_ncols()),
            flu_col_transpositions::<T>(
                old(matrix)@,
                old(matrix).spec_nrows(),
                spec_size(old(matrix).spec_nrows(), old(matrix).spec_ncols()),
                old(matrix).spec_ncols(),
            ),
            old(matrix).spec_ncols(),
        ),
        is_permutation(final(row_perm)@),
        is_permutation(final(col_perm)@),
        final(row_perm_inv)@.len() == old(matrix).spec_nrows(),
        final(col_perm_inv)@.len() == old(matrix).spec_ncols(),
        forall|i: int|
            0 <= i < old(matrix).spec_nrows()
                ==> (#[trigger] final(row_perm_inv)@[final(row_perm)@[i] as int]) == i,
        forall|i: int|
            0 <= i < old(matrix).spec_nrows()
                ==> (#[trigger] final(row_perm)@[final(row_perm_inv)@[i] as int]) == i,
        forall|i: int|
            0 <= i < old(matrix).spec_ncols()
                ==> (#[trigger] final(col_perm_inv)@[final(col_perm)@[i] as int]) == i,
        forall|i: int|
            0 <= i < old(matrix).spec_ncols()
                ==> (#[trigger] final(col_perm)@[final(col_perm_inv)@[i] as int]) == i,
        r.0 as int == flu_ntrans::<T>(
            old(matrix)@,
            old(matrix).spec_nrows(),
            spec_size(old(matrix).spec_nrows(), old(matrix).spec_ncols()),
            spec_size(old(matrix).spec_nrows(), old(matrix).spec_ncols()),
        ),
        r.1.wf(),
        r.1.fwd@ == final(row_perm)@,
        r.1.inv@ == final(row_perm_inv)@,
        r.2.wf(),
        r.2.fwd@ == final(col_perm)@,
        r.2.inv@ == final(col_perm_inv)@,
{
    let _ = parallelism;
    let _ = params;
    let nr = matrix.nrows();
    let nc = matrix.ncols();
    let ghost g0 = matrix@;
    let ghost gm = matrix.spec_nrows();
    let ghost gsize = spec_size(gm, matrix.spec_ncols());

    let mut row_t: Vec<usize> = Vec::new();
    let mut i: usize = 0;
    while i < nr
        invariant
            i <= nr,
            row_t@.len() == i,
            forall|kk: int| 0 <= kk < i ==> (#[trigger] row_t@[kk]) == kk,
        decreases nr - i,
    {
        row_t.push(i);
        i += 1;
    }
    let mut col_t: Vec<usize> = Vec::new();
    let mut i2: usize = 0;
    while i2 < nc
        invariant
            i2 <= nc,
            col_t@.len() == i2,
            forall|kk: int| 0 <= kk < i2 ==> (#[trigger] col_t@[kk]) == kk,
        decreases nc - i2,
    {
        col_t.push(i2);
        i2 += 1;
    }

    let n_transpositions = lu_in_place_unblocked(matrix, &mut row_t, &mut col_t);

    proof {
        assert(row_t@ =~= flu_row_transpositions::<T>(g0, gm, gsize, nr as int));
        assert(col_t@ =~= flu_col_transpositions::<T>(g0, gm, gsize, nc as int));
    }

    fill_identity(row_perm);
    proof {
        lemma_identity_is_permutation(nr as int);
        lemma_apply_swaps_permutation(identity_seq(nr as int), row_t@, nr as int);
    }
    apply_transpositions(row_perm, &row_t);
    fill_inverse(row_perm, row_perm_inv);

    fill_identity(col_perm);
    proof {
        lemma_identity_is_permutation(nc as int);
        lemma_apply_swaps_permutation(identity_seq(nc as int), col_t@, nc as int);
    }
    apply_transpositions(col_perm, &col_t);
    fill_inverse(col_perm, col_perm_inv);

    let row_p = Permutation { fwd: dup_indices(row_perm), inv: dup_indices(row_perm_inv) };
    let col_p = Permutation { fwd: dup_indices(col_perm), inv: dup_indices(col_perm_inv) };
    (n_transpositions, row_p, col_p)
}

/// Law (pivot selection): at every elimination step the recurrence keeps the
/// matrix an `m × n` grid, and the pivot it selects is the first position, in
/// column-major order, of largest score in the trailing region of the state
/// reached at that step.
pub proof fn lemma_full_pivot_choice_maximal<T: Field>(g: Seq<Seq<T>>, m: int, n: int, k: int)
    requires
        is_grid(g, m, n),
        0 < m,
        0 < n,
        0 <= k <= spec_size(m, n),
    ensures
        is_grid(flu_iter::<T>(g, m, spec_size(m, n), k), m, n),
        forall|kk: int|
            0 <= kk < k ==> mat_pivot_ok::<T>(
                flu_iter::<T>(g, m, spec_size(m, n), kk),
                m,
                kk,
                (#[trigger] flu_pivot_at::<T>(g, m, spec_size(m, n), kk)).0,
                flu_pivot_at::<T>(g, m, spec_size(m, n), kk).1,
            ),
    decreases k,
{
    let size = spec_size(m, n);
    if k > 0 {
        lemma_full_pivot_choice_maximal::<T>(g, m, n, k - 1);
        let kk = k - 1;
        let gk = flu_iter::<T>(g, m, size, kk);
        lemma_mat_pivot_exists::<T>(gk, m, kk);
        let rc = mat_pivot::<T>(gk, m, kk);
        let s = grid_swap_cols(grid_swap_rows(gk, kk, rc.0), kk, rc.1);
        assert forall|j: int| 0 <= j < n implies (#[trigger] s[j]).len() == m by {
            assert(grid_swap_rows(gk, kk, rc.0)[j].len() == m);
            assert(grid_swap_rows(gk, kk, rc.0)[rc.1].len() == m);
            assert(grid_swap_rows(gk, kk, rc.0)[kk].len() == m);
        }
        let sc = col_scaled_below::<T>(s, kk);
        assert forall|j: int| 0 <= j < n implies (#[trigger] sc[j]).len() == m by {
            assert(s[j].len() == m);
        }
        if kk + 1 != size {
            let up = rank_one_updated::<T>(sc, kk);
            assert forall|j: int| 0 <= j < n implies (#[trigger] up[j]).len() == m by {
                assert(sc[j].len() == m);
            }
        }
        assert(is_grid(flu_iter::<T>(g, m, size, k), m, n));
    }
}

/// Law (degenerate case): an all-zero matrix factors without work. Every
/// pivot defaults to the diagonal, no transposition is counted, the matrix is
/// left all zero, and the resulting row and column permutations are the
/// identity.
pub proof fn lemma_full_pivoting_zero_matrix<T: Field>(g: Seq<Seq<T>>, m: int, n: int, k: int)
    requires
        is_grid(g, m, n),
        0 < m,
        0 < n,
        forall|j: int, i: int|
            0 <= j < n && 0 <= i < m ==> #[trigger] g[j][i] == T::spec_zero(),
        0 <= k <= spec_size(m, n),
    ensures
        flu_iter::<T>(g, m, spec_size(m, n), k) == g,
        forall|kk: int|
            0 <= kk < k ==> #[trigger] flu_pivot_at::<T>(g, m, spec_size(m, n), kk) == (kk, kk),
        flu_ntrans::<T>(g, m, spec_size(m, n), k) == 0,
        k == spec_size(m, n) && m <= usize::MAX && n <= usize::MAX ==> apply_swaps(
            identity_seq(m),
            flu_row_transpositions::<T>(g, m, spec_size(m, n), m),
            m,
        ) == identity_seq(m) && apply_swaps(
            identity_seq(n),
            flu_col_transpositions::<T>(g, m, spec_size(m, n), n),
            n,
        ) == identity_seq(n),
    decreases k,
{
    let size = spec_size(m, n);
    if k > 0 {
        lemma_full_pivoting_zero_matrix::<T>(g, m, n, k - 1);
        let kk = k - 1;
        assert(mat_pivot_ok::<T>(g, m, kk, kk, kk));
        lemma_mat_pivot_unique::<T>(g, m, kk, kk, kk);
        assert(flu_pivot_at::<T>(g, m, size, kk) == (kk, kk));
        let s0 = grid_swap_rows(g, kk, kk);
        assert(s0 =~~= g);
        let s1 = grid_swap_cols(s0, kk, kk);
        assert(s1 =~~= g);
        let sc = col_scaled_below::<T>(g, kk);
        assert forall|j: int, i: int| 0 <= j < n && 0 <= i < m implies #[trigger] sc[j][i]
            == T::spec_zero() by {
            if j == kk && i > kk {
                T::lemma_zero_absorbs(T::spec_inv(g[kk][kk]));
            }
        }
        assert(sc =~~= g);
        if kk + 1 != size {
            let up = rank_one_updated::<T>(g, kk);
            assert forall|j: int, i: int| 0 <= j < n && 0 <= i < m implies #[trigger] up[j][i]
                == T::spec_zero() by {
                if i > kk && j > kk {
                    T::lemma_zero_absorbs(g[j][kk]);
                    T::lemma_zero_absorbs(T::spec_zero());
                }
            }
            assert(up =~~= g);
        }
        assert(flu_step::<T>(g, m, size, kk) == g);
        assert(flu_iter::<T>(g, m, size, k) == g);
    } else {
        assert(flu_iter::<T>(g, m, size, 0) == g);
    }
    if k == size && m <= usize::MAX && n <= usize::MAX {
        let rt = flu_row_transpositions::<T>(g, m, size, m);
        assert forall|i: int| 0 <= i < m implies (#[trigger] rt[i]) as int == i by {}
        lemma_apply_identity_swaps(identity_seq(m), rt, m);
        let ct = flu_col_transpositions::<T>(g, m, size, n);
        assert forall|i: int| 0 <= i < n implies (#[trigger] ct[i]) as int == i by {}
        lemma_apply_identity_swaps(identity_seq(n), ct, n);
    }
}

} // verus!
