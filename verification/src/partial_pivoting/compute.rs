//! LU factorization with partial pivoting: `P·A = L·U`.
//!
//! At every step the pivot is the entry of largest score in the current
//! column at or below the diagonal; only rows are permuted. The contracts pin
//! the output, entry by entry, to the elimination recurrence [`plu_iter`]
//! (with, for wide matrices, the closing unit-lower-triangular solve of the
//! columns past the pivot window), and the permutation to the recorded
//! transpositions.

use vstd::prelude::*;
use crate::field::Field;
use crate::mat::{Mat, is_grid, grid_swap_rows, spec_size};
use crate::perm::{
    Permutation, apply_swaps, identity_seq, is_permutation, fill_identity, swap_entries,
    fill_inverse, dup_indices, lemma_identity_is_permutation, lemma_apply_swaps_permutation,
    lemma_apply_identity_swaps,
};
use crate::pivot::{
    col_pivot, col_pivot_ok, lemma_col_pivot_unique, lemma_col_pivot_exists, best_in_col,
    col_scaled_below, scale_col_below, rank_one_updated_window, rank_one_update_window,
};
use crate::triangular::{
    fsolve, forward_solve_col, lemma_fsolve_congruence, lemma_fsolve_zero, op_entry,
};
use crate::{Parallelism, SizeOverflow};

verus! {

/// One elimination step of the partial-pivoting factorization applied to the
/// state `g` before step `j`: find the pivot row in column `j`, swap it to
/// the diagonal across the full width, scale the eliminated column, and apply
/// the rank-1 update of the remaining window columns `j+1..size`.
pub open spec fn plu_step<T: Field>(g: Seq<Seq<T>>, size: int, j: int) -> Seq<Seq<T>> {
    let p = col_pivot::<T>(g[j], j);
    let s = grid_swap_rows(g, j, p);
    let sc = col_scaled_below::<T>(s, j);
    rank_one_updated_window::<T>(sc, j, size)
}

/// The state after the first `j` elimination steps.
pub open spec fn plu_iter<T: Field>(g: Seq<Seq<T>>, size: int, j: int) -> Seq<Seq<T>>
    decreases j,
{
    if j <= 0 {
        g
    } else {
        plu_step::<T>(plu_iter::<T>(g, size, j - 1), size, j - 1)
    }
}

/// The pivot row chosen at step `j`.
pub open spec fn plu_pivot_at<T: Field>(g: Seq<Seq<T>>, size: int, j: int) -> int {
    col_pivot::<T>(plu_iter::<T>(g, size, j)[j], j)
}

/// How many of the first `j` steps actually swapped two distinct rows.
pub open spec fn plu_ntrans<T: Field>(g: Seq<Seq<T>>, size: int, j: int) -> int
    decreases j,
{
    if j <= 0 {
        0
    } else {
        plu_ntrans::<T>(g, size, j - 1) + (if plu_pivot_at::<T>(g, size, j - 1) != j - 1 {
            1int
        } else {
            0int
        })
    }
}

/// The recorded row transpositions: at step `j`, row `j` was swapped with the
/// pivot row.
pub open spec fn plu_transpositions<T: Field>(g: Seq<Seq<T>>, size: int) -> Seq<usize> {
    Seq::new(size as nat, |j: int| plu_pivot_at::<T>(g, size, j) as usize)
}

/// The factored matrix: the elimination over the `size = min(m, n)` pivot
/// columns and, when the matrix is wide (`m < n`), the closing forward
/// substitution that extends the factorization over the remaining columns.
pub open spec fn plu_result<T: Field>(g: Seq<Seq<T>>, m: int, n: int) -> Seq<Seq<T>> {
    let size = spec_size(m, n);
    let h = plu_iter::<T>(g, size, size);
    if m < n {
        Seq::new(
            n as nat,
            |c: int|
                if c < size {
                    h[c]
                } else {
                    fsolve::<T>(h, false, false, true, h[c], m)
                },
        )
    } else {
        h
    }
}

/// Configuration of the partial-pivoting factorization.
#[derive(Default, Copy, Clone)]
#[non_exhaustive]
pub struct PartialPivLuComputeParams {}

/// The number of scratch elements a partial-pivoting factorization of an
/// `m × n` matrix allocates: a column buffer for the wide-matrix tail, and
/// nothing otherwise.
pub fn lu_in_place_req(
    m: usize,
    n: usize,
    parallelism: Parallelism,
    params: PartialPivLuComputeParams,
) -> (r: Result<usize, SizeOverflow>)
    ensures
        r == Ok::<usize, SizeOverflow>(
            if m < n {
                m
            } else {
                0
            },
        ),
{
    let _ = parallelism;
    let _ = params;
    if m < n {
        Ok(m)
    } else {
        Ok(0)
    }
}

/// Computes the LU decomposition of the matrix with partial pivoting,
/// replacing the matrix with its factors in place: `P·A = L·U`, with `L`
/// stored strictly below the diagonal (implicit unit diagonal) and `U` on and
/// above it.
///
/// The entries of the output are exactly the values of [`plu_result`]; the
/// permutation is exactly the recorded transpositions applied to the
/// identity, and is returned together with its inverse. The result depends
/// only on the input matrix, never on `parallelism`.
///
/// Returns the number of transpositions and the row permutation.
pub fn lu_in_place<T: Field>(
    matrix: &mut Mat<T>,
    perm: &mut Vec<usize>,
    perm_inv: &mut Vec<usize>,
    parallelism: Parallelism,
    params: PartialPivLuComputeParams,
) -> (r: (usize, Permutation))
    requires
        old(matrix).wf(),
        old(perm)@.len() == old(matrix).spec_nrows(),
        old(perm_inv)@.len() == old(matrix).spec_nrows(),
    ensures
        final(matrix).wf(),
        final(matrix).nrows == old(matrix).nrows,
        final(matrix).spec_ncols() == old(matrix).spec_ncols(),
        final(matrix)@ == plu_result::<T>(
            old(matrix)@,
            old(matrix).spec_nrows(),
            old(matrix).spec_ncols(),
        ),
        final(perm)@ == apply_swaps(
            identity_seq(old(matrix).spec_nrows()),
            plu_transpositions::<T>(
                old(matrix)@,
                spec_size(old(matrix).spec_nrows(), old(matrix).spec_ncols()),
            ),
            spec_size(old(matrix).spec_nrows(), old(matrix).spec_ncols()),
        ),
        is_permutation(final(perm)@),
        final(perm)@.len() == old(matrix).spec_nrows(),
        final(perm_inv)@.len() == old(matrix).spec_nrows(),
        forall|i: int|
            0 <= i < old(matrix).spec_nrows()
                ==> (#[trigger] final(perm_inv)@[final(perm)@[i] as int]) == i,
        forall|i: int|
            0 <= i < old(matrix).spec_nrows()
                ==> (#[trigger] final(perm)@[final(perm_inv)@[i] as int]) == i,
        is_permutation(final(perm_inv)@),
        r.0 as int == plu_ntrans::<T>(
            old(matrix)@,
            spec_size(old(matrix).spec_nrows(), old(matrix).spec_ncols()),
            spec_size(old(matrix).spec_nrows(), old(matrix).spec_ncols()),
        ),
        r.1.wf(),
        r.1.fwd@ == final(perm)@,
        r.1.inv@ == final(perm_inv)@,
{
    let _ = parallelism;
    let _ = params;
    let nr = matrix.nrows();
    let nc = matrix.ncols();
    let size = if nr < nc {
        nr
    } else {
        nc
    };
    let ghost g0 = matrix@;
    let ghost gsize = spec_size(old(matrix).spec_nrows(), old(matrix).spec_ncols());
    proof {
        assert(gsize == size as int);
        lemma_identity_is_permutation(nr as int);
    }

    fill_identity(perm);
    let mut nt: usize = 0;
    let mut j: usize = 0;
    while j < size
        invariant
            matrix.wf(),
            matrix.nrows == old(matrix).nrows,
            nr == matrix.spec_nrows(),
            nc == matrix.spec_ncols(),
            nc == old(matrix).spec_ncols(),
            size as int == gsize,
            size <= nr,
            size <= nc,
            g0 == old(matrix)@,
            j <= size,
            matrix@ == plu_iter::<T>(g0, gsize, j as int),
            perm@.len() == nr,
            perm@ == apply_swaps(
                identity_seq(nr as int),
                plu_transpositions::<T>(g0, gsize),
                j as int,
            ),
            forall|kk: int|
                0 <= kk < j ==> kk <= #[trigger] plu_pivot_at::<T>(g0, gsize, kk) < nr,
            nt as int == plu_ntrans::<T>(g0, gsize, j as int),
            nt <= j,
        decreases size - j,
    {
        let ghost gj = matrix@;
        let imax = best_in_col(matrix, j, j);
        proof {
            lemma_col_pivot_unique::<T>(gj[j as int], j as int, imax as int);
            assert(plu_pivot_at::<T>(g0, gsize, j as int) == imax as int);
        }
        if imax != j {
            nt += 1;
        }
        swap_entries(perm, j, imax);
        matrix.swap_rows(j, imax);
        scale_col_below(matrix, j);
        rank_one_update_window(matrix, j, size);
        proof {
            assert(matrix@ == plu_step::<T>(gj, gsize, j as int));
            assert(matrix@ == plu_iter::<T>(g0, gsize, j as int + 1));
            assert(perm@ == apply_swaps(
                identity_seq(nr as int),
                plu_transpositions::<T>(g0, gsize),
                j as int + 1,
            ));
        }
        j += 1;
    }

    let ghost h = matrix@;
    if nr < nc {
        let mut c: usize = size;
        while c < nc
            invariant
                matrix.wf(),
                matrix.nrows == old(matrix).nrows,
                nr == matrix.spec_nrows(),
                nc == matrix.spec_ncols(),
                nr < nc,
                size == nr,
                size <= c <= nc,
                h == plu_iter::<T>(g0, size as int, size as int),
                forall|jj: int| 0 <= jj < c ==> (#[trigger] matrix@[jj]).len() == nr,
                forall|jj: int|
                    0 <= jj < size ==> (#[trigger] matrix@[jj]) == h[jj],
                forall|jj: int|
                    size <= jj < c ==> (#[trigger] matrix@[jj]) == fsolve::<T>(
                        h,
                        false,
                        false,
                        true,
                        h[jj],
                        nr as int,
                    ),
                forall|jj: int| c <= jj < nc ==> (#[trigger] matrix@[jj]) == h[jj],
            decreases nc - c,
        {
            let ghost before = matrix@;
            let mut x: Vec<T> = Vec::new();
            let mut i: usize = 0;
            while i < nr
                invariant
                    matrix.wf(),
                    nr == matrix.spec_nrows(),
                    nc == matrix.spec_ncols(),
                    size <= c < nc,
                    i <= nr,
                    x@.len() == i,
                    forall|t: int| 0 <= t < i ==> (#[trigger] x@[t]) == matrix@[c as int][t],
                decreases nr - i,
            {
                x.push(matrix.read(i, c));
                i += 1;
            }
            proof {
                assert(x@ =~= matrix@[c as int]);
                assert(matrix@[c as int] == h[c as int]);
            }
            let ghost before_solve = matrix@;
            forward_solve_col(matrix, &mut x, false, false, true);
            proof {
                assert(x@.len() == nr);
                assert forall|r: int, t: int| 0 <= t <= r < nr implies op_entry::<T>(
                    before_solve,
                    false,
                    false,
                    r,
                    t,
                ) == op_entry::<T>(h, false, false, r, t) by {
                    assert(matrix@[t] == h[t]);
                }
                lemma_fsolve_congruence::<T>(
                    before_solve,
                    h,
                    false,
                    false,
                    true,
                    h[c as int],
                    nr as int,
                );
                assert(x@ == fsolve::<T>(h, false, false, true, h[c as int], nr as int));
            }
            let mut i2: usize = 0;
            while i2 < nr
                invariant
                    matrix.wf(),
                    matrix.nrows == old(matrix).nrows,
                    nr == matrix.spec_nrows(),
                    nc == matrix.spec_ncols(),
                    size <= c < nc,
                    i2 <= nr,
                    x@.len() == nr,
                    forall|t: int|
                        0 <= t < i2 ==> (#[trigger] matrix@[c as int][t]) == x@[t],
                    forall|t: int|
                        i2 <= t < nr ==> (#[trigger] matrix@[c as int][t]) == before[c as int][t],
                    forall|jj: int|
                        0 <= jj < nc && jj != c ==> (#[trigger] matrix@[jj]) == before[jj],
                decreases nr - i2,
            {
                let ghost mid = matrix@;
                let v = x[i2];
                matrix.write(i2, c, v);
                proof {
                    assert forall|jj: int| 0 <= jj < nc && jj != c implies (#[trigger] matrix@[jj])
                        == mid[jj] by {}
                }
                i2 += 1;
            }
            proof {
                assert(matrix@[c as int] =~= fsolve::<T>(h, false, false, true, h[c as int], nr as int));
            }
            c += 1;
        }
    }
    proof {
        assert(matrix@ =~~= plu_result::<T>(g0, nr as int, nc as int));
        lemma_apply_swaps_permutation(
            identity_seq(nr as int),
            plu_transpositions::<T>(g0, gsize),
            size as int,
        );
    }
    fill_inverse(perm, perm_inv);
    let p = Permutation { fwd: dup_indices(perm), inv: dup_indices(perm_inv) };
    (nt, p)
}

/// Law (pivot selection): at every elimination step the recurrence keeps the
/// matrix an `m × n` grid, and the pivot row it selects is the first row at
/// or below the diagonal of largest score in the current column of the state
/// reached at that step.
pub proof fn lemma_partial_pivot_choice_maximal<T: Field>(g: Seq<Seq<T>>, m: int, n: int, k: int)
    requires
        is_grid(g, m, n),
        0 <= k <= spec_size(m, n),
    ensures
        is_grid(plu_iter::<T>(g, spec_size(m, n), k), m, n),
        forall|kk: int|
            0 <= kk < k ==> col_pivot_ok::<T>(
                plu_iter::<T>(g, spec_size(m, n), kk)[kk],
                kk,
                #[trigger] plu_pivot_at::<T>(g, spec_size(m, n), kk),
            ),
    decreases k,
{
    let size = spec_size(m, n);
    if k > 0 {
        lemma_partial_pivot_choice_maximal::<T>(g, m, n, k - 1);
        let kk = k - 1;
        let gk = plu_iter::<T>(g, size, kk);
        assert(gk[kk].len() == m);
        lemma_col_pivot_exists::<T>(gk[kk], kk);
        let p = col_pivot::<T>(gk[kk], kk);
        let s = grid_swap_rows(gk, kk, p);
        assert forall|j: int| 0 <= j < n implies (#[trigger] s[j]).len() == m by {
            assert(gk[j].len() == m);
        }
        let sc = col_scaled_below::<T>(s, kk);
        assert forall|j: int| 0 <= j < n implies (#[trigger] sc[j]).len() == m by {
            assert(s[j].len() == m);
        }
        let up = rank_one_updated_window::<T>(sc, kk, size);
        assert forall|j: int| 0 <= j < n implies (#[trigger] up[j]).len() == m by {
            assert(sc[j].len() == m);
        }
        assert(is_grid(plu_iter::<T>(g, size, k), m, n));
    }
}

/// Law (degenerate case): an all-zero matrix factors without work. Every
/// pivot defaults to the diagonal, no transposition is counted, the factored
/// matrix is still all zero, and the resulting row permutation is the
/// identity.
pub proof fn lemma_partial_pivoting_zero_matrix<T: Field>(g: Seq<Seq<T>>, m: int, n: int, k: int)
    requires
        is_grid(g, m, n),
        forall|j: int, i: int|
            0 <= j < n && 0 <= i < m ==> #[trigger] g[j][i] == T::spec_zero(),
        0 <= k <= spec_size(m, n),
    ensures
        plu_iter::<T>(g, spec_size(m, n), k) == g,
        forall|kk: int| 0 <= kk < k ==> #[trigger] plu_pivot_at::<T>(g, spec_size(m, n), kk) == kk,
        plu_ntrans::<T>(g, spec_size(m, n), k) == 0,
        k == spec_size(m, n) ==> plu_result::<T>(g, m, n) == g,
        k == spec_size(m, n) && m <= usize::MAX ==> apply_swaps(
            identity_seq(m),
            plu_transpositions::<T>(g, spec_size(m, n)),
            spec_size(m, n),
        ) == identity_seq(m),
    decreases k,
{
    let size = spec_size(m, n);
    if k > 0 {
        lemma_partial_pivoting_zero_matrix::<T>(g, m, n, k - 1);
        let kk = k - 1;
        assert(col_pivot_ok::<T>(g[kk], kk, kk));
        lemma_col_pivot_unique::<T>(g[kk], kk, kk);
        assert(plu_pivot_at::<T>(g, size, kk) == kk);
        assert(grid_swap_rows(g, kk, kk) =~~= g);
        let sc = col_scaled_below::<T>(g, kk);
        assert forall|j: int, i: int| 0 <= j < n && 0 <= i < m implies #[trigger] sc[j][i]
            == T::spec_zero() by {
            if j == kk && i > kk {
                T::lemma_zero_absorbs(T::spec_inv(g[kk][kk]));
            }
        }
        assert(sc =~~= g);
        let up = rank_one_updated_window::<T>(g, kk, size);
        assert forall|j: int, i: int| 0 <= j < n && 0 <= i < m implies #[trigger] up[j][i]
            == T::spec_zero() by {
            if i > kk && j > kk && j < size {
                T::lemma_zero_absorbs(g[j][kk]);
                T::lemma_zero_absorbs(T::spec_zero());
            }
        }
        assert(up =~~= g);
        assert(plu_step::<T>(g, size, kk) == g);
        assert(plu_iter::<T>(g, size, k) == g);
    } else {
        assert(plu_iter::<T>(g, size, 0) == g);
    }
    if k == size {
        if m < n {
            assert forall|c: int| size <= c < n implies fsolve::<T>(g, false, false, true, g[c], m)
                == g[c] by {
                lemma_fsolve_zero::<T>(g, false, false, g[c], m);
            }
            assert(plu_result::<T>(g, m, n) =~~= g);
        } else {
            assert(plu_result::<T>(g, m, n) == g);
        }
        if m <= usize::MAX {
            let t = plu_transpositions::<T>(g, size);
            assert forall|i: int| 0 <= i < size implies (#[trigger] t[i]) as int == i by {}
            lemma_apply_identity_swaps(identity_seq(m), t, size);
        }
    }
}

} // verus!
