//! Solving linear systems from a full-pivoting LU decomposition:
//! `Op(A)·X = B` and `Op(A)ᵗ·X = B`, in place or out of place.

use vstd::prelude::*;
use crate::field::Field;
use crate::mat::Mat;
use crate::perm::Permutation;
use crate::triangular::{
    fsolve, bsolve, gathered, forward_solve_col, backward_solve_col, temp_mat_elems,
};
use crate::{Conj, Parallelism, SizeOverflow};

verus! {

/// One right-hand-side column of `Op(A)·X = B` solved from the factors:
/// permute by the forward row permutation, forward-substitute through the
/// unit lower factor, back-substitute through the upper factor, then permute
/// by the inverse column permutation.
pub open spec fn solved_col<T: Field>(
    lu: Seq<Seq<T>>,
    cj: bool,
    rp: Seq<usize>,
    cp_inv: Seq<usize>,
    b: Seq<T>,
) -> Seq<T> {
    let t0 = gathered(b, rp);
    let t1 = fsolve::<T>(lu, false, cj, true, t0, t0.len() as int);
    let t2 = bsolve::<T>(lu, false, cj, false, t1, 0);
    gathered(t2, cp_inv)
}

/// One right-hand-side column of `Op(A)ᵗ·X = B` solved from the factors:
/// permute by the forward column permutation, forward-substitute through the
/// transposed upper factor, back-substitute through the transposed unit lower
/// factor, then permute by the inverse row permutation.
pub open spec fn solved_col_transpose<T: Field>(
    lu: Seq<Seq<T>>,
    cj: bool,
    cp: Seq<usize>,
    rp_inv: Seq<usize>,
    b: Seq<T>,
) -> Seq<T> {
    let t0 = gathered(b, cp);
    let t1 = fsolve::<T>(lu, true, cj, false, t0, t0.len() as int);
    let t2 = bsolve::<T>(lu, true, cj, true, t1, 0);
    gathered(t2, rp_inv)
}

/// The preconditions shared by every solve entry point: square factors,
/// matching permutations, and a well-formed right-hand side of matching
/// height.
pub open spec fn solve_pre<T: Field>(
    lu: &Mat<T>,
    row_perm: &Permutation,
    col_perm: &Permutation,
    dst: &Mat<T>,
) -> bool {
    &&& lu.wf()
    &&& lu.spec_nrows() == lu.spec_ncols()
    &&& row_perm.wf()
    &&& row_perm.spec_len() == lu.spec_nrows()
    &&& col_perm.wf()
    &&& col_perm.spec_len() == lu.spec_nrows()
    &&& dst.wf()
    &&& dst.spec_nrows() == lu.spec_nrows()
}

/// Reads column `j` of `src` (or of `dst` when `src` is absent) reordered by
/// the index list `p`.
fn gather_col<T: Field>(
    dst: &Mat<T>,
    src: Option<&Mat<T>>,
    p: &Vec<usize>,
    j: usize,
) -> (c: Vec<T>)
    requires
        dst.wf(),
        match src {
            Some(s) => s.wf() && s.spec_nrows() == dst.spec_nrows() && s.spec_ncols()
                == dst.spec_ncols(),
            None => true,
        },
        j < dst.spec_ncols(),
        forall|i: int| 0 <= i < p@.len() ==> (#[trigger] p@[i]) < dst.spec_nrows(),
    ensures
        c@ == gathered(
            match src {
                Some(s) => s@[j as int],
                None => dst@[j as int],
            },
            p@,
        ),
{
    let n = p.len();
    let mut c: Vec<T> = Vec::new();
    let mut i: usize = 0;
    let ghost b: Seq<T> = match src {
        Some(s) => s@[j as int],
        None => dst@[j as int],
    };
    while i < n
        invariant
            dst.wf(),
            match src {
                Some(s) => s.wf() && s.spec_nrows() == dst.spec_nrows() && s.spec_ncols()
                    == dst.spec_ncols(),
                None => true,
            },
            j < dst.spec_ncols(),
            n == p@.len(),
            forall|t: int| 0 <= t < n ==> (#[trigger] p@[t]) < dst.spec_nrows(),
            b == match src {
                Some(s) => s@[j as int],
                None => dst@[j as int],
            },
            i <= n,
            c@.len() == i,
            forall|t: int| 0 <= t < i ==> (#[trigger] c@[t]) == b[p@[t] as int],
        decreases n - i,
    {
        let v = match src {
            Some(s) => s.read(p[i], j),
            None => dst.read(p[i], j),
        };
        c.push(v);
        i += 1;
    }
    assert(c@ =~= gathered(b, p@));
    c
}

/// The shared algorithm of `solve` and `solve_in_place`.
fn solve_impl<T: Field>(
    lu: &Mat<T>,
    conj_lhs: Conj,
    row_perm: &Permutation,
    col_perm: &Permutation,
    dst: &mut Mat<T>,
    rhs: Option<&Mat<T>>,
)
    requires
        solve_pre(lu, row_perm, col_perm, old(dst)),
        match rhs {
            Some(s) => s.wf() && s.spec_nrows() == old(dst).spec_nrows() && s.spec_ncols()
                == old(dst).spec_ncols(),
            None => true,
        },
    ensures
        final(dst).wf(),
        final(dst).nrows == old(dst).nrows,
        final(dst).spec_ncols() == old(dst).spec_ncols(),
        forall|j: int|
            0 <= j < old(dst).spec_ncols() ==> (#[trigger] final(dst)@[j]) == solved_col::<T>(
                lu@,
                conj_lhs.spec_is_yes(),
                row_perm.fwd@,
                col_perm.inv@,
                match rhs {
                    Some(s) => s@[j],
                    None => old(dst)@[j],
                },
            ),
{
    let n = lu.nrows();
    let k = dst.ncols();
    let cj = conj_lhs.is_yes();
    let mut j: usize = 0;
    while j < k
        invariant
            solve_pre(lu, row_perm, col_perm, dst),
            match rhs {
                Some(s) => s.wf() && s.spec_nrows() == dst.spec_nrows() && s.spec_ncols()
                    == dst.spec_ncols(),
                None => true,
            },
            dst.nrows == old(dst).nrows,
            dst.spec_ncols() == old(dst).spec_ncols(),
            n == lu.spec_nrows(),
            k == dst.spec_ncols(),
            cj == conj_lhs.spec_is_yes(),
            j <= k,
            forall|jj: int|
                0 <= jj < j ==> (#[trigger] dst@[jj]) == solved_col::<T>(
                    lu@,
                    conj_lhs.spec_is_yes(),
                    row_perm.fwd@,
                    col_perm.inv@,
                    match rhs {
                        Some(s) => s@[jj],
                        None => old(dst)@[jj],
                    },
                ),
            forall|jj: int| j <= jj < k ==> (#[trigger] dst@[jj]) == old(dst)@[jj],
        decreases k - j,
    {
        let ghost b: Seq<T> = match rhs {
            Some(s) => s@[j as int],
            None => dst@[j as int],
        };
        let ghost before = dst@;
        let mut c = gather_col(dst, rhs, &row_perm.fwd, j);
        forward_solve_col(lu, &mut c, false, cj, true);
        backward_solve_col(lu, &mut c, false, cj, false);
        proof {
            assert(c@.len() == n);
        }
        let mut i: usize = 0;
        while i < n
            invariant
                dst.wf(),
                dst.nrows == old(dst).nrows,
                n == dst.spec_nrows(),
                k == dst.spec_ncols(),
                j < k,
                col_perm.wf(),
                col_perm.spec_len() == n,
                c@.len() == n,
                i <= n,
                forall|t: int|
                    0 <= t < i ==> (#[trigger] dst@[j as int][t]) == c@[col_perm.inv@[t] as int],
                forall|t: int| i <= t < n ==> (#[trigger] dst@[j as int][t]) == before[j as int][t],
                forall|jj: int| 0 <= jj < k && jj != j ==> (#[trigger] dst@[jj]) == before[jj],
            decreases n - i,
        {
            let ghost mid = dst@;
            let pos = col_perm.inv[i];
            dst.write(i, j, c[pos]);
            proof {
                assert forall|jj: int| 0 <= jj < k && jj != j implies (#[trigger] dst@[jj])
                    == mid[jj] by {}
            }
            i += 1;
        }
        proof {
            assert(dst@[j as int] =~= gathered(
                bsolve::<T>(
                    lu@,
                    false,
                    cj,
                    false,
                    fsolve::<T>(lu@, false, cj, true, gathered(b, row_perm.fwd@), n as int),
                    0,
                ),
                col_perm.inv@,
            ));
            assert(gathered(b, row_perm.fwd@).len() == n);
            assert(dst@[j as int] == solved_col::<T>(
                lu@,
                conj_lhs.spec_is_yes(),
                row_perm.fwd@,
                col_perm.inv@,
                b,
            ));
        }
        j += 1;
    }
}

/// The shared algorithm of `solve_transpose` and `solve_transpose_in_place`.
fn solve_transpose_impl<T: Field>(
    lu: &Mat<T>,
    conj_lhs: Conj,
    row_perm: &Permutation,
    col_perm: &Permutation,
    dst: &mut Mat<T>,
    rhs: Option<&Mat<T>>,
)
    requires
        solve_pre(lu, row_perm, col_perm, old(dst)),
        match rhs {
            Some(s) => s.wf() && s.spec_nrows() == old(dst).spec_nrows() && s.spec_ncols()
                == old(dst).spec_ncols(),
            None => true,
        },
    ensures
        final(dst).wf(),
        final(dst).nrows == old(dst).nrows,
        final(dst).spec_ncols() == old(dst).spec_ncols(),
        forall|j: int|
            0 <= j < old(dst).spec_ncols() ==> (#[trigger] final(dst)@[j])
                == solved_col_transpose::<T>(
                lu@,
                conj_lhs.spec_is_yes(),
                col_perm.fwd@,
                row_perm.inv@,
                match rhs {
                    Some(s) => s@[j],
                    None => old(dst)@[j],
                },
            ),
{
    let n = lu.nrows();
    let k = dst.ncols();
    let cj = conj_lhs.is_yes();
    let mut j: usize = 0;
    while j < k
        invariant
            solve_pre(lu, row_perm, col_perm, dst),
            match rhs {
                Some(s) => s.wf() && s.spec_nrows() == dst.spec_nrows() && s.spec_ncols()
                    == dst.spec_ncols(),
                None => true,
            },
            dst.nrows == old(dst).nrows,
            dst.spec_ncols() == old(dst).spec_ncols(),
            n == lu.spec_nrows(),
            k == dst.spec_ncols(),
            cj == conj_lhs.spec_is_yes(),
            j <= k,
            forall|jj: int|
                0 <= jj < j ==> (#[trigger] dst@[jj]) == solved_col_transpose::<T>(
                    lu@,
                    conj_lhs.spec_is_yes(),
                    col_perm.fwd@,
                    row_perm.inv@,
                    match rhs {
                        Some(s) => s@[jj],
                        None => old(dst)@[jj],
                    },
                ),
            forall|jj: int| j <= jj < k ==> (#[trigger] dst@[jj]) == old(dst)@[jj],
        decreases k - j,
    {
        let ghost b: Seq<T> = match rhs {
            Some(s) => s@[j as int],
            None => dst@[j as int],
        };
        let ghost before = dst@;
        let mut c = gather_col(dst, rhs, &col_perm.fwd, j);
        forward_solve_col(lu, &mut c, true, cj, false);
        backward_solve_col(lu, &mut c, true, cj, true);
        proof {
            assert(c@.len() == n);
        }
        let mut i: usize = 0;
        while i < n
            invariant
                dst.wf(),
                dst.nrows == old(dst).nrows,
                n == dst.spec_nrows(),
                k == dst.spec_ncols(),
                j < k,
                row_perm.wf(),
                row_perm.spec_len() == n,
                c@.len() == n,
                i <= n,
                forall|t: int|
                    0 <= t < i ==> (#[trigger] dst@[j as int][t]) == c@[row_perm.inv@[t] as int],
                forall|t: int| i <= t < n ==> (#[trigger] dst@[j as int][t]) == before[j as int][t],
                forall|jj: int| 0 <= jj < k && jj != j ==> (#[trigger] dst@[jj]) == before[jj],
            decreases n - i,
        {
            let ghost mid = dst@;
            let pos = row_perm.inv[i];
            dst.write(i, j, c[pos]);
            proof {
                assert forall|jj: int| 0 <= jj < k && jj != j implies (#[trigger] dst@[jj])
                    == mid[jj] by {}
            }
            i += 1;
        }
        proof {
            assert(dst@[j as int] =~= gathered(
                bsolve::<T>(
                    lu@,
                    true,
                    cj,
                    true,
                    fsolve::<T>(lu@, true, cj, false, gathered(b, col_perm.fwd@), n as int),
                    0,
                ),
                row_perm.inv@,
            ));
            assert(gathered(b, col_perm.fwd@).len() == n);
            assert(dst@[j as int] == solved_col_transpose::<T>(
                lu@,
                conj_lhs.spec_is_yes(),
                col_perm.fwd@,
                row_perm.inv@,
                b,
            ));
        }
        j += 1;
    }
}

/// The scratch elements an in-place solve with `rhs_ncols` right-hand sides
/// allocates (one temporary column at a time, `lu_nrows` entries each; stated
/// as the full `lu_nrows × rhs_ncols` temporary a caller should budget for).
pub fn solve_in_place_req(
    lu_nrows: usize,
    lu_ncols: usize,
    rhs_ncols: usize,
    parallelism: Parallelism,
) -> (r: Result<usize, SizeOverflow>)
    ensures
        lu_nrows * rhs_ncols <= usize::MAX ==> r == Ok::<usize, SizeOverflow>(
            (lu_nrows * rhs_ncols) as usize,
        ),
        lu_nrows * rhs_ncols > usize::MAX ==> r == Err::<usize, SizeOverflow>(SizeOverflow),
{
    let _ = lu_ncols;
    let _ = parallelism;
    temp_mat_elems(lu_nrows, rhs_ncols)
}

/// The scratch elements an out-of-place solve allocates.
pub fn solve_req(
    lu_nrows: usize,
    lu_ncols: usize,
    rhs_ncols: usize,
    parallelism: Parallelism,
) -> (r: Result<usize, SizeOverflow>)
    ensures
        lu_nrows * rhs_ncols <= usize::MAX ==> r == Ok::<usize, SizeOverflow>(
            (lu_nrows * rhs_ncols) as usize,
        ),
        lu_nrows * rhs_ncols > usize::MAX ==> r == Err::<usize, SizeOverflow>(SizeOverflow),
{
    let _ = lu_ncols;
    let _ = parallelism;
    temp_mat_elems(lu_nrows, rhs_ncols)
}

/// The scratch elements an in-place transposed solve allocates.
pub fn solve_transpose_in_place_req(
    lu_nrows: usize,
    lu_ncols: usize,
    rhs_ncols: usize,
    parallelism: Parallelism,
) -> (r: Result<usize, SizeOverflow>)
    ensures
        lu_nrows * rhs_ncols <= usize::MAX ==> r == Ok::<usize, SizeOverflow>(
            (lu_nrows * rhs_ncols) as usize,
        ),
        lu_nrows * rhs_ncols > usize::MAX ==> r == Err::<usize, SizeOverflow>(SizeOverflow),
{
    let _ = lu_ncols;
    let _ = parallelism;
    temp_mat_elems(lu_nrows, rhs_ncols)
}

/// The scratch elements an out-of-place transposed solve allocates.
pub fn solve_transpose_req(
    lu_nrows: usize,
    lu_ncols: usize,
    rhs_ncols: usize,
    parallelism: Parallelism,
) -> (r: Result<usize, SizeOverflow>)
    ensures
        lu_nrows * rhs_ncols <= usize::MAX ==> r == Ok::<usize, SizeOverflow>(
            (lu_nrows * rhs_ncols) as usize,
        ),
        lu_nrows * rhs_ncols > usize::MAX ==> r == Err::<usize, SizeOverflow>(SizeOverflow),
{
    let _ = lu_ncols;
    let _ = parallelism;
    temp_mat_elems(lu_nrows, rhs_ncols)
}

/// Solves `Op(A)·X = B` from the full-pivoting factors of `A`, storing the
/// solution in `dst`; `Op` conjugates elementwise when `conj_lhs` says so.
/// Column `j` of the result is [`solved_col`] of column `j` of `rhs`.
pub fn solve<T: Field>(
    dst: &mut Mat<T>,
    lu_factors: &Mat<T>,
    conj_lhs: Conj,
    row_perm: &Permutation,
    col_perm: &Permutation,
    rhs: &Mat<T>,
    parallelism: Parallelism,
)
    requires
        solve_pre(lu_factors, row_perm, col_perm, old(dst)),
        rhs.wf(),
        rhs.spec_nrows() == old(dst).spec_nrows(),
        rhs.spec_ncols() == old(dst).spec_ncols(),
    ensures
        final(dst).wf(),
        final(dst).nrows == old(dst).nrows,
        final(dst).spec_ncols() == old(dst).spec_ncols(),
        forall|j: int|
            0 <= j < old(dst).spec_ncols() ==> (#[trigger] final(dst)@[j]) == solved_col::<T>(
                lu_factors@,
                conj_lhs.spec_is_yes(),
                row_perm.fwd@,
                col_perm.inv@,
                rhs@[j],
            ),
{
    let _ = parallelism;
    solve_impl(lu_factors, conj_lhs, row_perm, col_perm, dst, Some(rhs));
}

/// Solves `Op(A)·X = B` in place: `rhs` holds `B` on entry and the solution on
/// return.
pub fn solve_in_place<T: Field>(
    lu_factors: &Mat<T>,
    conj_lhs: Conj,
    row_perm: &Permutation,
    col_perm: &Permutation,
    rhs: &mut Mat<T>,
    parallelism: Parallelism,
)
    requires
        solve_pre(lu_factors, row_perm, col_perm, old(rhs)),
    ensures
        final(rhs).wf(),
        final(rhs).nrows == old(rhs).nrows,
        final(rhs).spec_ncols() == old(rhs).spec_ncols(),
        forall|j: int|
            0 <= j < old(rhs).spec_ncols() ==> (#[trigger] final(rhs)@[j]) == solved_col::<T>(
                lu_factors@,
                conj_lhs.spec_is_yes(),
                row_perm.fwd@,
                col_perm.inv@,
                old(rhs)@[j],
            ),
{
    let _ = parallelism;
    solve_impl(lu_factors, conj_lhs, row_perm, col_perm, rhs, None);
}

/// Solves `Op(A)ᵗ·X = B` from the full-pivoting factors of `A`, storing the
/// solution in `dst`. Column `j` of the result is [`solved_col_transpose`] of
/// column `j` of `rhs`.
pub fn solve_transpose<T: Field>(
    dst: &mut Mat<T>,
    lu_factors: &Mat<T>,
    conj_lhs: Conj,
    row_perm: &Permutation,
    col_perm: &Permutation,
    rhs: &Mat<T>,
    parallelism: Parallelism,
)
    requires
        solve_pre(lu_factors, row_perm, col_perm, old(dst)),
        rhs.wf(),
        rhs.spec_nrows() == old(dst).spec_nrows(),
        rhs.spec_ncols() == old(dst).spec_ncols(),
    ensures
        final(dst).wf(),
        final(dst).nrows == old(dst).nrows,
        final(dst).spec_ncols() == old(dst).spec_ncols(),
        forall|j: int|
            0 <= j < old(dst).spec_ncols() ==> (#[trigger] final(dst)@[j])
                == solved_col_transpose::<T>(
                lu_factors@,
                conj_lhs.spec_is_yes(),
                col_perm.fwd@,
                row_perm.inv@,
                rhs@[j],
            ),
{
    let _ = parallelism;
    solve_transpose_impl(lu_factors, conj_lhs, row_perm, col_perm, dst, Some(rhs));
}

/// Solves `Op(A)ᵗ·X = B` in place: `rhs` holds `B` on entry and the solution
/// on return.
pub fn solve_transpose_in_place<T: Field>(
    lu_factors: &Mat<T>,
    conj_lhs: Conj,
    row_perm: &Permutation,
    col_perm: &Permutation,
    rhs: &mut Mat<T>,
    parallelism: Parallelism,
)
    requires
        solve_pre(lu_factors, row_perm, col_perm, old(rhs)),
    ensures
        final(rhs).wf(),
        final(rhs).nrows == old(rhs).nrows,
        final(rhs).spec_ncols() == old(rhs).spec_ncols(),
        forall|j: int|
            0 <= j < old(rhs).spec_ncols() ==> (#[trigger] final(rhs)@[j])
                == solved_col_transpose::<T>(
                lu_factors@,
                conj_lhs.spec_is_yes(),
                col_perm.fwd@,
                row_perm.inv@,
                old(rhs)@[j],
            ),
{
    let _ = parallelism;
    solve_transpose_impl(lu_factors, conj_lhs, row_perm, col_perm, rhs, None);
}

} // verus!
