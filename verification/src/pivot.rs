//! Pivot search: the largest-score entry of a column or of a trailing
//! sub-matrix, and the rank-1 update fused with the search for the next pivot.

use vstd::prelude::*;
use crate::field::Field;
use crate::mat::Mat;

verus! {

/// `r` is the first row at or below `from` where the score of `col` is
/// maximal (ties are broken by the lowest index).
pub open spec fn col_pivot_ok<T: Field>(col: Seq<T>, from: int, r: int) -> bool {
    &&& from <= r < col.len()
    &&& forall|i: int|
        from <= i < col.len()
            ==> T::spec_score(#[trigger] col[i]) <= T::spec_score(col[r])
    &&& forall|i: int| from <= i < r ==> T::spec_score(#[trigger] col[i]) < T::spec_score(col[r])
}

/// The unique row satisfying [`col_pivot_ok`].
pub open spec fn col_pivot<T: Field>(col: Seq<T>, from: int) -> int {
    choose|r: int| col_pivot_ok::<T>(col, from, r)
}

pub proof fn lemma_col_pivot_unique<T: Field>(col: Seq<T>, from: int, r: int)
    requires
        col_pivot_ok::<T>(col, from, r),
    ensures
        col_pivot::<T>(col, from) == r,
{
    let r2 = col_pivot::<T>(col, from);
    assert(col_pivot_ok::<T>(col, from, r2));
    if r2 < r {
        assert(T::spec_score(col[r2]) < T::spec_score(col[r]));
        assert(T::spec_score(col[r]) <= T::spec_score(col[r2]));
    } else if r < r2 {
        assert(T::spec_score(col[r]) < T::spec_score(col[r2]));
        assert(T::spec_score(col[r2]) <= T::spec_score(col[r]));
    }
}

/// `(i1, j1)` comes before `(i2, j2)` in column-major order.
pub open spec fn cm_before(i1: int, j1: int, i2: int, j2: int) -> bool {
    j1 < j2 || (j1 == j2 && i1 < i2)
}

/// `(r, c)` is the first position, in column-major order, of the trailing
/// region (rows `k..m`, columns `k..`) where the score of `g` is maximal.
pub open spec fn mat_pivot_ok<T: Field>(g: Seq<Seq<T>>, m: int, k: int, r: int, c: int) -> bool {
    &&& k <= r < m
    &&& k <= c < g.len()
    &&& forall|i: int, j: int|
        k <= i < m && k <= j < g.len()
            ==> T::spec_score(#[trigger] g[j][i]) <= T::spec_score(g[c][r])
    &&& forall|i: int, j: int|
        k <= i < m && k <= j < g.len() && cm_before(i, j, r, c)
            ==> T::spec_score(#[trigger] g[j][i]) < T::spec_score(g[c][r])
}

/// The unique position satisfying [`mat_pivot_ok`].
pub open spec fn mat_pivot<T: Field>(g: Seq<Seq<T>>, m: int, k: int) -> (int, int) {
    choose|rc: (int, int)| mat_pivot_ok::<T>(g, m, k, rc.0, rc.1)
}

pub proof fn lemma_mat_pivot_unique<T: Field>(g: Seq<Seq<T>>, m: int, k: int, r: int, c: int)
    requires
        mat_pivot_ok::<T>(g, m, k, r, c),
    ensures
        mat_pivot::<T>(g, m, k) == (r, c),
{
    let w = (r, c);
    assert(mat_pivot_ok::<T>(g, m, k, w.0, w.1));
    let rc = mat_pivot::<T>(g, m, k);
    assert(mat_pivot_ok::<T>(g, m, k, rc.0, rc.1));
    if rc != w {
        if cm_before(rc.0, rc.1, r, c) {
            assert(T::spec_score(g[rc.1][rc.0]) < T::spec_score(g[c][r]));
            assert(T::spec_score(g[c][r]) <= T::spec_score(g[rc.1][rc.0]));
        } else {
            assert(cm_before(r, c, rc.0, rc.1));
            assert(T::spec_score(g[c][r]) < T::spec_score(g[rc.1][rc.0]));
            assert(T::spec_score(g[rc.1][rc.0]) <= T::spec_score(g[c][r]));
        }
    }
}

/// Law: a nonempty column segment always has a first position of maximal
/// score, so [`col_pivot`] is well defined: it satisfies [`col_pivot_ok`].
pub proof fn lemma_col_pivot_exists<T: Field>(col: Seq<T>, from: int)
    requires
        0 <= from < col.len(),
    ensures
        col_pivot_ok::<T>(col, from, col_pivot::<T>(col, from)),
    decreases col.len() - from,
{
    if from == col.len() - 1 {
        assert(col_pivot_ok::<T>(col, from, from));
    } else {
        lemma_col_pivot_exists::<T>(col, from + 1);
        let r1 = col_pivot::<T>(col, from + 1);
        if T::spec_score(col[from]) >= T::spec_score(col[r1]) {
            assert(col_pivot_ok::<T>(col, from, from));
        } else {
            assert(col_pivot_ok::<T>(col, from, r1));
        }
    }
    assert(exists|r: int| col_pivot_ok::<T>(col, from, r));
}

/// `(r, c)` is the first position, in column-major order, of the region
/// rows `rk..m`, columns `ck..` where the score of `g` is maximal.
spec fn region_pivot_ok<T: Field>(g: Seq<Seq<T>>, m: int, rk: int, ck: int, r: int, c: int) -> bool {
    &&& rk <= r < m
    &&& ck <= c < g.len()
    &&& forall|i: int, j: int|
        rk <= i < m && ck <= j < g.len()
            ==> T::spec_score(#[trigger] g[j][i]) <= T::spec_score(g[c][r])
    &&& forall|i: int, j: int|
        rk <= i < m && ck <= j < g.len() && cm_before(i, j, r, c)
            ==> T::spec_score(#[trigger] g[j][i]) < T::spec_score(g[c][r])
}

proof fn lemma_region_pivot_exists<T: Field>(g: Seq<Seq<T>>, m: int, rk: int, ck: int) -> (rc: (
    int,
    int,
))
    requires
        0 <= rk < m,
        0 <= ck < g.len(),
        forall|j: int| ck <= j < g.len() ==> (#[trigger] g[j]).len() == m,
    ensures
        region_pivot_ok::<T>(g, m, rk, ck, rc.0, rc.1),
    decreases g.len() - ck,
{
    let rc0 = col_pivot::<T>(g[ck], rk);
    lemma_col_pivot_exists::<T>(g[ck], rk);
    if ck == g.len() - 1 {
        assert(region_pivot_ok::<T>(g, m, rk, ck, rc0, ck));
        (rc0, ck)
    } else {
        let best1 = lemma_region_pivot_exists::<T>(g, m, rk, ck + 1);
        if T::spec_score(g[ck][rc0]) >= T::spec_score(g[best1.1][best1.0]) {
            assert(region_pivot_ok::<T>(g, m, rk, ck, rc0, ck));
            (rc0, ck)
        } else {
            assert(region_pivot_ok::<T>(g, m, rk, ck, best1.0, best1.1));
            best1
        }
    }
}

/// Law: a nonempty trailing region always has a first position of maximal
/// score, so [`mat_pivot`] is well defined: it satisfies [`mat_pivot_ok`].
pub proof fn lemma_mat_pivot_exists<T: Field>(g: Seq<Seq<T>>, m: int, k: int)
    requires
        0 <= k < m,
        k < g.len(),
        forall|j: int| 0 <= j < g.len() ==> (#[trigger] g[j]).len() == m,
    ensures
        mat_pivot_ok::<T>(g, m, k, mat_pivot::<T>(g, m, k).0, mat_pivot::<T>(g, m, k).1),
{
    let w = lemma_region_pivot_exists::<T>(g, m, k, k);
    assert(mat_pivot_ok::<T>(g, m, k, w.0, w.1));
    assert(exists|rc: (int, int)| mat_pivot_ok::<T>(g, m, k, rc.0, rc.1));
}

/// Finds the first row at or below `from` maximizing the score in column `j`.
pub(crate) fn best_in_col<T: Field>(m: &Mat<T>, j: usize, from: usize) -> (r: usize)
    requires
        m.wf(),
        j < m.spec_ncols(),
        from < m.spec_nrows(),
    ensures
        col_pivot_ok::<T>(m@[j as int], from as int, r as int),
{
    let nr = m.nrows();
    let mut best: usize = from;
    let mut best_s: u64 = 0;
    let mut i: usize = from;
    while i < nr
        invariant
            m.wf(),
            j < m.spec_ncols(),
            nr == m.spec_nrows(),
            from <= i <= nr,
            from <= best < nr,
            i == from ==> best == from && best_s == 0,
            i > from ==> best < i && best_s == T::spec_score(m@[j as int][best as int]),
            forall|t: int|
                from <= t < i ==> T::spec_score(#[trigger] m@[j as int][t]) <= best_s,
            forall|t: int|
                from <= t < best ==> T::spec_score(#[trigger] m@[j as int][t]) < best_s,
        decreases nr - i,
    {
        let s = m.read(i, j).score();
        if s > best_s {
            best = i;
            best_s = s;
        }
        i += 1;
    }
    best
}

/// Finds the first position, in column-major order, maximizing the score over
/// the trailing region rows `k..`, columns `k..`.
pub(crate) fn best_in_matrix<T: Field>(m: &Mat<T>, k: usize) -> (rc: (usize, usize))
    requires
        m.wf(),
        k < m.spec_nrows(),
        k < m.spec_ncols(),
    ensures
        mat_pivot_ok::<T>(m@, m.spec_nrows(), k as int, rc.0 as int, rc.1 as int),
{
    let nr = m.nrows();
    let nc = m.ncols();
    let mut br = best_in_col(m, k, k);
    let mut bc: usize = k;
    let mut bs: u64 = m.read(br, k).score();
    let mut j: usize = k + 1;
    while j < nc
        invariant
            m.wf(),
            nr == m.spec_nrows(),
            nc == m.spec_ncols(),
            k < nr,
            k < j <= nc,
            k <= br < nr,
            k <= bc < j,
            bs == T::spec_score(m@[bc as int][br as int]),
            forall|i: int, jj: int|
                k <= i < nr && k <= jj < j
                    ==> T::spec_score(#[trigger] m@[jj][i]) <= bs,
            forall|i: int, jj: int|
                k <= i < nr && k <= jj < j && cm_before(i, jj, br as int, bc as int)
                    ==> T::spec_score(#[trigger] m@[jj][i]) < bs,
        decreases nc - j,
    {
        let cb = best_in_col(m, j, k);
        let s = m.read(cb, j).score();
        if s > bs {
            br = cb;
            bc = j;
            bs = s;
        }
        j += 1;
    }
    (br, bc)
}

/// The grid after the rank-1 update of the trailing region rows `k+1..`,
/// columns `k+1..`: entry `(i, j)` becomes `g[j][i] - g[k][i] * g[j][k]`
/// (column `k` already holds the scaled eliminated column, row `k` holds the
/// pivot row).
pub open spec fn rank_one_updated<T: Field>(g: Seq<Seq<T>>, k: int) -> Seq<Seq<T>> {
    Seq::new(
        g.len(),
        |j: int|
            Seq::new(
                g[j].len(),
                |i: int|
                    if i > k && j > k {
                        T::spec_sub(g[j][i], T::spec_mul(g[k][i], g[j][k]))
                    } else {
                        g[j][i]
                    },
            ),
    )
}

/// Applies the rank-1 update of the trailing region rows `k+1..`, columns
/// `k+1..` and, in the same pass, finds the first position (column-major) of
/// largest score among the updated entries.
pub(crate) fn rank_one_update_and_best_in_matrix<T: Field>(m: &mut Mat<T>, k: usize) -> (rc: (
    usize,
    usize,
))
    requires
        old(m).wf(),
        k + 1 < old(m).spec_nrows(),
        k + 1 < old(m).spec_ncols(),
    ensures
        final(m).wf(),
        final(m).nrows == old(m).nrows,
        final(m)@ == rank_one_updated::<T>(old(m)@, k as int),
        mat_pivot_ok::<T>(
            final(m)@,
            final(m).spec_nrows(),
            k as int + 1,
            rc.0 as int,
            rc.1 as int,
        ),
{
    let nr = m.nrows();
    let nc = m.ncols();
    let mut br: usize = k + 1;
    let mut bc: usize = k + 1;
    let mut bs: u64 = 0;
    let mut j: usize = k + 1;
    while j < nc
        invariant
            m.wf(),
            m.nrows == old(m).nrows,
            nr == m.spec_nrows(),
            nc == m.spec_ncols(),
            nc == old(m).spec_ncols(),
            k + 1 < nr,
            k + 1 <= j <= nc,
            forall|jj: int| 0 <= jj <= k || j <= jj < nc ==> (#[trigger] m@[jj]) == old(m)@[jj],
            forall|jj: int|
                k < jj < j ==> (#[trigger] m@[jj]) == rank_one_updated::<T>(old(m)@, k as int)[jj],
            j == k + 1 ==> br == k + 1 && bc == k + 1 && bs == 0,
            j > k + 1
                ==> k + 1 <= br < nr && k + 1 <= bc < j && bs == T::spec_score(
                    m@[bc as int][br as int],
                ),
            forall|i: int, jj: int|
                k < i < nr && k < jj < j ==> T::spec_score(#[trigger] m@[jj][i]) <= bs,
            forall|i: int, jj: int|
                k < i < nr && k < jj < j && cm_before(i, jj, br as int, bc as int)
                    ==> T::spec_score(#[trigger] m@[jj][i]) < bs,
        decreases nc - j,
    {
        let ghost at_start = m@;
        let rj = m.read(k, j);
        let mut ci: usize = k + 1;
        let mut cs: u64 = 0;
        let mut i: usize = k + 1;
        while i < nr
            invariant
                m.wf(),
                m.nrows == old(m).nrows,
                nr == m.spec_nrows(),
                nc == m.spec_ncols(),
                k + 1 <= i <= nr,
                k + 1 < nr,
                k + 1 <= j < nc,
                rj == old(m)@[j as int][k as int],
                forall|jj: int| 0 <= jj < nc && jj != j ==> (#[trigger] m@[jj]) == at_start[jj],
                at_start[j as int] == old(m)@[j as int],
                at_start[k as int] == old(m)@[k as int],
                m@[j as int].len() == nr,
                forall|ii: int|
                    (0 <= ii <= k || i <= ii < nr) ==> (#[trigger] m@[j as int][ii]) == old(
                        m,
                    )@[j as int][ii],
                forall|ii: int|
                    k < ii < i ==> (#[trigger] m@[j as int][ii]) == T::spec_sub(
                        old(m)@[j as int][ii],
                        T::spec_mul(old(m)@[k as int][ii], old(m)@[j as int][k as int]),
                    ),
                i == k + 1 ==> ci == k + 1 && cs == 0,
                i > k + 1 ==> k + 1 <= ci < i && cs == T::spec_score(m@[j as int][ci as int]),
                forall|t: int|
                    k < t < i ==> T::spec_score(#[trigger] m@[j as int][t]) <= cs,
                forall|t: int|
                    k < t < ci ==> T::spec_score(#[trigger] m@[j as int][t]) < cs,
            decreases nr - i,
        {
            let v = m.read(i, j).sub(m.read(i, k).mul(rj));
            m.write(i, j, v);
            proof {
                assert forall|jj: int| 0 <= jj < nc && jj != j implies (#[trigger] m@[jj])
                    == at_start[jj] by {}
            }
            let s = v.score();
            if s > cs {
                ci = i;
                cs = s;
            }
            i += 1;
        }
        proof {
            assert(col_pivot_ok::<T>(m@[j as int], k as int + 1, ci as int));
            assert(m@[j as int] =~= rank_one_updated::<T>(old(m)@, k as int)[j as int]);
        }
        if j == k + 1 || cs > bs {
            br = ci;
            bc = j;
            bs = cs;
        }
        j += 1;
    }
    proof {
        assert(m@ =~~= rank_one_updated::<T>(old(m)@, k as int));
    }
    (br, bc)
}

/// The grid after the rank-1 update of rows `k+1..`, columns `k+1..cend`
/// (the unfactored remainder of a partial-pivoting column window): entry
/// `(i, j)` becomes `g[j][i] - g[k][i] * g[j][k]`.
pub open spec fn rank_one_updated_window<T: Field>(g: Seq<Seq<T>>, k: int, cend: int) -> Seq<
    Seq<T>,
> {
    Seq::new(
        g.len(),
        |j: int|
            Seq::new(
                g[j].len(),
                |i: int|
                    if i > k && j > k && j < cend {
                        T::spec_sub(g[j][i], T::spec_mul(g[k][i], g[j][k]))
                    } else {
                        g[j][i]
                    },
            ),
    )
}

/// Applies the rank-1 update of rows `k+1..`, columns `k+1..cend`.
pub(crate) fn rank_one_update_window<T: Field>(m: &mut Mat<T>, k: usize, cend: usize)
    requires
        old(m).wf(),
        k < old(m).spec_nrows(),
        k < cend,
        cend <= old(m).spec_ncols(),
    ensures
        final(m).wf(),
        final(m).nrows == old(m).nrows,
        final(m)@ == rank_one_updated_window::<T>(old(m)@, k as int, cend as int),
{
    let nr = m.nrows();
    let nc = m.ncols();
    let mut j: usize = k + 1;
    while j < cend
        invariant
            m.wf(),
            m.nrows == old(m).nrows,
            nr == m.spec_nrows(),
            nc == m.spec_ncols(),
            nc == old(m).spec_ncols(),
            k < nr,
            k < cend <= nc,
            k + 1 <= j <= cend,
            forall|jj: int|
                (0 <= jj <= k || j <= jj < nc) ==> (#[trigger] m@[jj]) == old(m)@[jj],
            forall|jj: int|
                k < jj < j ==> (#[trigger] m@[jj]) == rank_one_updated_window::<T>(
                    old(m)@,
                    k as int,
                    cend as int,
                )[jj],
        decreases cend - j,
    {
        let ghost at_start = m@;
        let rj = m.read(k, j);
        let mut i: usize = k + 1;
        while i < nr
            invariant
                m.wf(),
                m.nrows == old(m).nrows,
                nr == m.spec_nrows(),
                nc == m.spec_ncols(),
                k + 1 <= i <= nr,
                k < nr,
                k + 1 <= j < cend <= nc,
                rj == old(m)@[j as int][k as int],
                forall|jj: int| 0 <= jj < nc && jj != j ==> (#[trigger] m@[jj]) == at_start[jj],
                at_start[j as int] == old(m)@[j as int],
                at_start[k as int] == old(m)@[k as int],
                m@[j as int].len() == nr,
                forall|ii: int|
                    (0 <= ii <= k || i <= ii < nr) ==> (#[trigger] m@[j as int][ii]) == old(
                        m,
                    )@[j as int][ii],
                forall|ii: int|
                    k < ii < i ==> (#[trigger] m@[j as int][ii]) == T::spec_sub(
                        old(m)@[j as int][ii],
                        T::spec_mul(old(m)@[k as int][ii], old(m)@[j as int][k as int]),
                    ),
            decreases nr - i,
        {
            let v = m.read(i, j).sub(m.read(i, k).mul(rj));
            m.write(i, j, v);
            proof {
                assert forall|jj: int| 0 <= jj < nc && jj != j implies (#[trigger] m@[jj])
                    == at_start[jj] by {}
            }
            i += 1;
        }
        proof {
            assert(m@[j as int] =~= rank_one_updated_window::<T>(
                old(m)@,
                k as int,
                cend as int,
            )[j as int]);
        }
        j += 1;
    }
    proof {
        assert(m@ =~~= rank_one_updated_window::<T>(old(m)@, k as int, cend as int));
    }
}

/// The grid with column `k` scaled below the diagonal: entry `(i, k)` for
/// `i > k` becomes `g[k][i] * inv(g[k][k])` (one column of the unit lower
/// factor); everything else is unchanged.
pub open spec fn col_scaled_below<T: Field>(g: Seq<Seq<T>>, k: int) -> Seq<Seq<T>> {
    Seq::new(
        g.len(),
        |j: int|
            if j == k {
                Seq::new(
                    g[k].len(),
                    |i: int|
                        if i > k {
                            T::spec_mul(g[k][i], T::spec_inv(g[k][k]))
                        } else {
                            g[k][i]
                        },
                )
            } else {
                g[j]
            },
    )
}

/// Scales the entries of column `k` below the diagonal by the multiplicative
/// inverse of the pivot entry `(k, k)`.
pub(crate) fn scale_col_below<T: Field>(m: &mut Mat<T>, k: usize)
    requires
        old(m).wf(),
        k < old(m).spec_nrows(),
        k < old(m).spec_ncols(),
    ensures
        final(m).wf(),
        final(m).nrows == old(m).nrows,
        final(m)@ == col_scaled_below::<T>(old(m)@, k as int),
{
    let nr = m.nrows();
    let inv = m.read(k, k).inv();
    let mut i: usize = k + 1;
    while i < nr
        invariant
            m.wf(),
            m.nrows == old(m).nrows,
            nr == m.spec_nrows(),
            k < nr,
            k < m.spec_ncols(),
            m.spec_ncols() == old(m).spec_ncols(),
            k + 1 <= i <= nr,
            inv == T::spec_inv(old(m)@[k as int][k as int]),
            forall|jj: int|
                0 <= jj < m.spec_ncols() && jj != k ==> (#[trigger] m@[jj]) == old(m)@[jj],
            m@[k as int].len() == nr,
            forall|ii: int|
                (0 <= ii <= k || i <= ii < nr) ==> (#[trigger] m@[k as int][ii]) == old(
                    m,
                )@[k as int][ii],
            forall|ii: int|
                k < ii < i ==> (#[trigger] m@[k as int][ii]) == T::spec_mul(
                    old(m)@[k as int][ii],
                    inv,
                ),
        decreases nr - i,
    {
        let ghost at_start = m@;
        let v = m.read(i, k).mul(inv);
        m.write(i, k, v);
        proof {
            assert forall|jj: int| 0 <= jj < m.spec_ncols() && jj != k implies (#[trigger] m@[jj])
                == at_start[jj] by {}
        }
        i += 1;
    }
    proof {
        assert(m@ =~~= col_scaled_below::<T>(old(m)@, k as int));
    }
}

} // verus!
