//! An owned dense matrix stored as a vector of columns, with the row and
//! column swaps the factorizations need.

use vstd::prelude::*;
use crate::field::Field;

verus! {

/// `g` is a list of `n` columns of `m` entries each (the view of an `m × n`
/// matrix; entry `(i, j)` is `g[j][i]`).
pub open spec fn is_grid<T>(g: Seq<Seq<T>>, m: int, n: int) -> bool {
    &&& g.len() == n
    &&& forall|j: int| 0 <= j < n ==> (#[trigger] g[j]).len() == m
}

/// One column with the entries at rows `a` and `b` exchanged.
pub open spec fn col_swap2<T>(c: Seq<T>, a: int, b: int) -> Seq<T> {
    c.update(a, c[b]).update(b, c[a])
}

/// The grid with rows `a` and `b` exchanged in every column.
pub open spec fn grid_swap_rows<T>(g: Seq<Seq<T>>, a: int, b: int) -> Seq<Seq<T>> {
    Seq::new(g.len(), |j: int| col_swap2(g[j], a, b))
}

/// The grid with columns `a` and `b` exchanged.
pub open spec fn grid_swap_cols<T>(g: Seq<Seq<T>>, a: int, b: int) -> Seq<Seq<T>> {
    g.update(a, g[b]).update(b, g[a])
}

/// `min(m, n)`: the number of elimination steps of an `m × n` factorization.
pub open spec fn spec_size(m: int, n: int) -> int {
    if m < n {
        m
    } else {
        n
    }
}

/// A dense matrix over the scalar `T`, stored column by column.
pub struct Mat<T> {
    /// The columns; every column holds `nrows` entries.
    pub cols: Vec<Vec<T>>,
    /// The number of rows.
    pub nrows: usize,
}

impl<T> View for Mat<T> {
    type V = Seq<Seq<T>>;

    open spec fn view(&self) -> Seq<Seq<T>> {
        Seq::new(self.cols@.len(), |j: int| self.cols@[j]@)
    }
}

impl<T> Mat<T> {
    /// Every column holds exactly `nrows` entries.
    pub open spec fn wf(&self) -> bool {
        is_grid(self@, self.nrows as int, self.cols@.len() as int)
    }

    pub open spec fn spec_nrows(&self) -> int {
        self.nrows as int
    }

    pub open spec fn spec_ncols(&self) -> int {
        self@.len() as int
    }

    pub fn nrows(&self) -> (r: usize)
        ensures
            r as int == self.spec_nrows(),
    {
        self.nrows
    }

    pub fn ncols(&self) -> (r: usize)
        ensures
            r as int == self.spec_ncols(),
    {
        self.cols.len()
    }

    /// The entry at row `i` of column `j`.
    pub fn read(&self, i: usize, j: usize) -> (r: T)
        where T: Copy
        requires
            self.wf(),
            i < self.spec_nrows(),
            j < self.spec_ncols(),
        ensures
            r == self@[j as int][i as int],
    {
        proof {
            assert(self@[j as int].len() == self.spec_nrows());
            assert(self.cols@[j as int]@.len() == self.nrows);
        }
        self.cols[j][i]
    }

    /// Replaces the entry at row `i` of column `j`.
    pub fn write(&mut self, i: usize, j: usize, x: T)
        requires
            old(self).wf(),
            i < old(self).spec_nrows(),
            j < old(self).spec_ncols(),
        ensures
            final(self).wf(),
            final(self).nrows == old(self).nrows,
            final(self)@ == old(self)@.update(j as int, old(self)@[j as int].update(i as int, x)),
    {
        proof {
            assert(self@[j as int].len() == self.spec_nrows());
            assert(self.cols@[j as int]@.len() == self.nrows);
        }
        self.cols[j][i] = x;
        assert(self@ =~= old(self)@.update(j as int, old(self)@[j as int].update(i as int, x)));
    }

    /// The all-zero `m × n` matrix.
    pub fn zeros(m: usize, n: usize) -> (r: Mat<T>)
        where T: Field
        ensures
            r.wf(),
            r.spec_nrows() == m,
            r.spec_ncols() == n,
            forall|j: int, i: int|
                0 <= j < n && 0 <= i < m ==> (#[trigger] r@[j][i]) == T::spec_zero(),
    {
        let mut cols: Vec<Vec<T>> = Vec::new();
        let mut j: usize = 0;
        while j < n
            invariant
                j <= n,
                cols@.len() == j,
                forall|jj: int|
                    0 <= jj < j ==> (#[trigger] cols@[jj])@.len() == m,
                forall|jj: int, i: int|
                    0 <= jj < j && 0 <= i < m ==> (#[trigger] cols@[jj]@[i]) == T::spec_zero(),
            decreases n - j,
        {
            let mut c: Vec<T> = Vec::new();
            let mut i: usize = 0;
            while i < m
                invariant
                    i <= m,
                    c@.len() == i,
                    forall|ii: int| 0 <= ii < i ==> (#[trigger] c@[ii]) == T::spec_zero(),
                decreases m - i,
            {
                c.push(T::zero());
                i += 1;
            }
            cols.push(c);
            j += 1;
        }
        Mat { cols, nrows: m }
    }

    /// An element-for-element copy.
    pub fn duplicate(&self) -> (r: Mat<T>)
        where T: Copy
        requires
            self.wf(),
        ensures
            r.wf(),
            r.nrows == self.nrows,
            r@ == self@,
    {
        let m = self.nrows;
        let n = self.cols.len();
        let mut cols: Vec<Vec<T>> = Vec::new();
        let mut j: usize = 0;
        while j < n
            invariant
                self.wf(),
                m == self.nrows,
                n == self.spec_ncols(),
                j <= n,
                cols@.len() == j,
                forall|jj: int| 0 <= jj < j ==> (#[trigger] cols@[jj])@ == self@[jj],
            decreases n - j,
        {
            let mut c: Vec<T> = Vec::new();
            let mut i: usize = 0;
            while i < m
                invariant
                    self.wf(),
                    m == self.nrows,
                    n == self.spec_ncols(),
                    j < n,
                    i <= m,
                    c@.len() == i,
                    forall|ii: int| 0 <= ii < i ==> (#[trigger] c@[ii]) == self@[j as int][ii],
                decreases m - i,
            {
                proof {
                    assert(self@[j as int].len() == m);
                    assert(self.cols@[j as int]@.len() == m);
                }
                c.push(self.cols[j][i]);
                i += 1;
            }
            assert(c@ =~= self@[j as int]);
            cols.push(c);
            j += 1;
        }
        let r = Mat { cols, nrows: m };
        assert(r@ =~= self@);
        r
    }

    /// Exchanges rows `a` and `b` across every column.
    pub fn swap_rows(&mut self, a: usize, b: usize)
        where T: Copy
        requires
            old(self).wf(),
            a < old(self).spec_nrows(),
            b < old(self).spec_nrows(),
        ensures
            final(self).wf(),
            final(self).nrows == old(self).nrows,
            final(self)@ == grid_swap_rows(old(self)@, a as int, b as int),
    {
        let n = self.cols.len();
        let mut j: usize = 0;
        while j < n
            invariant
                self.wf(),
                self.nrows == old(self).nrows,
                a < self.spec_nrows(),
                b < self.spec_nrows(),
                n == self.spec_ncols(),
                n == old(self).spec_ncols(),
                j <= n,
                forall|jj: int|
                    0 <= jj < j ==> (#[trigger] self@[jj]) == col_swap2(old(self)@[jj], a as int, b as int),
                forall|jj: int| j <= jj < n ==> (#[trigger] self@[jj]) == old(self)@[jj],
            decreases n - j,
        {
            proof {
                assert(self@[j as int].len() == self.spec_nrows());
                assert(self.cols@[j as int]@.len() == self.nrows);
            }
            let va = self.cols[j][a];
            let vb = self.cols[j][b];
            let ghost before = self@;
            self.cols[j][a] = vb;
            proof {
                assert(self.cols@[j as int]@.len() == self.nrows);
            }
            self.cols[j][b] = va;
            assert(self@[j as int].len() == self.spec_nrows());
            assert(self@[j as int] =~= col_swap2(old(self)@[j as int], a as int, b as int));
            assert forall|jj: int| 0 <= jj < n && jj != j implies (#[trigger] self@[jj]) == before[jj] by {}
            j += 1;
        }
        assert(self@ =~= grid_swap_rows(old(self)@, a as int, b as int));
    }

    /// Exchanges columns `a` and `b`, entry by entry.
    pub fn swap_cols(&mut self, a: usize, b: usize)
        where T: Copy
        requires
            old(self).wf(),
            a < old(self).spec_ncols(),
            b < old(self).spec_ncols(),
        ensures
            final(self).wf(),
            final(self).nrows == old(self).nrows,
            final(self)@ == grid_swap_cols(old(self)@, a as int, b as int),
    {
        let m = self.nrows;
        let mut i: usize = 0;
        while i < m
            invariant
                self.wf(),
                self.nrows == old(self).nrows,
                m == self.spec_nrows(),
                a < self.spec_ncols(),
                b < self.spec_ncols(),
                self.spec_ncols() == old(self).spec_ncols(),
                i <= m,
                forall|ii: int|
                    0 <= ii < i ==> (#[trigger] self@[a as int][ii]) == old(self)@[b as int][ii],
                forall|ii: int|
                    0 <= ii < i ==> (#[trigger] self@[b as int][ii]) == old(self)@[a as int][ii],
                forall|ii: int|
                    i <= ii < m ==> (#[trigger] self@[a as int][ii]) == old(self)@[a as int][ii],
                forall|ii: int|
                    i <= ii < m ==> (#[trigger] self@[b as int][ii]) == old(self)@[b as int][ii],
                forall|jj: int|
                    0 <= jj < self.spec_ncols() && jj != a && jj != b
                        ==> (#[trigger] self@[jj]) == old(self)@[jj],
            decreases m - i,
        {
            proof {
                assert(self@[a as int].len() == self.spec_nrows());
                assert(self@[b as int].len() == self.spec_nrows());
                assert(self.cols@[a as int]@.len() == self.nrows);
                assert(self.cols@[b as int]@.len() == self.nrows);
            }
            let va = self.cols[a][i];
            let vb = self.cols[b][i];
            let ghost before = self@;
            self.cols[a][i] = vb;
            proof {
                assert(self.cols@[b as int]@.len() == self.nrows);
            }
            self.cols[b][i] = va;
            proof {
                assert forall|jj: int| 0 <= jj < self.spec_ncols() && jj != a && jj != b
                    implies (#[trigger] self@[jj]) == old(self)@[jj] by {
                    assert(self@[jj] == before[jj]);
                }
                assert forall|jj: int| 0 <= jj < self.spec_ncols()
                    implies (#[trigger] self@[jj]).len() == self.spec_nrows() by {
                    if jj != a && jj != b {
                        assert(self@[jj] == before[jj]);
                    } else {
                        assert(self@[jj].len() == before[jj].len());
                    }
                }
            }
            i += 1;
        }
        if a == b {
            assert(self@ =~= grid_swap_cols(old(self)@, a as int, b as int)) by {
                assert forall|jj: int| 0 <= jj < self.spec_ncols()
                    implies self@[jj] =~= grid_swap_cols(old(self)@, a as int, b as int)[jj] by {}
            }
        } else {
            assert(self@[a as int] =~= old(self)@[b as int]);
            assert(self@[b as int] =~= old(self)@[a as int]);
            assert(self@ =~= grid_swap_cols(old(self)@, a as int, b as int));
        }
    }
}

} // verus!
