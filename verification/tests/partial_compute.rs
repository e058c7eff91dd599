use faer_lu::field::Field;
use faer_lu::mat::Mat;
use faer_lu::partial_pivoting::compute::{lu_in_place, lu_in_place_req, PartialPivLuComputeParams};
use faer_lu::Parallelism;
use rand::random;

#[derive(Clone, Copy, Debug, PartialEq)]
struct F64(f64);

impl Field for F64 {
    // The spec items exist only for the verifier; a foreign impl supplies
    // stubs that nothing ever calls.
    fn spec_zero() -> F64 {
        unreachable!()
    }
    fn spec_one() -> F64 {
        unreachable!()
    }
    fn spec_add(_: F64, _: F64) -> F64 {
        unreachable!()
    }
    fn spec_sub(_: F64, _: F64) -> F64 {
        unreachable!()
    }
    fn spec_mul(_: F64, _: F64) -> F64 {
        unreachable!()
    }
    fn spec_neg(_: F64) -> F64 {
        unreachable!()
    }
    fn spec_inv(_: F64) -> F64 {
        unreachable!()
    }
    fn spec_conj(_: F64) -> F64 {
        unreachable!()
    }
    fn spec_score(_: F64) -> u64 {
        unreachable!()
    }
    fn lemma_zero_absorbs(_: F64) {}
    fn zero() -> F64 {
        F64(0.0)
    }
    fn one() -> F64 {
        F64(1.0)
    }
    fn add(self, o: F64) -> F64 {
        F64(self.0 + o.0)
    }
    fn sub(self, o: F64) -> F64 {
        F64(self.0 - o.0)
    }
    fn mul(self, o: F64) -> F64 {
        F64(self.0 * o.0)
    }
    fn neg(self) -> F64 {
        F64(-self.0)
    }
    fn inv(self) -> F64 {
        F64(1.0 / self.0)
    }
    fn conj(self) -> F64 {
        self
    }
    fn score(self) -> u64 {
        self.0.abs().to_bits()
    }
}

fn mk_mat(m: usize, n: usize, f: &mut dyn FnMut(usize, usize) -> f64) -> Mat<F64> {
    let mut a = Mat::zeros(m, n);
    for j in 0..n {
        for i in 0..m {
            a.write(i, j, F64(f(i, j)));
        }
    }
    a
}

fn reconstruct_partial(factors: &Mat<F64>, perm: &[usize]) -> Mat<F64> {
    let m = factors.nrows();
    let n = factors.ncols();
    let size = m.min(n);
    let mut recon: Mat<F64> = Mat::zeros(m, n);
    for i in 0..m {
        for j in 0..n {
            let top = (i.min(j) + 1).min(size);
            let mut acc = F64(0.0);
            for t in 0..top {
                let l = if t == i { F64(1.0) } else { factors.read(i, t) };
                let u = factors.read(t, j);
                acc = acc.add(l.mul(u));
            }
            recon.write(perm[i], j, acc);
        }
    }
    recon
}

fn check_partial_reconstruction(sizes: &[(usize, usize)], storage: &str) {
    for &(m, n) in sizes {
        let mat_orig = match storage {
            "reversed" => {
                let base = mk_mat(m, n, &mut |_, _| random::<f64>());
                mk_mat(m, n, &mut |i, j| base.read(m - 1 - i, j).0)
            }
            "transposed" => {
                let base = mk_mat(n, m, &mut |_, _| random::<f64>());
                mk_mat(m, n, &mut |i, j| base.read(j, i).0)
            }
            _ => mk_mat(m, n, &mut |_, _| random::<f64>()),
        };
        let mut mat = mat_orig.duplicate();
        let mut perm = vec![0usize; m];
        let mut perm_inv = vec![0usize; m];

        let req = lu_in_place_req(m, n, Parallelism::Multi(8), PartialPivLuComputeParams::default());
        assert!(req.is_ok());

        let (_, row_perm) = lu_in_place(
            &mut mat,
            &mut perm,
            &mut perm_inv,
            Parallelism::Multi(8),
            PartialPivLuComputeParams::default(),
        );
        let reconstructed = reconstruct_partial(&mat, &row_perm.fwd);

        for i in 0..m {
            for j in 0..n {
                let d = (mat_orig.read(i, j).0 - reconstructed.read(i, j).0).abs();
                assert!(d < 1e-6, "({m},{n}) entry ({i},{j}) off by {d}");
            }
        }
        for i in 0..m {
            assert_eq!(perm[perm_inv[i]], i);
            assert_eq!(perm_inv[perm[i]], i);
        }
    }
}

const SIZES: &[(usize, usize)] = &[
    (10, 10),
    (4, 4),
    (2, 4),
    (2, 20),
    (2, 2),
    (20, 20),
    (4, 2),
    (20, 2),
    (40, 20),
    (20, 40),
    (40, 60),
    (60, 40),
    (200, 100),
    (100, 200),
    (200, 200),
];

#[test]
fn compute_lu() {
    check_partial_reconstruction(SIZES, "plain");
}

#[test]
fn compute_lu_non_contiguous() {
    check_partial_reconstruction(SIZES, "reversed");
}

#[test]
fn compute_lu_row_major() {
    check_partial_reconstruction(SIZES, "transposed");
}

#[test]
fn partial_pivot_picks_largest_in_column() {
    // A = [[0, 2], [3, 4]]: partial pivoting on column 0 must pick the 3 at
    // row 1, not the 0 at row 0.
    let mut a = mk_mat(2, 2, &mut |i, j| [[0.0, 2.0], [3.0, 4.0]][i][j]);
    let mut perm = vec![0usize; 2];
    let mut perm_inv = vec![0usize; 2];
    let (nt, p) = lu_in_place(
        &mut a,
        &mut perm,
        &mut perm_inv,
        Parallelism::Sequential,
        PartialPivLuComputeParams::default(),
    );
    assert_eq!(nt, 1);
    assert_eq!(p.fwd, vec![1, 0]);
    assert_eq!(a.read(0, 0).0, 3.0);
    assert_eq!(a.read(0, 1).0, 4.0);
    assert_eq!(a.read(1, 0).0, 0.0);
    assert_eq!(a.read(1, 1).0, 2.0);
}

#[test]
fn partial_zero_matrix_defaults_to_diagonal() {
    for n in [1usize, 2, 5, 8] {
        let mut a: Mat<F64> = Mat::zeros(n, n);
        let mut perm = vec![0usize; n];
        let mut perm_inv = vec![0usize; n];
        let (nt, p) = lu_in_place(
            &mut a,
            &mut perm,
            &mut perm_inv,
            Parallelism::Sequential,
            PartialPivLuComputeParams::default(),
        );
        assert_eq!(nt, 0);
        for i in 0..n {
            assert_eq!(p.fwd[i], i);
            assert_eq!(p.inv[i], i);
        }
        // In IEEE arithmetic the scaled columns divide zero by zero, so the
        // factor entries below and right of the first pivot are NaN; only the
        // untouched first pivot row is still exactly zero (the
        // exact-arithmetic instance checks every entry).
        for j in 0..n {
            assert_eq!(a.read(0, j).0, 0.0);
        }
    }
}

#[test]
fn partial_parallelism_settings_agree() {
    let orig = mk_mat(24, 17, &mut |_, _| random::<f64>());
    let mut a1 = orig.duplicate();
    let mut a2 = orig.duplicate();
    let mut perm1 = vec![0usize; 24];
    let mut perm_inv1 = vec![0usize; 24];
    let mut perm2 = vec![0usize; 24];
    let mut perm_inv2 = vec![0usize; 24];
    let (nt1, p1) = lu_in_place(
        &mut a1,
        &mut perm1,
        &mut perm_inv1,
        Parallelism::Sequential,
        PartialPivLuComputeParams::default(),
    );
    let (nt2, p2) = lu_in_place(
        &mut a2,
        &mut perm2,
        &mut perm_inv2,
        Parallelism::Multi(4),
        PartialPivLuComputeParams::default(),
    );
    assert_eq!(nt1, nt2);
    assert_eq!(p1.fwd, p2.fwd);
    assert_eq!(p1.inv, p2.inv);
    for i in 0..24 {
        for j in 0..17 {
            assert_eq!(a1.read(i, j).0.to_bits(), a2.read(i, j).0.to_bits());
        }
    }
}

#[test]
fn partial_req_formulas() {
    assert_eq!(
        lu_in_place_req(3, 7, Parallelism::Sequential, PartialPivLuComputeParams::default()),
        Ok(3)
    );
    assert_eq!(
        lu_in_place_req(7, 3, Parallelism::Sequential, PartialPivLuComputeParams::default()),
        Ok(0)
    );
}
