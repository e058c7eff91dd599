use faer_lu::field::Field;
use faer_lu::full_pivoting::compute::{lu_in_place, lu_in_place_req, FullPivLuComputeParams};
use faer_lu::mat::Mat;
use faer_lu::Parallelism;
use rand::random;

#[derive(Clone, Copy, Debug, PartialEq)]
struct F64(f64);

impl Field for F64 {
    fn spec_zero() -> F64 {
        unreachable!()
    }
    fn spec_one() -> F64 {
        unreachable!()
    }
    fn spec_add(_: F64, _: F64) -> F64 {
        unreachable!()
    }
    fn spec_sub(_: F64, _: F64) -> F64 {
        unreachable!()
    }
    fn spec_mul(_: F64, _: F64) -> F64 {
        unreachable!()
    }
    fn spec_neg(_: F64) -> F64 {
        unreachable!()
    }
    fn spec_inv(_: F64) -> F64 {
        unreachable!()
    }
    fn spec_conj(_: F64) -> F64 {
        unreachable!()
    }
    fn spec_score(_: F64) -> u64 {
        unreachable!()
    }
    fn lemma_zero_absorbs(_: F64) {}
    fn zero() -> F64 {
        F64(0.0)
    }
    fn one() -> F64 {
        F64(1.0)
    }
    fn add(self, o: F64) -> F64 {
        F64(self.0 + o.0)
    }
    fn sub(self, o: F64) -> F64 {
        F64(self.0 - o.0)
    }
    fn mul(self, o: F64) -> F64 {
        F64(self.0 * o.0)
    }
    fn neg(self) -> F64 {
        F64(-self.0)
    }
    fn inv(self) -> F64 {
        F64(1.0 / self.0)
    }
    fn conj(self) -> F64 {
        self
    }
    fn score(self) -> u64 {
        self.0.abs().to_bits()
    }
}

#[derive(Clone, Copy, Debug, PartialEq)]
struct F32(f32);

impl Field for F32 {
    fn spec_zero() -> F32 {
        unreachable!()
    }
    fn spec_one() -> F32 {
        unreachable!()
    }
    fn spec_add(_: F32, _: F32) -> F32 {
        unreachable!()
    }
    fn spec_sub(_: F32, _: F32) -> F32 {
        unreachable!()
    }
    fn spec_mul(_: F32, _: F32) -> F32 {
        unreachable!()
    }
    fn spec_neg(_: F32) -> F32 {
        unreachable!()
    }
    fn spec_inv(_: F32) -> F32 {
        unreachable!()
    }
    fn spec_conj(_: F32) -> F32 {
        unreachable!()
    }
    fn spec_score(_: F32) -> u64 {
        unreachable!()
    }
    fn lemma_zero_absorbs(_: F32) {}
    fn zero() -> F32 {
        F32(0.0)
    }
    fn one() -> F32 {
        F32(1.0)
    }
    fn add(self, o: F32) -> F32 {
        F32(self.0 + o.0)
    }
    fn sub(self, o: F32) -> F32 {
        F32(self.0 - o.0)
    }
    fn mul(self, o: F32) -> F32 {
        F32(self.0 * o.0)
    }
    fn neg(self) -> F32 {
        F32(-self.0)
    }
    fn inv(self) -> F32 {
        F32(1.0 / self.0)
    }
    fn conj(self) -> F32 {
        self
    }
    fn score(self) -> u64 {
        self.0.abs().to_bits() as u64
    }
}

#[derive(Clone, Copy, Debug, PartialEq)]
struct C64 {
    re: f64,
    im: f64,
}

impl Field for C64 {
    fn spec_zero() -> C64 {
        unreachable!()
    }
    fn spec_one() -> C64 {
        unreachable!()
    }
    fn spec_add(_: C64, _: C64) -> C64 {
        unreachable!()
    }
    fn spec_sub(_: C64, _: C64) -> C64 {
        unreachable!()
    }
    fn spec_mul(_: C64, _: C64) -> C64 {
        unreachable!()
    }
    fn spec_neg(_: C64) -> C64 {
        unreachable!()
    }
    fn spec_inv(_: C64) -> C64 {
        unreachable!()
    }
    fn spec_conj(_: C64) -> C64 {
        unreachable!()
    }
    fn spec_score(_: C64) -> u64 {
        unreachable!()
    }
    fn lemma_zero_absorbs(_: C64) {}
    fn zero() -> C64 {
        C64 { re: 0.0, im: 0.0 }
    }
    fn one() -> C64 {
        C64 { re: 1.0, im: 0.0 }
    }
    fn add(self, o: C64) -> C64 {
        C64 { re: self.re + o.re, im: self.im + o.im }
    }
    fn sub(self, o: C64) -> C64 {
        C64 { re: self.re - o.re, im: self.im - o.im }
    }
    fn mul(self, o: C64) -> C64 {
        C64 { re: self.re * o.re - self.im * o.im, im: self.re * o.im + self.im * o.re }
    }
    fn neg(self) -> C64 {
        C64 { re: -self.re, im: -self.im }
    }
    fn inv(self) -> C64 {
        let d = self.re * self.re + self.im * self.im;
        C64 { re: self.re / d, im: -self.im / d }
    }
    fn conj(self) -> C64 {
        C64 { re: self.re, im: -self.im }
    }
    fn score(self) -> u64 {
        // Squared modulus, as a monotonically ordered bit pattern.
        (self.re * self.re + self.im * self.im).to_bits()
    }
}

#[derive(Clone, Copy, Debug, PartialEq)]
struct C32 {
    re: f32,
    im: f32,
}

impl Field for C32 {
    fn spec_zero() -> C32 {
        unreachable!()
    }
    fn spec_one() -> C32 {
        unreachable!()
    }
    fn spec_add(_: C32, _: C32) -> C32 {
        unreachable!()
    }
    fn spec_sub(_: C32, _: C32) -> C32 {
        unreachable!()
    }
    fn spec_mul(_: C32, _: C32) -> C32 {
        unreachable!()
    }
    fn spec_neg(_: C32) -> C32 {
        unreachable!()
    }
    fn spec_inv(_: C32) -> C32 {
        unreachable!()
    }
    fn spec_conj(_: C32) -> C32 {
        unreachable!()
    }
    fn spec_score(_: C32) -> u64 {
        unreachable!()
    }
    fn lemma_zero_absorbs(_: C32) {}
    fn zero() -> C32 {
        C32 { re: 0.0, im: 0.0 }
    }
    fn one() -> C32 {
        C32 { re: 1.0, im: 0.0 }
    }
    fn add(self, o: C32) -> C32 {
        C32 { re: self.re + o.re, im: self.im + o.im }
    }
    fn sub(self, o: C32) -> C32 {
        C32 { re: self.re - o.re, im: self.im - o.im }
    }
    fn mul(self, o: C32) -> C32 {
        C32 { re: self.re * o.re - self.im * o.im, im: self.re * o.im + self.im * o.re }
    }
    fn neg(self) -> C32 {
        C32 { re: -self.re, im: -self.im }
    }
    fn inv(self) -> C32 {
        let d = self.re * self.re + self.im * self.im;
        C32 { re: self.re / d, im: -self.im / d }
    }
    fn conj(self) -> C32 {
        C32 { re: self.re, im: -self.im }
    }
    fn score(self) -> u64 {
        ((self.re as f64) * (self.re as f64) + (self.im as f64) * (self.im as f64)).to_bits()
    }
}

trait TestScalar: Field + Copy {
    fn gen() -> Self;
    fn diff(a: Self, b: Self) -> f64;
}

impl TestScalar for F64 {
    fn gen() -> F64 {
        F64(random::<f64>())
    }
    fn diff(a: F64, b: F64) -> f64 {
        (a.0 - b.0).abs()
    }
}

impl TestScalar for F32 {
    fn gen() -> F32 {
        F32(random::<f32>())
    }
    fn diff(a: F32, b: F32) -> f64 {
        (a.0 - b.0).abs() as f64
    }
}

impl TestScalar for C64 {
    fn gen() -> C64 {
        C64 { re: random::<f64>(), im: random::<f64>() }
    }
    fn diff(a: C64, b: C64) -> f64 {
        let dr = a.re - b.re;
        let di = a.im - b.im;
        (dr * dr + di * di).sqrt()
    }
}

impl TestScalar for C32 {
    fn gen() -> C32 {
        C32 { re: random::<f32>(), im: random::<f32>() }
    }
    fn diff(a: C32, b: C32) -> f64 {
        let dr = (a.re - b.re) as f64;
        let di = (a.im - b.im) as f64;
        (dr * dr + di * di).sqrt()
    }
}

fn reconstruct_full<T: Field>(factors: &Mat<T>, row_perm: &[usize], col_perm: &[usize]) -> Mat<T> {
    let m = factors.nrows();
    let n = factors.ncols();
    let size = m.min(n);
    let mut recon: Mat<T> = Mat::zeros(m, n);
    for i in 0..m {
        for j in 0..n {
            let top = (i.min(j) + 1).min(size);
            let mut acc = T::zero();
            for t in 0..top {
                let l = if t == i { T::one() } else { factors.read(i, t) };
                let u = factors.read(t, j);
                acc = acc.add(l.mul(u));
            }
            recon.write(row_perm[i], col_perm[j], acc);
        }
    }
    recon
}

fn compute_lu_generic<T: TestScalar>(epsilon: f64, transpose_input: bool) {
    for (m, n) in [
        (2usize, 4usize),
        (2, 2),
        (3, 3),
        (4, 2),
        (2, 1),
        (4, 4),
        (20, 20),
        (20, 2),
        (2, 20),
        (40, 20),
        (20, 40),
        (256, 255),
    ] {
        let mut random_mat: Mat<T> = Mat::zeros(m, n);
        if transpose_input {
            // Generate in the other orientation, then copy it over transposed,
            // matching a row-major storage of the same values.
            let mut base: Mat<T> = Mat::zeros(n, m);
            for j in 0..m {
                for i in 0..n {
                    base.write(i, j, T::gen());
                }
            }
            for j in 0..n {
                for i in 0..m {
                    random_mat.write(i, j, base.read(j, i));
                }
            }
        } else {
            for j in 0..n {
                for i in 0..m {
                    random_mat.write(i, j, T::gen());
                }
            }
        }
        for parallelism in [Parallelism::Sequential, Parallelism::Multi(0)] {
            let mat_orig = random_mat.duplicate();
            let mut mat = random_mat.duplicate();
            let mut row_perm = vec![0usize; m];
            let mut row_perm_inv = vec![0usize; m];
            let mut col_perm = vec![0usize; n];
            let mut col_perm_inv = vec![0usize; n];

            let (_, row_perm, col_perm) = lu_in_place(
                &mut mat,
                &mut row_perm,
                &mut row_perm_inv,
                &mut col_perm,
                &mut col_perm_inv,
                parallelism,
                FullPivLuComputeParams::default(),
            );
            let reconstructed = reconstruct_full(&mat, &row_perm.fwd, &col_perm.fwd);

            for i in 0..m {
                for j in 0..n {
                    let d = T::diff(mat_orig.read(i, j), reconstructed.read(i, j));
                    assert!(d < epsilon, "({m},{n}) entry ({i},{j}) off by {d}");
                }
            }
            for i in 0..m {
                assert_eq!(row_perm.fwd[row_perm.inv[i]], i);
                assert_eq!(row_perm.inv[row_perm.fwd[i]], i);
            }
            for j in 0..n {
                assert_eq!(col_perm.fwd[col_perm.inv[j]], j);
                assert_eq!(col_perm.inv[col_perm.fwd[j]], j);
            }
        }
    }
}

#[test]
fn test_compute_lu_row_major() {
    compute_lu_generic::<F64>(1e-6, false);
    compute_lu_generic::<F32>(1e-2, false);
    compute_lu_generic::<F64>(1e-6, true);
    compute_lu_generic::<F32>(1e-2, true);
    compute_lu_generic::<C64>(1e-6, false);
    compute_lu_generic::<C32>(1e-2, false);
    compute_lu_generic::<C64>(1e-6, true);
    compute_lu_generic::<C32>(1e-2, true);
}

#[test]
fn full_pivot_picks_global_maximum() {
    // A = [[0, 2], [3, 4]]: full pivoting must pick the 4 at (1, 1) first,
    // not the 3 or the 2.
    let mut a: Mat<F64> = Mat::zeros(2, 2);
    a.write(0, 0, F64(0.0));
    a.write(0, 1, F64(2.0));
    a.write(1, 0, F64(3.0));
    a.write(1, 1, F64(4.0));
    let mut row_perm = vec![0usize; 2];
    let mut row_perm_inv = vec![0usize; 2];
    let mut col_perm = vec![0usize; 2];
    let mut col_perm_inv = vec![0usize; 2];
    let (nt, rp, cp) = lu_in_place(
        &mut a,
        &mut row_perm,
        &mut row_perm_inv,
        &mut col_perm,
        &mut col_perm_inv,
        Parallelism::Sequential,
        FullPivLuComputeParams::default(),
    );
    // One row swap and one column swap bring the 4 to the top-left corner.
    assert_eq!(nt, 2);
    assert_eq!(rp.fwd, vec![1, 0]);
    assert_eq!(cp.fwd, vec![1, 0]);
    assert_eq!(a.read(0, 0).0, 4.0);
    assert_eq!(a.read(0, 1).0, 3.0);
    assert_eq!(a.read(1, 0).0, 0.5);
    assert_eq!(a.read(1, 1).0, 0.0 - 1.5);
}

#[test]
fn full_zero_matrix_defaults_to_diagonal() {
    for n in [1usize, 2, 5, 8] {
        let mut a: Mat<F64> = Mat::zeros(n, n);
        let mut row_perm = vec![0usize; n];
        let mut row_perm_inv = vec![0usize; n];
        let mut col_perm = vec![0usize; n];
        let mut col_perm_inv = vec![0usize; n];
        let (nt, rp, cp) = lu_in_place(
            &mut a,
            &mut row_perm,
            &mut row_perm_inv,
            &mut col_perm,
            &mut col_perm_inv,
            Parallelism::Sequential,
            FullPivLuComputeParams::default(),
        );
        assert_eq!(nt, 0);
        for i in 0..n {
            assert_eq!(rp.fwd[i], i);
            assert_eq!(cp.fwd[i], i);
        }
        // In IEEE arithmetic the scaled columns divide zero by zero, so the
        // factor entries below and right of the first pivot are NaN; only the
        // untouched first pivot row is still exactly zero (the
        // exact-arithmetic instance checks every entry).
        for j in 0..n {
            assert_eq!(a.read(0, j).0, 0.0);
        }
    }
}

#[test]
fn full_parallelism_settings_agree() {
    let mut orig: Mat<F64> = Mat::zeros(19, 23);
    for j in 0..23 {
        for i in 0..19 {
            orig.write(i, j, F64(random::<f64>()));
        }
    }
    let mut outs: Vec<(usize, Vec<usize>, Vec<usize>, Mat<F64>)> = Vec::new();
    for parallelism in [Parallelism::Sequential, Parallelism::Multi(4)] {
        let mut a = orig.duplicate();
        let mut row_perm = vec![0usize; 19];
        let mut row_perm_inv = vec![0usize; 19];
        let mut col_perm = vec![0usize; 23];
        let mut col_perm_inv = vec![0usize; 23];
        let (nt, rp, cp) = lu_in_place(
            &mut a,
            &mut row_perm,
            &mut row_perm_inv,
            &mut col_perm,
            &mut col_perm_inv,
            parallelism,
            FullPivLuComputeParams::default(),
        );
        outs.push((nt, rp.fwd, cp.fwd, a));
    }
    let (nt1, rp1, cp1, a1) = &outs[0];
    let (nt2, rp2, cp2, a2) = &outs[1];
    assert_eq!(nt1, nt2);
    assert_eq!(rp1, rp2);
    assert_eq!(cp1, cp2);
    for i in 0..19 {
        for j in 0..23 {
            assert_eq!(a1.read(i, j).0.to_bits(), a2.read(i, j).0.to_bits());
        }
    }
}

#[test]
fn full_req_formulas() {
    assert_eq!(
        lu_in_place_req(3, 7, Parallelism::Sequential, FullPivLuComputeParams::default()),
        Ok(10)
    );
    assert_eq!(
        lu_in_place_req(0, 0, Parallelism::Sequential, FullPivLuComputeParams::default()),
        Ok(0)
    );
    assert!(
        lu_in_place_req(usize::MAX, 2, Parallelism::Sequential, FullPivLuComputeParams::default())
            .is_err()
    );
}
