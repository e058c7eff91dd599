use faer_lu::field::Field;
use faer_lu::mat::Mat;
use faer_lu::partial_pivoting::compute::{lu_in_place, PartialPivLuComputeParams};
use faer_lu::partial_pivoting::solve::{solve, solve_in_place, solve_in_place_req, solve_req, solve_transpose, solve_transpose_in_place, solve_transpose_in_place_req, solve_transpose_req};
use faer_lu::{Conj, Parallelism};
use rand::rngs::StdRng;
use rand::{Rng, SeedableRng};

#[derive(Clone, Copy, Debug, PartialEq)]
struct F64(f64);

impl Field for F64 {
    fn spec_zero() -> F64 {
        unreachable!()
    }
    fn spec_one() -> F64 {
        unreachable!()
    }
    fn spec_add(_: F64, _: F64) -> F64 {
        unreachable!()
    }
    fn spec_sub(_: F64, _: F64) -> F64 {
        unreachable!()
    }
    fn spec_mul(_: F64, _: F64) -> F64 {
        unreachable!()
    }
    fn spec_neg(_: F64) -> F64 {
        unreachable!()
    }
    fn spec_inv(_: F64) -> F64 {
        unreachable!()
    }
    fn spec_conj(_: F64) -> F64 {
        unreachable!()
    }
    fn spec_score(_: F64) -> u64 {
        unreachable!()
    }
    fn lemma_zero_absorbs(_: F64) {}
    fn zero() -> F64 {
        F64(0.0)
    }
    fn one() -> F64 {
        F64(1.0)
    }
    fn add(self, o: F64) -> F64 {
        F64(self.0 + o.0)
    }
    fn sub(self, o: F64) -> F64 {
        F64(self.0 - o.0)
    }
    fn mul(self, o: F64) -> F64 {
        F64(self.0 * o.0)
    }
    fn neg(self) -> F64 {
        F64(-self.0)
    }
    fn inv(self) -> F64 {
        F64(1.0 / self.0)
    }
    fn conj(self) -> F64 {
        self
    }
    fn score(self) -> u64 {
        self.0.abs().to_bits()
    }
}

#[derive(Clone, Copy, Debug, PartialEq)]
struct F32(f32);

impl Field for F32 {
    fn spec_zero() -> F32 {
        unreachable!()
    }
    fn spec_one() -> F32 {
        unreachable!()
    }
    fn spec_add(_: F32, _: F32) -> F32 {
        unreachable!()
    }
    fn spec_sub(_: F32, _: F32) -> F32 {
        unreachable!()
    }
    fn spec_mul(_: F32, _: F32) -> F32 {
        unreachable!()
    }
    fn spec_neg(_: F32) -> F32 {
        unreachable!()
    }
    fn spec_inv(_: F32) -> F32 {
        unreachable!()
    }
    fn spec_conj(_: F32) -> F32 {
        unreachable!()
    }
    fn spec_score(_: F32) -> u64 {
        unreachable!()
    }
    fn lemma_zero_absorbs(_: F32) {}
    fn zero() -> F32 {
        F32(0.0)
    }
    fn one() -> F32 {
        F32(1.0)
    }
    fn add(self, o: F32) -> F32 {
        F32(self.0 + o.0)
    }
    fn sub(self, o: F32) -> F32 {
        F32(self.0 - o.0)
    }
    fn mul(self, o: F32) -> F32 {
        F32(self.0 * o.0)
    }
    fn neg(self) -> F32 {
        F32(-self.0)
    }
    fn inv(self) -> F32 {
        F32(1.0 / self.0)
    }
    fn conj(self) -> F32 {
        self
    }
    fn score(self) -> u64 {
        self.0.abs().to_bits() as u64
    }
}

#[derive(Clone, Copy, Debug, PartialEq)]
struct C64 {
    re: f64,
    im: f64,
}

impl Field for C64 {
    fn spec_zero() -> C64 {
        unreachable!()
    }
    fn spec_one() -> C64 {
        unreachable!()
    }
    fn spec_add(_: C64, _: C64) -> C64 {
        unreachable!()
    }
    fn spec_sub(_: C64, _: C64) -> C64 {
        unreachable!()
    }
    fn spec_mul(_: C64, _: C64) -> C64 {
        unreachable!()
    }
    fn spec_neg(_: C64) -> C64 {
        unreachable!()
    }
    fn spec_inv(_: C64) -> C64 {
        unreachable!()
    }
    fn spec_conj(_: C64) -> C64 {
        unreachable!()
    }
    fn spec_score(_: C64) -> u64 {
        unreachable!()
    }
    fn lemma_zero_absorbs(_: C64) {}
    fn zero() -> C64 {
        C64 { re: 0.0, im: 0.0 }
    }
    fn one() -> C64 {
        C64 { re: 1.0, im: 0.0 }
    }
    fn add(self, o: C64) -> C64 {
        C64 { re: self.re + o.re, im: self.im + o.im }
    }
    fn sub(self, o: C64) -> C64 {
        C64 { re: self.re - o.re, im: self.im - o.im }
    }
    fn mul(self, o: C64) -> C64 {
        C64 { re: self.re * o.re - self.im * o.im, im: self.re * o.im + self.im * o.re }
    }
    fn neg(self) -> C64 {
        C64 { re: -self.re, im: -self.im }
    }
    fn inv(self) -> C64 {
        let d = self.re * self.re + self.im * self.im;
        C64 { re: self.re / d, im: -self.im / d }
    }
    fn conj(self) -> C64 {
        C64 { re: self.re, im: -self.im }
    }
    fn score(self) -> u64 {
        (self.re * self.re + self.im * self.im).to_bits()
    }
}

#[derive(Clone, Copy, Debug, PartialEq)]
struct C32 {
    re: f32,
    im: f32,
}

impl Field for C32 {
    fn spec_zero() -> C32 {
        unreachable!()
    }
    fn spec_one() -> C32 {
        unreachable!()
    }
    fn spec_add(_: C32, _: C32) -> C32 {
        unreachable!()
    }
    fn spec_sub(_: C32, _: C32) -> C32 {
        unreachable!()
    }
    fn spec_mul(_: C32, _: C32) -> C32 {
        unreachable!()
    }
    fn spec_neg(_: C32) -> C32 {
        unreachable!()
    }
    fn spec_inv(_: C32) -> C32 {
        unreachable!()
    }
    fn spec_conj(_: C32) -> C32 {
        unreachable!()
    }
    fn spec_score(_: C32) -> u64 {
        unreachable!()
    }
    fn lemma_zero_absorbs(_: C32) {}
    fn zero() -> C32 {
        C32 { re: 0.0, im: 0.0 }
    }
    fn one() -> C32 {
        C32 { re: 1.0, im: 0.0 }
    }
    fn add(self, o: C32) -> C32 {
        C32 { re: self.re + o.re, im: self.im + o.im }
    }
    fn sub(self, o: C32) -> C32 {
        C32 { re: self.re - o.re, im: self.im - o.im }
    }
    fn mul(self, o: C32) -> C32 {
        C32 { re: self.re * o.re - self.im * o.im, im: self.re * o.im + self.im * o.re }
    }
    fn neg(self) -> C32 {
        C32 { re: -self.re, im: -self.im }
    }
    fn inv(self) -> C32 {
        let d = self.re * self.re + self.im * self.im;
        C32 { re: self.re / d, im: -self.im / d }
    }
    fn conj(self) -> C32 {
        C32 { re: self.re, im: -self.im }
    }
    fn score(self) -> u64 {
        ((self.re as f64) * (self.re as f64) + (self.im as f64) * (self.im as f64)).to_bits()
    }
}

trait TestScalar: Field + Copy {
    fn gen(rng: &mut StdRng) -> Self;
    fn diff(a: Self, b: Self) -> f64;
}

impl TestScalar for F64 {
    fn gen(rng: &mut StdRng) -> F64 {
        F64(rng.gen())
    }
    fn diff(a: F64, b: F64) -> f64 {
        (a.0 - b.0).abs()
    }
}

impl TestScalar for F32 {
    fn gen(rng: &mut StdRng) -> F32 {
        F32(rng.gen())
    }
    fn diff(a: F32, b: F32) -> f64 {
        (a.0 - b.0).abs() as f64
    }
}

impl TestScalar for C64 {
    fn gen(rng: &mut StdRng) -> C64 {
        C64 { re: rng.gen(), im: rng.gen() }
    }
    fn diff(a: C64, b: C64) -> f64 {
        let dr = a.re - b.re;
        let di = a.im - b.im;
        (dr * dr + di * di).sqrt()
    }
}

impl TestScalar for C32 {
    fn gen(rng: &mut StdRng) -> C32 {
        C32 { re: rng.gen(), im: rng.gen() }
    }
    fn diff(a: C32, b: C32) -> f64 {
        let dr = (a.re - b.re) as f64;
        let di = (a.im - b.im) as f64;
        (dr * dr + di * di).sqrt()
    }
}

fn rand_mat<T: TestScalar>(rng: &mut StdRng, m: usize, n: usize) -> Mat<T> {
    let mut a = Mat::zeros(m, n);
    for j in 0..n {
        for i in 0..m {
            a.write(i, j, T::gen(rng));
        }
    }
    a
}

/// `dst = Op(A) * X` (or `Op(A)^T * X` when `transpose`), computed naively.
fn apply<T: TestScalar>(a: &Mat<T>, conj: bool, transpose: bool, x: &Mat<T>) -> Mat<T> {
    let n = a.nrows();
    let k = x.ncols();
    let mut out: Mat<T> = Mat::zeros(n, k);
    for j in 0..k {
        for i in 0..n {
            let mut acc = T::zero();
            for t in 0..n {
                let e = if transpose { a.read(t, i) } else { a.read(i, t) };
                let e = if conj { e.conj() } else { e };
                acc = acc.add(e.mul(x.read(t, j)));
            }
            out.write(i, j, acc);
        }
    }
    out
}

fn test_solve_generic<T: TestScalar>(rng: &mut StdRng, epsilon: f64, transpose: bool) {
    // The transposed sweep covers the larger sizes, as a deeper stress of the
    // back-to-front substitution path.
    let top: usize = if transpose { 16 } else { 8 };
    let sizes: Vec<usize> = (0..32).chain((1..top).map(|i| i * 32)).collect();
    for n in sizes {
        for conj_lhs in [Conj::No, Conj::Yes] {
            let a: Mat<T> = rand_mat(rng, n, n);
            let mut lu = a.duplicate();

            let k = 32;
            let rhs: Mat<T> = rand_mat(rng, n, k);
            let mut sol: Mat<T> = Mat::zeros(n, k);

            let mut perm = vec![0usize; n];
            let mut perm_inv = vec![0usize; n];

            let parallelism = Parallelism::Multi(0);

            let (_, row_perm) = lu_in_place(
                &mut lu,
                &mut perm,
                &mut perm_inv,
                parallelism,
                PartialPivLuComputeParams::default(),
            );

            if transpose {
                solve_transpose(&mut sol, &lu, conj_lhs, &row_perm, &rhs, parallelism);
            } else {
                solve(&mut sol, &lu, conj_lhs, &row_perm, &rhs, parallelism);
            }

            // The in-place variant must agree exactly with the out-of-place one.
            let mut sol2 = rhs.duplicate();
            if transpose {
                solve_transpose_in_place(&lu, conj_lhs, &row_perm, &mut sol2, parallelism);
            } else {
                solve_in_place(&lu, conj_lhs, &row_perm, &mut sol2, parallelism);
            }
            for j in 0..k {
                for i in 0..n {
                    assert!(T::diff(sol.read(i, j), sol2.read(i, j)) == 0.0);
                }
            }

            let reconstructed = apply(&a, conj_lhs == Conj::Yes, transpose, &sol);
            for j in 0..k {
                for i in 0..n {
                    let d = T::diff(reconstructed.read(i, j), rhs.read(i, j));
                    assert!(d < epsilon, "n = {n}, entry ({i},{j}) off by {d}");
                }
            }
        }
    }
}

#[test]
fn test_solve_f64() {
    let rng = &mut StdRng::seed_from_u64(0);
    test_solve_generic::<F64>(rng, 1e-6, false);
    test_solve_generic::<F64>(rng, 1e-6, true);
}

#[test]
fn test_solve_f32() {
    let rng = &mut StdRng::seed_from_u64(0);
    test_solve_generic::<F32>(rng, 1e-1, false);
    test_solve_generic::<F32>(rng, 1e-1, true);
}

#[test]
fn test_solve_c64() {
    let rng = &mut StdRng::seed_from_u64(0);
    test_solve_generic::<C64>(rng, 1e-6, false);
    test_solve_generic::<C64>(rng, 1e-6, true);
}

#[test]
fn test_solve_c32() {
    let rng = &mut StdRng::seed_from_u64(0);
    test_solve_generic::<C32>(rng, 1e-1, false);
    test_solve_generic::<C32>(rng, 1e-1, true);
}

#[test]
fn partial_solve_req_formulas() {
    assert_eq!(solve_req(5, 5, 3, Parallelism::Sequential), Ok(15));
    assert_eq!(solve_in_place_req(5, 5, 3, Parallelism::Sequential), Ok(15));
    assert_eq!(solve_transpose_req(5, 5, 3, Parallelism::Sequential), Ok(15));
    assert_eq!(solve_transpose_in_place_req(5, 5, 3, Parallelism::Sequential), Ok(15));
    assert!(solve_req(usize::MAX, usize::MAX, 3, Parallelism::Sequential).is_err());
}
