use vstd::arithmetic::div_mod::lemma_add_mod_noop_right;
use vstd::arithmetic::div_mod::lemma_mul_mod_noop_general;
use vstd::arithmetic::div_mod::lemma_mul_mod_noop_right;
use vstd::arithmetic::div_mod::lemma_small_mod;
use vstd::arithmetic::power2::pow2;
use vstd::prelude::*;

use crate::assignment::frs_valid;
use crate::err::SynthesisError;
use crate::fr::Fr;
use crate::fr::fr_add;
use crate::fr::fr_from_u64;
use crate::fr::fr_inverse;
use crate::fr::fr_mul;
use crate::fr::fr_nat;
use crate::fr::fr_one;
use crate::fr::fr_pow;
use crate::fr::fr_sub;
use crate::fr::fr_valid;
use crate::fr::fr_zero;
use crate::fr::limbs_nat;
use crate::fr::pow_mod;
use crate::fr::r_modulus;

verus! {

/// The odd cofactor of the scalar field's order: `r_modulus() - 1` divided
/// by the two-adicity `2^32`.
pub open spec fn t_cofactor() -> nat {
    0x73eda753299d7d483339d80809a1d80553bda402fffe5bfeffffffffnat
}

/// Squaring iterated `n` times, reduced at each step.
pub open spec fn sq_iter(x: nat, n: nat) -> nat
    decreases n,
{
    if n == 0 {
        x
    } else {
        sq_iter((x * x) % r_modulus(), (n - 1) as nat)
    }
}

/// The canonical primitive `2^k`-th root of unity of the scalar field: the
/// `2^32`-th root, obtained from the multiplicative generator 7 raised to
/// the odd cofactor, squared down to order `2^k`.
pub open spec fn omega_nat(k: nat) -> nat {
    sq_iter(pow_mod(7, t_cofactor()) % r_modulus(), (32 - k) as nat)
}

/// The points of a transform: powers of a step from a start, reduced at
/// each step.
pub open spec fn geom(start: nat, step: nat, i: nat) -> nat
    decreases i,
{
    if i == 0 {
        start % r_modulus()
    } else {
        (geom(start, step, (i - 1) as nat) * step) % r_modulus()
    }
}

/// Polynomial evaluation by Horner's rule, reduced at each step.
pub open spec fn eval_poly(s: Seq<Fr>, x: nat) -> nat
    decreases s.len(),
{
    if s.len() == 0 {
        0
    } else {
        (fr_nat(s[0]) + x * eval_poly(s.subrange(1, s.len() as int), x)) % r_modulus()
    }
}

/// The constant value of the vanishing polynomial `Z(x) = x^m - 1` on the
/// coset `{7 w^i}`: `7^m - 1`, since `w^m = 1`.
pub open spec fn coset_z_nat(k: nat) -> nat {
    (((pow_mod(7, pow2(k)) % r_modulus()) + r_modulus() - 1) as nat) % r_modulus()
}

/// The exponent of the smallest power of two at least as large as `n`,
/// within the supported two-adicity.
pub open spec fn fit_exp(n: nat) -> nat {
    choose|k: nat|
        (#[trigger] pow2(k)) >= n && k <= 31 && (k == 0 || pow2((k - 1) as nat) < n)
}

/// The domain exponent is unique, so any witness is it.
pub proof fn lemma_fit_exp_is(n: nat, k: nat)
    requires
        k <= 31,
        pow2(k) >= n,
        k == 0 || pow2((k - 1) as nat) < n,
    ensures
        fit_exp(n) == k,
{
    assert(exists|j: nat|
        (#[trigger] pow2(j)) >= n && j <= 31 && (j == 0 || pow2((j - 1) as nat) < n)) by {
        assert(pow2(k) >= n && k <= 31 && (k == 0 || pow2((k - 1) as nat) < n));
    }
    let j = fit_exp(n);
    assert(pow2(j) >= n && j <= 31 && (j == 0 || pow2((j - 1) as nat) < n));
    if j < k {
        assert(j <= k - 1);
        if j < k - 1 {
            vstd::arithmetic::power2::lemma_pow2_strictly_increases(j, (k - 1) as nat);
        }
        assert(pow2(j) <= pow2((k - 1) as nat));
        assert(false);
    }
    if k < j {
        if k < j - 1 {
            vstd::arithmetic::power2::lemma_pow2_strictly_increases(k, (j - 1) as nat);
        }
        assert(pow2(k) <= pow2((j - 1) as nat));
        assert(false);
    }
}

/// A little-endian limb sequence of length four encodes the usual sum.
proof fn lemma_limbs_nat4(s: Seq<u64>)
    requires
        s.len() == 4,
    ensures
        limbs_nat(s) == s[0] + s[1] * 0x10000000000000000 + s[2]
            * 0x100000000000000000000000000000000nat + s[3]
            * 0x1000000000000000000000000000000000000000000000000nat,
{
    let s1 = s.subrange(1, 4);
    let s2 = s1.subrange(1, 3);
    let s3 = s2.subrange(1, 2);
    let s4 = s3.subrange(1, 1);
    assert(s1[0] == s[1] && s2[0] == s[2] && s3[0] == s[3]);
    assert(s4.len() == 0);
    assert(limbs_nat(s3) == s[3] + limbs_nat(s4) * 0x10000000000000000);
    assert(limbs_nat(s2) == s[2] + limbs_nat(s3) * 0x10000000000000000);
    assert(limbs_nat(s1) == s[1] + limbs_nat(s2) * 0x10000000000000000);
    assert(limbs_nat(s) == s[0] + limbs_nat(s1) * 0x10000000000000000);
}

/// One more squaring extends the iteration.
proof fn lemma_sq_iter_step(x: nat, n: nat)
    ensures
        sq_iter(x, n + 1) == (sq_iter(x, n) * sq_iter(x, n)) % r_modulus(),
    decreases n,
{
    if n == 0 {
        assert(sq_iter(x, 1) == sq_iter((x * x) % r_modulus(), 0));
    } else {
        lemma_sq_iter_step((x * x) % r_modulus(), (n - 1) as nat);
        assert(sq_iter(x, n + 1) == sq_iter((x * x) % r_modulus(), n));
        assert(sq_iter(x, n) == sq_iter((x * x) % r_modulus(), (n - 1) as nat));
    }
}

/// Evaluate a polynomial at one point by Horner's rule.
fn horner(coeffs: &Vec<Fr>, x: &Fr) -> (r: Fr)
    requires
        frs_valid(coeffs@),
        fr_valid(*x),
    ensures
        fr_valid(r),
        fr_nat(r) == eval_poly(coeffs@, fr_nat(*x)),
{
    let mut acc = fr_zero();
    let mut j: usize = coeffs.len();
    while j > 0
        invariant
            j <= coeffs@.len(),
            frs_valid(coeffs@),
            fr_valid(*x),
            fr_valid(acc),
            fr_nat(acc) == eval_poly(coeffs@.subrange(j as int, coeffs@.len() as int), fr_nat(*x)),
        decreases j,
    {
        j -= 1;
        let t = fr_mul(x, &acc);
        proof {
            let tail = coeffs@.subrange(j as int, coeffs@.len() as int);
            assert(tail.subrange(1, tail.len() as int) =~= coeffs@.subrange(
                j + 1,
                coeffs@.len() as int,
            ));
            assert(tail[0] == coeffs@[j as int]);
            lemma_add_mod_noop_right(
                fr_nat(coeffs@[j as int]) as int,
                (fr_nat(*x) * eval_poly(
                    coeffs@.subrange(j + 1, coeffs@.len() as int),
                    fr_nat(*x),
                )) as int,
                r_modulus() as int,
            );
        }
        acc = fr_add(&coeffs[j], &t);
    }
    proof {
        assert(coeffs@.subrange(0, coeffs@.len() as int) =~= coeffs@);
    }
    acc
}

/// Evaluate a polynomial at the points `start * step^i`.
fn eval_at_points(coeffs: &Vec<Fr>, start: &Fr, step: &Fr) -> (r: Vec<Fr>)
    requires
        frs_valid(coeffs@),
        fr_valid(*start),
        fr_valid(*step),
    ensures
        r@.len() == coeffs@.len(),
        frs_valid(r@),
        forall|i: int|
            0 <= i < r@.len() ==> fr_nat(r@[i]) == eval_poly(
                coeffs@,
                geom(fr_nat(*start), fr_nat(*step), i as nat),
            ),
{
    let mut out: Vec<Fr> = Vec::new();
    let mut x = *start;
    proof {
        lemma_small_mod(fr_nat(*start), r_modulus());
    }
    let mut i: usize = 0;
    while i < coeffs.len()
        invariant
            i <= coeffs@.len(),
            out@.len() == i,
            frs_valid(coeffs@),
            fr_valid(*start),
            fr_valid(*step),
            fr_valid(x),
            fr_nat(x) == geom(fr_nat(*start), fr_nat(*step), i as nat),
            frs_valid(out@),
            forall|k: int|
                0 <= k < i ==> fr_nat(out@[k]) == eval_poly(
                    coeffs@,
                    geom(fr_nat(*start), fr_nat(*step), k as nat),
                ),
        decreases coeffs@.len() - i,
    {
        let y = horner(coeffs, &x);
        out.push(y);
        x = fr_mul(&x, step);
        i += 1;
    }
    out
}

/// Multiply every coefficient by one scalar.
fn scale_all(v: &mut Vec<Fr>, s: &Fr)
    requires
        frs_valid(old(v)@),
        fr_valid(*s),
    ensures
        final(v)@.len() == old(v)@.len(),
        frs_valid(final(v)@),
        forall|i: int|
            0 <= i < old(v)@.len() ==> fr_nat(final(v)@[i]) == (fr_nat(old(v)@[i]) * fr_nat(*s))
                % r_modulus(),
{
    let mut i: usize = 0;
    while i < v.len()
        invariant
            i <= v@.len(),
            v@.len() == old(v)@.len(),
            frs_valid(v@),
            fr_valid(*s),
            forall|k: int| i <= k < v@.len() ==> v@[k] == old(v)@[k],
            forall|k: int|
                0 <= k < i ==> fr_nat(v@[k]) == (fr_nat(old(v)@[k]) * fr_nat(*s)) % r_modulus(),
        decreases v@.len() - i,
    {
        let t = fr_mul(&v[i], s);
        v.set(i, t);
        i += 1;
    }
}

/// A vector of scalar coefficients padded to a power-of-two length, with
/// the primitive root of that order and the inverses the transforms need.
#[derive(Debug)]
pub struct EvaluationDomain {
    pub coeffs: Vec<Fr>,
    pub exp: u32,
    pub omega: Fr,
    pub omegainv: Fr,
    pub minv: Fr,
    pub geninv: Fr,
}

impl EvaluationDomain {
    /// Well-formedness: the coefficients fill a power of two of supported
    /// two-adicity, `omega` is the canonical root of that order, and the
    /// stored inverses invert the root, the size and the coset generator.
    pub open spec fn wf(self) -> bool {
        frs_valid(self.coeffs@) && self.exp <= 31 && self.coeffs@.len() == pow2(self.exp as nat)
            && fr_valid(self.omega) && fr_nat(self.omega) == omega_nat(self.exp as nat) && fr_valid(
            self.omegainv,
        ) && (fr_nat(self.omega) * fr_nat(self.omegainv)) % r_modulus() == 1 && fr_valid(self.minv)
            && (pow2(self.exp as nat) * fr_nat(self.minv)) % r_modulus() == 1 && fr_valid(
            self.geninv,
        ) && (7 * fr_nat(self.geninv)) % r_modulus() == 1
    }

    /// The transform sizing, root and inverses are untouched.
    pub open spec fn same_shape(self, other: EvaluationDomain) -> bool {
        self.exp == other.exp && self.omega == other.omega && self.omegainv == other.omegainv
            && self.minv == other.minv && self.geninv == other.geninv
    }

    /// Build the evaluation domain over the smallest power of two at least
    /// as large as the number of coefficients, padding with zeros. Fails
    /// with `PolynomialDegreeTooLarge` exactly when more than `2^31`
    /// coefficients arrive: the transform sizing stops one step below the
    /// field's two-adicity of 32.
    pub fn from_coeffs(coeffs: Vec<Fr>) -> (r: Result<EvaluationDomain, SynthesisError>)
        requires
            frs_valid(coeffs@),
            coeffs@.len() >= 1,
        ensures
            (r is Err && r->Err_0 == SynthesisError::PolynomialDegreeTooLarge) <==> coeffs@.len()
                > 0x80000000,
            r is Err ==> r->Err_0 == SynthesisError::PolynomialDegreeTooLarge || r->Err_0
                == SynthesisError::DivisionByZero,
            (r is Err && r->Err_0 == SynthesisError::DivisionByZero) ==> omega_nat(
                fit_exp(coeffs@.len() as nat),
            ) == 0,
            r is Ok ==> ({
                let d = r->Ok_0;
                d.wf() && pow2(d.exp as nat) >= coeffs@.len() && (d.exp == 0 || pow2(
                    (d.exp - 1) as nat,
                ) < coeffs@.len()) && d.coeffs@.subrange(0, coeffs@.len() as int) == coeffs@ && (
                forall|i: int|
                    coeffs@.len() <= i < d.coeffs@.len() ==> fr_nat(#[trigger] d.coeffs@[i]) == 0)
            }),
    {
        let mut cs = coeffs;
        let n = cs.len();
        let mut m: u64 = 1;
        let mut exp: u32 = 0;
        proof {
            vstd::arithmetic::power2::lemma2_to64();
        }
        while m < n as u64
            invariant
                m == pow2(exp as nat),
                exp <= 31,
                m <= 0x80000000,
                exp == 0 || pow2((exp - 1) as nat) < n,
                n == cs@.len(),
                cs@ == coeffs@,
            decreases 2 * (n as int) - m,
        {
            proof {
                vstd::arithmetic::power2::lemma2_to64();
                assert(pow2(31) == 0x80000000nat);
                vstd::arithmetic::power2::lemma_pow2_unfold((exp + 1) as nat);
                if exp + 1 < 31 {
                    vstd::arithmetic::power2::lemma_pow2_strictly_increases((exp + 1) as nat, 31);
                }
            }
            if exp >= 31 {
                proof {
                    assert(exp == 31);
                    assert(m == pow2(31));
                    assert(m == 0x80000000);
                    assert(n as u64 > 0x80000000);
                    assert(coeffs@.len() > 0x80000000);
                }
                return Err(SynthesisError::PolynomialDegreeTooLarge);
            }
            m = m * 2;
            exp += 1;
        }
        proof {
            vstd::arithmetic::power2::lemma2_to64();
            assert(pow2(31) == 0x80000000nat);
        }
        let zero = fr_zero();
        let ghost orig = cs@;
        while cs.len() < m as usize
            invariant
                cs@.len() >= n,
                n == coeffs@.len(),
                orig == coeffs@,
                cs@.subrange(0, n as int) == orig,
                frs_valid(cs@),
                forall|i: int| n <= i < cs@.len() ==> fr_nat(#[trigger] cs@[i]) == 0,
                fr_valid(zero),
                fr_nat(zero) == 0,
                cs@.len() <= m,
            decreases m as usize - cs@.len(),
        {
            let ghost pre = cs@;
            cs.push(zero);
            proof {
                assert(cs@.subrange(0, n as int) =~= pre.subrange(0, n as int));
            }
        }
        let seven = fr_from_u64(7);
        let mut t_limbs: Vec<u64> = Vec::new();
        t_limbs.push(0xfffe5bfeffffffff);
        t_limbs.push(0x09a1d80553bda402);
        t_limbs.push(0x299d7d483339d808);
        t_limbs.push(0x73eda753);
        proof {
            lemma_limbs_nat4(t_limbs@);
            assert(limbs_nat(t_limbs@) == t_cofactor());
        }
        let mut omega = fr_pow(&seven, &t_limbs);
        let ghost w32 = pow_mod(7, t_cofactor()) % r_modulus();
        let mut j: u32 = 0;
        while j < 32 - exp
            invariant
                j <= 32 - exp,
                exp <= 31,
                fr_valid(omega),
                fr_nat(omega) == sq_iter(w32, j as nat),
            decreases 32 - exp - j,
        {
            proof {
                lemma_sq_iter_step(w32, j as nat);
            }
            omega = fr_mul(&omega, &omega);
            j += 1;
        }
        proof {
            assert(fr_nat(omega) == omega_nat(exp as nat));
        }
        let omegainv = match fr_inverse(&omega) {
            None => {
                proof {
                    lemma_fit_exp_is(coeffs@.len() as nat, exp as nat);
                }
                return Err(SynthesisError::DivisionByZero);
            },
            Some(x) => x,
        };
        let m_fr = fr_from_u64(m);
        proof {
            vstd::arithmetic::power2::lemma_pow2_pos(exp as nat);
        }
        let minv = match fr_inverse(&m_fr) {
            None => {
                proof {
                    assert(false);
                }
                return Err(SynthesisError::DivisionByZero);
            },
            Some(x) => x,
        };
        let geninv = match fr_inverse(&seven) {
            None => {
                proof {
                    assert(false);
                }
                return Err(SynthesisError::DivisionByZero);
            },
            Some(x) => x,
        };
        Ok(EvaluationDomain { coeffs: cs, exp, omega, omegainv, minv, geninv })
    }

    /// Evaluate the coefficients at the powers of `omega`.
    pub fn fft(&mut self)
        requires
            old(self).wf(),
        ensures
            final(self).wf(),
            final(self).same_shape(*old(self)),
            final(self).coeffs@.len() == old(self).coeffs@.len(),
            forall|i: int|
                0 <= i < final(self).coeffs@.len() ==> fr_nat(final(self).coeffs@[i]) == eval_poly(
                    old(self).coeffs@,
                    geom(1, omega_nat(old(self).exp as nat), i as nat),
                ),
    {
        let one = fr_one();
        let vals = eval_at_points(&self.coeffs, &one, &self.omega);
        self.coeffs = vals;
    }

    /// Interpolate: evaluate at the powers of the inverse root and scale by
    /// the inverse of the domain size.
    pub fn ifft(&mut self)
        requires
            old(self).wf(),
        ensures
            final(self).wf(),
            final(self).same_shape(*old(self)),
            final(self).coeffs@.len() == old(self).coeffs@.len(),
            forall|j: int|
                0 <= j < final(self).coeffs@.len() ==> fr_nat(final(self).coeffs@[j]) == (eval_poly(
                    old(self).coeffs@,
                    geom(1, fr_nat(old(self).omegainv), j as nat),
                ) * fr_nat(old(self).minv)) % r_modulus(),
    {
        let one = fr_one();
        let vals = eval_at_points(&self.coeffs, &one, &self.omegainv);
        self.coeffs = vals;
        let minv = self.minv;
        scale_all(&mut self.coeffs, &minv);
    }

    /// Evaluate the coefficients at the coset points `7 * omega^i`.
    pub fn coset_fft(&mut self)
        requires
            old(self).wf(),
        ensures
            final(self).wf(),
            final(self).same_shape(*old(self)),
            final(self).coeffs@.len() == old(self).coeffs@.len(),
            forall|i: int|
                0 <= i < final(self).coeffs@.len() ==> fr_nat(final(self).coeffs@[i]) == eval_poly(
                    old(self).coeffs@,
                    geom(7, omega_nat(old(self).exp as nat), i as nat),
                ),
    {
        let seven = fr_from_u64(7);
        let vals = eval_at_points(&self.coeffs, &seven, &self.omega);
        self.coeffs = vals;
    }

    /// Interpolate from coset values: interpolate over the plain domain,
    /// then divide the degree-`j` coefficient by the `j`-th power of the
    /// coset generator.
    pub fn icoset_fft(&mut self)
        requires
            old(self).wf(),
        ensures
            final(self).wf(),
            final(self).same_shape(*old(self)),
            final(self).coeffs@.len() == old(self).coeffs@.len(),
            forall|j: int|
                0 <= j < final(self).coeffs@.len() ==> fr_nat(final(self).coeffs@[j]) == ((
                eval_poly(old(self).coeffs@, geom(1, fr_nat(old(self).omegainv), j as nat))
                    * fr_nat(old(self).minv)) % r_modulus() * geom(
                    1,
                    fr_nat(old(self).geninv),
                    j as nat,
                )) % r_modulus(),
    {
        self.ifft();
        let ginv = self.geninv;
        let mut g = fr_one();
        proof {
            lemma_small_mod(1nat, r_modulus());
        }
        let ghost mid = self.coeffs@;
        let mut j: usize = 0;
        while j < self.coeffs.len()
            invariant
                j <= self.coeffs@.len(),
                self.coeffs@.len() == mid.len(),
                mid.len() == old(self).coeffs@.len(),
                self.exp == old(self).exp,
                self.omega == old(self).omega,
                self.omegainv == old(self).omegainv,
                self.minv == old(self).minv,
                self.geninv == old(self).geninv,
                self.coeffs@.len() == pow2(self.exp as nat),
                ginv == old(self).geninv,
                frs_valid(self.coeffs@),
                frs_valid(mid),
                fr_valid(g),
                fr_valid(ginv),
                fr_nat(g) == geom(1, fr_nat(ginv), j as nat),
                forall|k: int| j <= k < mid.len() ==> self.coeffs@[k] == mid[k],
                forall|k: int|
                    0 <= k < j ==> fr_nat(self.coeffs@[k]) == (fr_nat(mid[k]) * geom(
                        1,
                        fr_nat(ginv),
                        k as nat,
                    )) % r_modulus(),
            decreases self.coeffs@.len() - j,
        {
            let t = fr_mul(&self.coeffs[j], &g);
            self.coeffs.set(j, t);
            g = fr_mul(&g, &ginv);
            j += 1;
        }
    }

    /// Multiply elementwise by another domain's coefficients.
    pub fn mul_assign(&mut self, other: &EvaluationDomain)
        requires
            old(self).wf(),
            other.wf(),
            old(self).coeffs@.len() == other.coeffs@.len(),
        ensures
            final(self).wf(),
            final(self).same_shape(*old(self)),
            final(self).coeffs@.len() == old(self).coeffs@.len(),
            forall|i: int|
                0 <= i < final(self).coeffs@.len() ==> fr_nat(final(self).coeffs@[i]) == (fr_nat(
                    old(self).coeffs@[i],
                ) * fr_nat(other.coeffs@[i])) % r_modulus(),
    {
        let mut i: usize = 0;
        while i < self.coeffs.len()
            invariant
                i <= self.coeffs@.len(),
                self.coeffs@.len() == old(self).coeffs@.len(),
                self.coeffs@.len() == other.coeffs@.len(),
                frs_valid(self.coeffs@),
                frs_valid(other.coeffs@),
                self.exp == old(self).exp,
                self.omega == old(self).omega,
                self.omegainv == old(self).omegainv,
                self.minv == old(self).minv,
                self.geninv == old(self).geninv,
                forall|k: int| i <= k < self.coeffs@.len() ==> self.coeffs@[k] == old(self).coeffs@[k],
                forall|k: int|
                    0 <= k < i ==> fr_nat(self.coeffs@[k]) == (fr_nat(old(self).coeffs@[k]) * fr_nat(
                        other.coeffs@[k],
                    )) % r_modulus(),
            decreases self.coeffs@.len() - i,
        {
            let t = fr_mul(&self.coeffs[i], &other.coeffs[i]);
            self.coeffs.set(i, t);
            i += 1;
        }
    }

    /// Subtract elementwise another domain's coefficients.
    pub fn sub_assign(&mut self, other: &EvaluationDomain)
        requires
            old(self).wf(),
            other.wf(),
            old(self).coeffs@.len() == other.coeffs@.len(),
        ensures
            final(self).wf(),
            final(self).same_shape(*old(self)),
            final(self).coeffs@.len() == old(self).coeffs@.len(),
            forall|i: int|
                0 <= i < final(self).coeffs@.len() ==> fr_nat(final(self).coeffs@[i]) == ((fr_nat(
                    old(self).coeffs@[i],
                ) + r_modulus() - fr_nat(other.coeffs@[i])) as nat) % r_modulus(),
    {
        let mut i: usize = 0;
        while i < self.coeffs.len()
            invariant
                i <= self.coeffs@.len(),
                self.coeffs@.len() == old(self).coeffs@.len(),
                self.coeffs@.len() == other.coeffs@.len(),
                frs_valid(self.coeffs@),
                frs_valid(other.coeffs@),
                self.exp == old(self).exp,
                self.omega == old(self).omega,
                self.omegainv == old(self).omegainv,
                self.minv == old(self).minv,
                self.geninv == old(self).geninv,
                forall|k: int| i <= k < self.coeffs@.len() ==> self.coeffs@[k] == old(self).coeffs@[k],
                forall|k: int|
                    0 <= k < i ==> fr_nat(self.coeffs@[k]) == ((fr_nat(old(self).coeffs@[k])
                        + r_modulus() - fr_nat(other.coeffs@[k])) as nat) % r_modulus(),
            decreases self.coeffs@.len() - i,
        {
            let t = fr_sub(&self.coeffs[i], &other.coeffs[i]);
            self.coeffs.set(i, t);
            i += 1;
        }
    }

    /// Divide every coefficient by the constant value of the vanishing
    /// polynomial on the coset, `7^m - 1`. Fails exactly when that value is
    /// zero, which never happens over the scalar field.
    pub fn divide_by_z_on_coset(&mut self) -> (r: Result<(), SynthesisError>)
        requires
            old(self).wf(),
        ensures
            final(self).wf(),
            final(self).same_shape(*old(self)),
            final(self).coeffs@.len() == old(self).coeffs@.len(),
            (r is Err) == (coset_z_nat(old(self).exp as nat) == 0),
            r is Err ==> r->Err_0 == SynthesisError::DivisionByZero && final(self).coeffs@ == old(
                self,
            ).coeffs@,
            r is Ok ==> forall|i: int|
                0 <= i < final(self).coeffs@.len() ==> (fr_nat(final(self).coeffs@[i]) * coset_z_nat(
                    old(self).exp as nat,
                )) % r_modulus() == fr_nat(old(self).coeffs@[i]),
            r is Ok ==> forall|i: int|
                0 <= i < final(self).coeffs@.len() ==> fr_nat(final(self).coeffs@[i]) == (fr_nat(
                    old(self).coeffs@[i],
                ) * crate::fr::inv_mod(coset_z_nat(old(self).exp as nat))) % r_modulus(),
    {
        let seven = fr_from_u64(7);
        let shifted: u64 = 1u64 << self.exp;
        proof {
            vstd::arithmetic::power2::lemma2_to64();
            assert(pow2(31) == 0x80000000nat);
            vstd::arithmetic::power2::lemma_pow2_pos(self.exp as nat);
            if self.exp < 31 {
                vstd::arithmetic::power2::lemma_pow2_strictly_increases(self.exp as nat, 31);
            }
            vstd::bits::lemma_u64_shl_is_mul(1u64, self.exp as u64);
        }
        let mut m_limbs: Vec<u64> = Vec::new();
        m_limbs.push(shifted);
        m_limbs.push(0);
        m_limbs.push(0);
        m_limbs.push(0);
        proof {
            lemma_limbs_nat4(m_limbs@);
        }
        let z = fr_pow(&seven, &m_limbs);
        let one = fr_one();
        let t = fr_sub(&z, &one);
        proof {
            assert(fr_nat(t) == coset_z_nat(self.exp as nat));
        }
        match fr_inverse(&t) {
            None => Err(SynthesisError::DivisionByZero),
            Some(zinv) => {
                let ghost zn = coset_z_nat(self.exp as nat);
                let ghost zin = fr_nat(zinv);
                proof {
                    crate::fr::lemma_inv_mod_is(zn, zin);
                }
                scale_all(&mut self.coeffs, &zinv);
                proof {
                    assert forall|i: int| 0 <= i < self.coeffs@.len() implies (fr_nat(
                        self.coeffs@[i],
                    ) * zn) % r_modulus() == fr_nat(old(self).coeffs@[i]) by {
                        lemma_mul_inverse_cancels(fr_nat(old(self).coeffs@[i]), zn, zin);
                    }
                }
                Ok(())
            },
        }
    }
}

/// Multiplying by a value and then by its inverse, reducing at each step,
/// gives the value back.
proof fn lemma_mul_inverse_cancels(a: nat, z: nat, zi: nat)
    requires
        a < r_modulus(),
        (z * zi) % r_modulus() == 1,
    ensures
        ((a * zi) % r_modulus() * z) % r_modulus() == a,
{
    let m = r_modulus() as int;
    lemma_mul_mod_noop_general(a as int * zi as int, z as int, m);
    assert((a * zi) * z == a * (zi * z)) by (nonlinear_arith);
    lemma_mul_mod_noop_right(a as int, (zi * z) as int, m);
    assert(zi * z == z * zi) by (nonlinear_arith);
    lemma_small_mod(a, r_modulus());
}

} // verus!
