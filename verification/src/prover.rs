use vstd::arithmetic::div_mod::lemma_small_mod;
use vstd::arithmetic::power2::pow2;
use vstd::prelude::*;

use crate::assignment::AssignmentView;
use crate::assignment::Index;
use crate::assignment::LinearCombination;
use crate::assignment::ProvingAssignment;
use crate::assignment::Variable;
use crate::assignment::eval_lc_nat;
use crate::assignment::frs_valid;
use crate::domain::EvaluationDomain;
use crate::domain::coset_z_nat;
use crate::domain::eval_poly;
use crate::domain::fit_exp;
use crate::domain::geom;
use crate::domain::lemma_fit_exp_is;
use crate::domain::omega_nat;
use crate::err::SynthesisError;
use crate::fr::Fr;
use crate::fr::fr_mul;
use crate::fr::fr_nat;
use crate::fr::fr_of_nat;
use crate::fr::fr_one;
use crate::fr::fr_valid;
use crate::fr::inv_mod;
use crate::fr::lemma_fr_of_nat_roundtrip;
use crate::fr::lemma_frs_match;
use crate::fr::lemma_inv_mod_is;
use crate::fr::r_modulus;
use crate::multiexp::density_filter_g1;
use crate::multiexp::density_filter_g2;
use crate::multiexp::filter_seq;
use crate::multiexp::g1_views;
use crate::multiexp::g2_views;
use crate::multiexp::msm_g1;
use crate::multiexp::msm_g2;
use crate::multiexp::multiexp_fulldensity_g1;
use crate::multiexp::multiexp_fulldensity_g2;
use crate::point::PointG1;
use crate::point::PointG2;
use crate::point::g1_add;
use crate::point::g1_add_of;
use crate::point::g1_ident;
use crate::point::g1_mul;
use crate::point::g1_mul_of;
use crate::point::g2_add;
use crate::point::g2_add_of;
use crate::point::g2_ident;
use crate::point::g2_mul;
use crate::point::g2_mul_of;

verus! {

/// A user circuit: it synthesizes its constraints and witness into a
/// proving assignment through the assignment's methods.
pub trait Circuit {
    /// Push the circuit's variables and constraints into `cs`.
    fn synthesize(&self, cs: &mut ProvingAssignment) -> (r: Result<(), SynthesisError>)
        requires
            old(cs).wf(),
        ensures
            final(cs).wf(),
    ;
}

/// The proving parameters of a fixed circuit shape: the verifying key and
/// the precomputed base slices each query multiplies against.
pub trait ParameterSource {
    /// The verifying key for the given number of inputs.
    fn get_vk(&mut self, input_len: usize) -> Result<VerifyingKey, SynthesisError>;

    /// The bases of the H query.
    fn get_h(&mut self, n: usize) -> Result<Vec<PointG1>, SynthesisError>;

    /// The bases of the L query, over the auxiliary variables.
    fn get_l(&mut self, n: usize) -> Result<Vec<PointG1>, SynthesisError>;

    /// The bases of the A query: one slice for the inputs, one for the
    /// auxiliary variables.
    fn get_a(&mut self, num_inputs: usize, n: usize) -> Result<
        (Vec<PointG1>, Vec<PointG1>),
        SynthesisError,
    >;

    /// The G1 bases of the B query.
    fn get_b_g1(&mut self, num_inputs: usize, n: usize) -> Result<
        (Vec<PointG1>, Vec<PointG1>),
        SynthesisError,
    >;

    /// The G2 bases of the B query.
    fn get_b_g2(&mut self, num_inputs: usize, n: usize) -> Result<
        (Vec<PointG2>, Vec<PointG2>),
        SynthesisError,
    >;
}

/// The verifying-key elements the prover consumes.
#[derive(Debug)]
pub struct VerifyingKey {
    pub alpha_g1: PointG1,
    pub beta_g1: PointG1,
    pub beta_g2: PointG2,
    pub delta_g1: PointG1,
    pub delta_g2: PointG2,
}

/// A Groth16 proof: two G1 elements and one G2 element.
#[derive(Debug)]
pub struct Proof {
    pub a: PointG1,
    pub b: PointG2,
    pub c: PointG1,
}

/// `g_a = r * delta_1 + alpha_1 + (a_inputs + a_aux)`, in the order the
/// assembly performs the group operations.
pub open spec fn proof_a_spec(
    delta1: Seq<u8>,
    alpha1: Seq<u8>,
    r: Fr,
    a_in: Seq<u8>,
    a_aux: Seq<u8>,
) -> Seq<u8> {
    g1_add_of(
        g1_add_of(g1_mul_of(delta1, crate::fr::fr_limbs(r)), alpha1),
        g1_add_of(a_in, a_aux),
    )
}

/// `g_b = s * delta_2 + beta_2 + (b_g2_inputs + b_g2_aux)`.
pub open spec fn proof_b_spec(
    delta2: Seq<u8>,
    beta2: Seq<u8>,
    s: Fr,
    b2_in: Seq<u8>,
    b2_aux: Seq<u8>,
) -> Seq<u8> {
    g2_add_of(
        g2_add_of(g2_mul_of(delta2, crate::fr::fr_limbs(s)), beta2),
        g2_add_of(b2_in, b2_aux),
    )
}

/// `g_c = rs * delta_1 + s * alpha_1 + r * beta_1 + s * (a_inputs + a_aux)
/// + r * (b_g1_inputs + b_g1_aux) + h + l`, in assembly order.
pub open spec fn proof_c_spec(
    delta1: Seq<u8>,
    alpha1: Seq<u8>,
    beta1: Seq<u8>,
    r: Fr,
    s: Fr,
    a_in: Seq<u8>,
    a_aux: Seq<u8>,
    b1_in: Seq<u8>,
    b1_aux: Seq<u8>,
    h: Seq<u8>,
    l: Seq<u8>,
) -> Seq<u8> {
    let rs = fr_of_nat((fr_nat(r) * fr_nat(s)) % r_modulus());
    g1_add_of(
        g1_add_of(
            g1_add_of(
                g1_add_of(
                    g1_add_of(
                        g1_add_of(
                            g1_mul_of(delta1, crate::fr::fr_limbs(rs)),
                            g1_mul_of(alpha1, crate::fr::fr_limbs(s)),
                        ),
                        g1_mul_of(beta1, crate::fr::fr_limbs(r)),
                    ),
                    g1_mul_of(g1_add_of(a_in, a_aux), crate::fr::fr_limbs(s)),
                ),
                g1_mul_of(g1_add_of(b1_in, b1_aux), crate::fr::fr_limbs(r)),
            ),
            h,
        ),
        l,
    )
}

/// Combine the verifying key, the per-proof randomness and the collected
/// multi-scalar sums into the three proof elements. Fails exactly when one
/// of the delta elements is the group identity, the mark of a
/// subversion-resistant check.
pub fn assemble_proof(
    vk: &VerifyingKey,
    r: &Fr,
    s: &Fr,
    h: &PointG1,
    l: &PointG1,
    a_inputs: &PointG1,
    a_aux: &PointG1,
    b_g1_inputs: &PointG1,
    b_g1_aux: &PointG1,
    b_g2_inputs: &PointG2,
    b_g2_aux: &PointG2,
) -> (out: Result<Proof, SynthesisError>)
    requires
        fr_valid(*r),
        fr_valid(*s),
    ensures
        (out is Err) == (vk.delta_g1@ == g1_ident() || vk.delta_g2@ == g2_ident()),
        out is Err ==> out->Err_0 == SynthesisError::UnexpectedIdentity,
        out is Ok ==> out->Ok_0.a@ == proof_a_spec(
            vk.delta_g1@,
            vk.alpha_g1@,
            *r,
            a_inputs@,
            a_aux@,
        ),
        out is Ok ==> out->Ok_0.b@ == proof_b_spec(
            vk.delta_g2@,
            vk.beta_g2@,
            *s,
            b_g2_inputs@,
            b_g2_aux@,
        ),
        out is Ok ==> out->Ok_0.c@ == proof_c_spec(
            vk.delta_g1@,
            vk.alpha_g1@,
            vk.beta_g1@,
            *r,
            *s,
            a_inputs@,
            a_aux@,
            b_g1_inputs@,
            b_g1_aux@,
            h@,
            l@,
        ),
{
    if vk.delta_g1.is_identity() || vk.delta_g2.is_identity() {
        return Err(SynthesisError::UnexpectedIdentity);
    }
    let mut g_a = g1_mul(&vk.delta_g1, r);
    g_a = g1_add(&g_a, &vk.alpha_g1);
    let a_answer = g1_add(a_inputs, a_aux);
    g_a = g1_add(&g_a, &a_answer);
    let mut g_b = g2_mul(&vk.delta_g2, s);
    g_b = g2_add(&g_b, &vk.beta_g2);
    let b2_answer = g2_add(b_g2_inputs, b_g2_aux);
    g_b = g2_add(&g_b, &b2_answer);
    let rs = fr_mul(r, s);
    proof {
        lemma_fr_of_nat_roundtrip(rs);
    }
    let mut g_c = g1_mul(&vk.delta_g1, &rs);
    let t1 = g1_mul(&vk.alpha_g1, s);
    g_c = g1_add(&g_c, &t1);
    let t2 = g1_mul(&vk.beta_g1, r);
    g_c = g1_add(&g_c, &t2);
    let t3 = g1_mul(&a_answer, s);
    g_c = g1_add(&g_c, &t3);
    let b1_answer = g1_add(b_g1_inputs, b_g1_aux);
    let t4 = g1_mul(&b1_answer, r);
    g_c = g1_add(&g_c, &t4);
    g_c = g1_add(&g_c, h);
    g_c = g1_add(&g_c, l);
    Ok(Proof { a: g_a, b: g_b, c: g_c })
}

/// Copy a scalar vector.
fn clone_frs(v: &Vec<Fr>) -> (r: Vec<Fr>)
    ensures
        r@ == v@,
{
    let mut out: Vec<Fr> = Vec::new();
    let mut i: usize = 0;
    while i < v.len()
        invariant
            i <= v@.len(),
            out@ == v@.subrange(0, i as int),
        decreases v@.len() - i,
    {
        let ghost pre = out@;
        out.push(v[i]);
        proof {
            assert(pre.push(v@[i as int]) =~= v@.subrange(0, i + 1));
        }
        i += 1;
    }
    proof {
        assert(v@.subrange(0, v@.len() as int) =~= v@);
    }
    out
}

/// The degenerate `x * 0 = 0` input constraints stand at the tail of the
/// evaluations: one row per input, its A-evaluation the input's own value
/// and its B- and C-evaluations zero. These rows are what make the inputs
/// fully dense in the A query.
pub open spec fn input_constraints_enforced(pv: AssignmentView) -> bool {
    let k = pv.input_assignment.len() as int;
    let m = pv.a.len() as int;
    forall|j: int|
        0 <= j < k ==> fr_nat(#[trigger] pv.a[m - k + j]) == fr_nat(pv.input_assignment[j])
            && fr_nat(pv.b[m - k + j]) == 0 && fr_nat(pv.c[m - k + j]) == 0
}

/// Synthesize every circuit of a batch into a fresh proving assignment:
/// allocate the constant one input, run the circuit, then add one
/// degenerate `x * 0 = 0` constraint per input so that inputs carry full
/// density in the A query.
pub fn synthesize_circuits<C: Circuit>(circuits: &Vec<C>) -> (out: Result<
    Vec<ProvingAssignment>,
    SynthesisError,
>)
    ensures
        circuits@.len() == 0 ==> out is Ok,
        out is Ok ==> out->Ok_0@.len() == circuits@.len(),
        out is Ok ==> forall|i: int|
            0 <= i < out->Ok_0@.len() ==> (#[trigger] out->Ok_0@[i]).wf()
                && out->Ok_0@[i]@.input_assignment.len() >= 1 && out->Ok_0@[i]@.a.len()
                >= out->Ok_0@[i]@.input_assignment.len() && input_constraints_enforced(
                out->Ok_0@[i]@,
            ),
{
    let mut provers: Vec<ProvingAssignment> = Vec::new();
    let mut idx: usize = 0;
    while idx < circuits.len()
        invariant
            idx <= circuits@.len(),
            provers@.len() == idx,
            forall|i: int|
                0 <= i < provers@.len() ==> (#[trigger] provers@[i]).wf()
                    && provers@[i]@.input_assignment.len() >= 1 && provers@[i]@.a.len()
                    >= provers@[i]@.input_assignment.len() && input_constraints_enforced(
                    provers@[i]@,
                ),
        decreases circuits@.len() - idx,
    {
        let mut prover = ProvingAssignment::new();
        let one = fr_one();
        prover.alloc_input(one);
        match circuits[idx].synthesize(&mut prover) {
            Ok(()) => {},
            Err(e) => {
                return Err(e);
            },
        }
        let ghost n0 = prover@.a.len();
        let ghost inp = prover@.input_assignment;
        let input_len = prover.input_assignment.len();
        if input_len == 0 {
            return Err(SynthesisError::AssignmentMissing);
        }
        let mut i: usize = 0;
        while i < input_len
            invariant
                i <= input_len,
                prover.wf(),
                input_len == prover@.input_assignment.len(),
                input_len >= 1,
                prover@.input_assignment == inp,
                prover@.a.len() == n0 + i,
                forall|j: int|
                    0 <= j < i ==> fr_nat(#[trigger] prover@.a[n0 + j]) == fr_nat(inp[j])
                        && fr_nat(prover@.b[n0 + j]) == 0 && fr_nat(prover@.c[n0 + j]) == 0,
            decreases input_len - i,
        {
            let v = Variable(Index::Input(i));
            let one = fr_one();
            let mut lc_a = LinearCombination::zero();
            lc_a.add_term(v, one);
            let lc_b = LinearCombination::zero();
            let lc_c = LinearCombination::zero();
            let ghost pre = prover@;
            prover.enforce(&lc_a, &lc_b, &lc_c);
            proof {
                let terms = lc_a.terms@;
                assert(terms.len() == 1);
                assert(terms.drop_last() =~= Seq::<(Variable, Fr)>::empty());
                assert(terms.last() == (Variable(Index::Input(i as int as usize)), one));
                lemma_small_mod(fr_nat(inp[i as int]), r_modulus());
                assert((1 * fr_nat(inp[i as int])) % r_modulus() == fr_nat(inp[i as int])
                    % r_modulus());
                assert(eval_lc_nat(terms, inp, pre.aux_assignment) == fr_nat(inp[i as int]));
                assert(forall|j: int|
                    0 <= j < i ==> #[trigger] prover@.a[n0 + j] == pre.a[n0 + j]
                        && prover@.b[n0 + j] == pre.b[n0 + j] && prover@.c[n0 + j] == pre.c[n0
                        + j]);
            }
            i += 1;
        }
        proof {
            assert(input_constraints_enforced(prover@));
        }
        provers.push(prover);
        idx += 1;
    }
    Ok(provers)
}

/// The coefficients over the padded power-of-two domain.
pub open spec fn padded(s: Seq<Fr>, m: nat) -> Seq<Fr> {
    Seq::new(
        m,
        |i: int|
            if i < s.len() {
                s[i]
            } else {
                fr_of_nat(0)
            },
    )
}

/// The monomial coefficients interpolated from values over the domain of
/// order `2^k`.
pub open spec fn ifft_stage(s: Seq<Fr>, k: nat) -> Seq<Fr> {
    Seq::new(
        s.len() as nat,
        |j: int|
            fr_of_nat(
                (eval_poly(s, geom(1, inv_mod(omega_nat(k)), j as nat)) * inv_mod(pow2(k)))
                    % r_modulus(),
            ),
    )
}

/// The evaluations of a coefficient sequence over the coset `{7 w^i}`.
pub open spec fn coset_eval_stage(s: Seq<Fr>, k: nat) -> Seq<Fr> {
    Seq::new(
        s.len() as nat,
        |i: int| fr_of_nat(eval_poly(s, geom(7, omega_nat(k), i as nat))),
    )
}

/// The coset evaluations of the polynomial interpolated from `s`, padded to
/// the domain of order `2^k`.
pub open spec fn coset_values(s: Seq<Fr>, k: nat) -> Seq<Fr> {
    coset_eval_stage(ifft_stage(padded(s, pow2(k)), k), k)
}

/// The coset values of `(a * b - c) / Z`, the quotient polynomial `h`.
pub open spec fn quotient_values(a: Seq<Fr>, b: Seq<Fr>, c: Seq<Fr>, k: nat) -> Seq<Fr> {
    let va = coset_values(a, k);
    let vb = coset_values(b, k);
    let vc = coset_values(c, k);
    Seq::new(
        pow2(k),
        |i: int|
            fr_of_nat(
                ((((fr_nat(va[i]) * fr_nat(vb[i])) % r_modulus() + r_modulus() - fr_nat(vc[i]))
                    as nat % r_modulus()) * inv_mod(coset_z_nat(k))) % r_modulus(),
            ),
    )
}

/// Interpolation back from coset values: interpolate over the plain domain
/// and divide the degree-`j` coefficient by `7^j`.
pub open spec fn icoset_stage(s: Seq<Fr>, k: nat) -> Seq<Fr> {
    Seq::new(
        s.len() as nat,
        |j: int|
            fr_of_nat(
                (((eval_poly(s, geom(1, inv_mod(omega_nat(k)), j as nat)) * inv_mod(pow2(k)))
                    % r_modulus()) * geom(1, inv_mod(7), j as nat)) % r_modulus(),
            ),
    )
}

/// The coefficients of the quotient polynomial `h = (a b - c) / Z` over the
/// domain of order `2^k`, with the spurious top coefficient dropped.
pub open spec fn h_coeffs_spec(a: Seq<Fr>, b: Seq<Fr>, c: Seq<Fr>, k: nat) -> Seq<Fr> {
    icoset_stage(quotient_values(a, b, c, k), k).subrange(0, pow2(k) - 1)
}

/// The coset evaluations of one constraint polynomial: pad into the
/// evaluation domain, interpolate, and evaluate over the coset.
#[verifier::rlimit(100)]
fn coset_transform(v: Vec<Fr>) -> (out: Result<EvaluationDomain, SynthesisError>)
    requires
        frs_valid(v@),
        v@.len() >= 1,
    ensures
        out is Err ==> (out->Err_0 == SynthesisError::PolynomialDegreeTooLarge || out->Err_0
            == SynthesisError::DivisionByZero),
        (out is Err && out->Err_0 == SynthesisError::PolynomialDegreeTooLarge) <==> v@.len()
            > 0x80000000,
        (out is Err && out->Err_0 == SynthesisError::DivisionByZero) ==> omega_nat(
            fit_exp(v@.len() as nat),
        ) == 0,
        out is Ok ==> ({
            let d = out->Ok_0;
            d.wf() && d.exp as nat == fit_exp(v@.len() as nat) && d.coeffs@ == coset_values(
                v@,
                fit_exp(v@.len() as nat),
            )
        }),
{
    let ghost vv = v@;
    let mut d = match EvaluationDomain::from_coeffs(v) {
        Ok(d) => d,
        Err(e) => {
            return Err(e);
        },
    };
    proof {
        lemma_fit_exp_is(vv.len() as nat, d.exp as nat);
    }
    let ghost k = d.exp as nat;
    proof {
        lemma_inv_mod_is(omega_nat(k), fr_nat(d.omegainv));
        lemma_inv_mod_is(pow2(k), fr_nat(d.minv));
        let pre = padded(vv, pow2(k));
        assert forall|i: int| 0 <= i < d.coeffs@.len() implies #[trigger] pre[i] == fr_of_nat(
            fr_nat(d.coeffs@[i]),
        ) by {
            if i < vv.len() {
                lemma_fr_of_nat_roundtrip(d.coeffs@[i]);
            } else {
                assert(fr_nat(d.coeffs@[i]) == 0);
            }
        };
        lemma_frs_match(d.coeffs@, pre);
    }
    let ghost pre = padded(vv, pow2(k));
    let ghost winv = fr_nat(d.omegainv);
    let ghost mi = fr_nat(d.minv);
    d.ifft();
    proof {
        let tgt = ifft_stage(pre, k);
        assert forall|j: int| 0 <= j < d.coeffs@.len() implies #[trigger] tgt[j] == fr_of_nat(
            fr_nat(d.coeffs@[j]),
        ) by {
            assert(fr_nat(d.coeffs@[j]) == (eval_poly(pre, geom(1, winv, j as nat)) * mi)
                % r_modulus());
            assert(winv == inv_mod(omega_nat(k)));
            assert(mi == inv_mod(pow2(k)));
        };
        lemma_frs_match(d.coeffs@, tgt);
    }
    d.coset_fft();
    proof {
        let tgt = coset_values(vv, k);
        assert(tgt == coset_eval_stage(ifft_stage(pre, k), k));
        assert forall|i: int| 0 <= i < d.coeffs@.len() implies #[trigger] tgt[i] == fr_of_nat(
            fr_nat(d.coeffs@[i]),
        ) by {
            assert(fr_nat(d.coeffs@[i]) == eval_poly(
                ifft_stage(pre, k),
                geom(7, omega_nat(k), i as nat),
            ));
        };
        lemma_frs_match(d.coeffs@, tgt);
    }
    Ok(d)
}

/// Compute the coefficients of `h = (a b - c) / Z`: build the three padded
/// evaluation domains, move to the coset, combine pointwise, divide by the
/// vanishing polynomial and interpolate back, dropping the top coefficient.
#[verifier::rlimit(100)]
pub fn compute_h(a: Vec<Fr>, b: Vec<Fr>, c: Vec<Fr>) -> (out: Result<Vec<Fr>, SynthesisError>)
    requires
        frs_valid(a@),
        frs_valid(b@),
        frs_valid(c@),
        a@.len() == b@.len(),
        b@.len() == c@.len(),
        a@.len() >= 1,
    ensures
        out is Err ==> (out->Err_0 == SynthesisError::PolynomialDegreeTooLarge || out->Err_0
            == SynthesisError::DivisionByZero),
        (out is Err && out->Err_0 == SynthesisError::PolynomialDegreeTooLarge) <==> a@.len()
            > 0x80000000,
        (out is Err && out->Err_0 == SynthesisError::DivisionByZero) ==> omega_nat(
            fit_exp(a@.len() as nat),
        ) == 0 || coset_z_nat(fit_exp(a@.len() as nat)) == 0,
        out is Ok ==> frs_valid(out->Ok_0@) && out->Ok_0@ == h_coeffs_spec(
            a@,
            b@,
            c@,
            fit_exp(a@.len() as nat),
        ) && out->Ok_0@.len() + 1 == pow2(fit_exp(a@.len() as nat)),
{
    let ghost av = a@;
    let ghost bv = b@;
    let ghost cv = c@;
    let mut da = match coset_transform(a) {
        Ok(d) => d,
        Err(e) => {
            return Err(e);
        },
    };
    let db = match coset_transform(b) {
        Ok(d) => d,
        Err(e) => {
            return Err(e);
        },
    };
    let dc = match coset_transform(c) {
        Ok(d) => d,
        Err(e) => {
            return Err(e);
        },
    };
    let ghost k = da.exp as nat;
    da.mul_assign(&db);
    da.sub_assign(&dc);
    match da.divide_by_z_on_coset() {
        Ok(()) => {},
        Err(e) => {
            return Err(e);
        },
    }
    proof {
        lemma_frs_match(da.coeffs@, quotient_values(av, bv, cv, k));
        lemma_inv_mod_is(omega_nat(k), fr_nat(da.omegainv));
        lemma_inv_mod_is(pow2(k), fr_nat(da.minv));
        lemma_inv_mod_is(7, fr_nat(da.geninv));
    }
    da.icoset_fft();
    proof {
        lemma_frs_match(da.coeffs@, icoset_stage(quotient_values(av, bv, cv, k), k));
    }
    let mut out = da.coeffs;
    proof {
        vstd::arithmetic::power2::lemma_pow2_pos(k);
    }
    let _top = out.pop();
    proof {
        assert(out@ =~= h_coeffs_spec(av, bv, cv, k));
    }
    Ok(out)
}

/// Mapping to encodings commutes with slicing.
proof fn lemma_views_subrange_g1(s: Seq<PointG1>, a: int, b: int)
    requires
        0 <= a <= b <= s.len(),
    ensures
        g1_views(s.subrange(a, b)) == g1_views(s).subrange(a, b),
{
    assert(g1_views(s.subrange(a, b)) =~= g1_views(s).subrange(a, b));
}

/// Mapping to encodings commutes with slicing.
proof fn lemma_views_subrange_g2(s: Seq<PointG2>, a: int, b: int)
    requires
        0 <= a <= b <= s.len(),
    ensures
        g2_views(s.subrange(a, b)) == g2_views(s).subrange(a, b),
{
    assert(g2_views(s.subrange(a, b)) =~= g2_views(s).subrange(a, b));
}

/// The multi-scalar sum of a density-filtered G1 query.
pub open spec fn msm_filtered_g1(basesv: Seq<Seq<u8>>, exps: Seq<Fr>, d: Seq<bool>) -> Seq<u8> {
    let fb = filter_seq(basesv.subrange(0, exps.len() as int), d);
    let fe = filter_seq(exps, d);
    msm_g1(fb, fe, 0, 0, fe.len() as nat)
}

/// The multi-scalar sum of a density-filtered G2 query.
pub open spec fn msm_filtered_g2(basesv: Seq<Seq<u8>>, exps: Seq<Fr>, d: Seq<bool>) -> Seq<u8> {
    let fb = filter_seq(basesv.subrange(0, exps.len() as int), d);
    let fe = filter_seq(exps, d);
    msm_g2(fb, fe, 0, 0, fe.len() as nat)
}

/// One proof of a batch is exactly what the pipeline owes for its
/// assignment: the quotient polynomial's multi-scalar sum, the six query
/// sums, and the final assembly with the per-proof randomness.
pub open spec fn proof_matches(
    p: Proof,
    vk: VerifyingKey,
    pv: AssignmentView,
    hp: Seq<Seq<u8>>,
    lp: Seq<Seq<u8>>,
    ain: Seq<Seq<u8>>,
    aaux: Seq<Seq<u8>>,
    b1in: Seq<Seq<u8>>,
    b1aux: Seq<Seq<u8>>,
    b2in: Seq<Seq<u8>>,
    b2aux: Seq<Seq<u8>>,
    r: Fr,
    s: Fr,
) -> bool {
    let k = fit_exp(pv.a.len());
    let hc = h_coeffs_spec(pv.a, pv.b, pv.c, k);
    let h = msm_g1(hp, hc, 0, 0, hc.len() as nat);
    let l = msm_g1(lp, pv.aux_assignment, 0, 0, pv.aux_assignment.len() as nat);
    let a_in = msm_g1(ain, pv.input_assignment, 0, 0, pv.input_assignment.len() as nat);
    let a_aux = msm_filtered_g1(aaux, pv.aux_assignment, pv.a_aux_density);
    let b1_in = msm_filtered_g1(b1in, pv.input_assignment, pv.b_input_density);
    let b1_aux = msm_filtered_g1(b1aux, pv.aux_assignment, pv.b_aux_density);
    let b2_in = msm_filtered_g2(b2in, pv.input_assignment, pv.b_input_density);
    let b2_aux = msm_filtered_g2(b2aux, pv.aux_assignment, pv.b_aux_density);
    p.a@ == proof_a_spec(vk.delta_g1@, vk.alpha_g1@, r, a_in, a_aux) && p.b@ == proof_b_spec(
        vk.delta_g2@,
        vk.beta_g2@,
        s,
        b2_in,
        b2_aux,
    ) && p.c@ == proof_c_spec(
        vk.delta_g1@,
        vk.alpha_g1@,
        vk.beta_g1@,
        r,
        s,
        a_in,
        a_aux,
        b1_in,
        b1_aux,
        h,
        l,
    )
}

/// Every parameter slice is long enough for the query it serves.
pub open spec fn params_long_enough(
    pv: AssignmentView,
    lp_len: nat,
    ain_len: nat,
    aaux_len: nat,
    b1in_len: nat,
    b1aux_len: nat,
    b2in_len: nat,
    b2aux_len: nat,
) -> bool {
    lp_len >= pv.aux_assignment.len() && ain_len >= pv.input_assignment.len() && aaux_len
        >= pv.aux_assignment.len() && b1in_len >= pv.input_assignment.len() && b1aux_len
        >= pv.aux_assignment.len() && b2in_len >= pv.input_assignment.len() && b2aux_len
        >= pv.aux_assignment.len()
}

/// Prove a batch from synthesized assignments and fetched parameter
/// slices. The proofs come back in the order of the assignments, one per
/// assignment. Fails with `UnexpectedIdentity` before any other work
/// exactly when a delta element of the verifying key is the identity.
#[verifier::rlimit(100)]
pub fn create_proof_batch_from_assignments(
    provers: &Vec<ProvingAssignment>,
    vk: &VerifyingKey,
    h_params: &Vec<PointG1>,
    l_params: &Vec<PointG1>,
    a_inputs_src: &Vec<PointG1>,
    a_aux_src: &Vec<PointG1>,
    b_g1_inputs_src: &Vec<PointG1>,
    b_g1_aux_src: &Vec<PointG1>,
    b_g2_inputs_src: &Vec<PointG2>,
    b_g2_aux_src: &Vec<PointG2>,
    r_s: &Vec<Fr>,
    s_s: &Vec<Fr>,
    _priority: bool,
) -> (out: Result<Vec<Proof>, SynthesisError>)
    requires
        provers@.len() >= 1,
        forall|i: int| 0 <= i < provers@.len() ==> (#[trigger] provers@[i]).wf(),
        provers@[0]@.a.len() >= 1,
        r_s@.len() == provers@.len(),
        s_s@.len() == provers@.len(),
        frs_valid(r_s@),
        frs_valid(s_s@),
    ensures
        (out is Err && out->Err_0 == SynthesisError::UnexpectedIdentity) <==> (vk.delta_g1@
            == g1_ident() || vk.delta_g2@ == g2_ident()),
        (out is Err && out->Err_0 == SynthesisError::Unsatisfiable) <==> (vk.delta_g1@
            != g1_ident() && vk.delta_g2@ != g2_ident() && exists|i: int|
            0 <= i < provers@.len() && (#[trigger] provers@[i])@.a.len()
                != provers@[0]@.a.len()),
        (out is Err && out->Err_0 == SynthesisError::MalformedVerifyingKey) <==> (vk.delta_g1@
            != g1_ident() && vk.delta_g2@ != g2_ident() && (forall|i: int|
            0 <= i < provers@.len() ==> (#[trigger] provers@[i])@.a.len()
                == provers@[0]@.a.len()) && provers@[0]@.a.len() <= 0x80000000 && (h_params@.len()
            + 1 < pow2(fit_exp(provers@[0]@.a.len() as nat)) || exists|i: int|
            0 <= i < provers@.len() && !params_long_enough(
                (#[trigger] provers@[i])@,
                l_params@.len() as nat,
                a_inputs_src@.len() as nat,
                a_aux_src@.len() as nat,
                b_g1_inputs_src@.len() as nat,
                b_g1_aux_src@.len() as nat,
                b_g2_inputs_src@.len() as nat,
                b_g2_aux_src@.len() as nat,
            ))),
        (vk.delta_g1@ != g1_ident() && vk.delta_g2@ != g2_ident() && (forall|i: int|
            0 <= i < provers@.len() ==> (#[trigger] provers@[i])@.a.len()
                == provers@[0]@.a.len()) && provers@[0]@.a.len() <= 0x80000000 && h_params@.len()
            + 1 >= pow2(fit_exp(provers@[0]@.a.len() as nat)) && (forall|i: int|
            0 <= i < provers@.len() ==> params_long_enough(
                (#[trigger] provers@[i])@,
                l_params@.len() as nat,
                a_inputs_src@.len() as nat,
                a_aux_src@.len() as nat,
                b_g1_inputs_src@.len() as nat,
                b_g1_aux_src@.len() as nat,
                b_g2_inputs_src@.len() as nat,
                b_g2_aux_src@.len() as nat,
            )) && omega_nat(fit_exp(provers@[0]@.a.len() as nat)) != 0 && coset_z_nat(
            fit_exp(provers@[0]@.a.len() as nat),
        ) != 0) ==> out is Ok,
        out is Ok ==> out->Ok_0@.len() == provers@.len(),
        out is Ok ==> forall|i: int|
            #![auto]
            0 <= i < provers@.len() ==> proof_matches(
                out->Ok_0@[i],
                *vk,
                provers@[i]@,
                g1_views(h_params@),
                g1_views(l_params@),
                g1_views(a_inputs_src@),
                g1_views(a_aux_src@),
                g1_views(b_g1_inputs_src@),
                g1_views(b_g1_aux_src@),
                g2_views(b_g2_inputs_src@),
                g2_views(b_g2_aux_src@),
                r_s@[i],
                s_s@[i],
            ),
{
    if vk.delta_g1.is_identity() || vk.delta_g2.is_identity() {
        return Err(SynthesisError::UnexpectedIdentity);
    }
    let count = provers.len();
    let n = provers[0].a.len();
    let mut j: usize = 0;
    while j < count
        invariant
            j <= count,
            count == provers@.len(),
            n == provers@[0]@.a.len(),
            forall|i: int| 0 <= i < provers@.len() ==> (#[trigger] provers@[i]).wf(),
            forall|i: int| 0 <= i < j ==> (#[trigger] provers@[i])@.a.len() == n,
            vk.delta_g1@ != g1_ident(),
            vk.delta_g2@ != g2_ident(),
        decreases count - j,
    {
        if provers[j].a.len() != n {
            return Err(SynthesisError::Unsatisfiable);
        }
        j += 1;
    }
    let mut m: u64 = 1;
    let mut log_d: u32 = 0;
    proof {
        vstd::arithmetic::power2::lemma2_to64();
    }
    while m < n as u64
        invariant
            m == pow2(log_d as nat),
            log_d <= 31,
            m <= 0x80000000,
            log_d == 0 || pow2((log_d - 1) as nat) < n,
            vk.delta_g1@ != g1_ident(),
            vk.delta_g2@ != g2_ident(),
            count == provers@.len(),
            n == provers@[0]@.a.len(),
            forall|i: int| 0 <= i < provers@.len() ==> (#[trigger] provers@[i])@.a.len() == n,
        decreases 2 * (n as int) - m,
    {
        proof {
            vstd::arithmetic::power2::lemma2_to64();
            assert(pow2(31) == 0x80000000nat);
            vstd::arithmetic::power2::lemma_pow2_unfold((log_d + 1) as nat);
            if log_d + 1 < 31 {
                vstd::arithmetic::power2::lemma_pow2_strictly_increases((log_d + 1) as nat, 31);
            }
        }
        if log_d >= 31 {
            return Err(SynthesisError::PolynomialDegreeTooLarge);
        }
        m = m * 2;
        log_d += 1;
    }
    proof {
        lemma_fit_exp_is(n as nat, log_d as nat);
    }
    if (h_params.len() as u64) < m - 1 {
        return Err(SynthesisError::MalformedVerifyingKey);
    }
    let mut j2: usize = 0;
    while j2 < count
        invariant
            j2 <= count,
            count == provers@.len(),
            n == provers@[0]@.a.len(),
            n <= 0x80000000,
            forall|i: int| 0 <= i < provers@.len() ==> (#[trigger] provers@[i]).wf(),
            forall|i: int| 0 <= i < provers@.len() ==> (#[trigger] provers@[i])@.a.len() == n,
            h_params@.len() + 1 >= pow2(fit_exp(n as nat)),
            vk.delta_g1@ != g1_ident(),
            vk.delta_g2@ != g2_ident(),
            forall|i: int|
                0 <= i < j2 ==> params_long_enough(
                    (#[trigger] provers@[i])@,
                    l_params@.len() as nat,
                    a_inputs_src@.len() as nat,
                    a_aux_src@.len() as nat,
                    b_g1_inputs_src@.len() as nat,
                    b_g1_aux_src@.len() as nat,
                    b_g2_inputs_src@.len() as nat,
                    b_g2_aux_src@.len() as nat,
                ),
        decreases count - j2,
    {
        let p = &provers[j2];
        let ni = p.input_assignment.len();
        let na = p.aux_assignment.len();
        if l_params.len() < na || a_inputs_src.len() < ni || a_aux_src.len() < na
            || b_g1_inputs_src.len() < ni || b_g1_aux_src.len() < na || b_g2_inputs_src.len() < ni
            || b_g2_aux_src.len() < na {
            return Err(SynthesisError::MalformedVerifyingKey);
        }
        j2 += 1;
    }
    let mut proofs: Vec<Proof> = Vec::new();
    let mut idx: usize = 0;
    while idx < count
        invariant
            idx <= count,
            count == provers@.len(),
            n == provers@[0]@.a.len(),
            n >= 1,
            forall|i: int| 0 <= i < provers@.len() ==> (#[trigger] provers@[i]).wf(),
            forall|i: int| 0 <= i < provers@.len() ==> (#[trigger] provers@[i])@.a.len() == n,
            vk.delta_g1@ != g1_ident(),
            vk.delta_g2@ != g2_ident(),
            r_s@.len() == provers@.len(),
            s_s@.len() == provers@.len(),
            frs_valid(r_s@),
            frs_valid(s_s@),
            h_params@.len() + 1 >= pow2(fit_exp(n as nat)),
            forall|i: int|
                0 <= i < provers@.len() ==> params_long_enough(
                    (#[trigger] provers@[i])@,
                    l_params@.len() as nat,
                    a_inputs_src@.len() as nat,
                    a_aux_src@.len() as nat,
                    b_g1_inputs_src@.len() as nat,
                    b_g1_aux_src@.len() as nat,
                    b_g2_inputs_src@.len() as nat,
                    b_g2_aux_src@.len() as nat,
                ),
            proofs@.len() == idx,
            forall|i: int|
                #![auto]
                0 <= i < idx ==> proof_matches(
                    proofs@[i],
                    *vk,
                    provers@[i]@,
                    g1_views(h_params@),
                    g1_views(l_params@),
                    g1_views(a_inputs_src@),
                    g1_views(a_aux_src@),
                    g1_views(b_g1_inputs_src@),
                    g1_views(b_g1_aux_src@),
                    g2_views(b_g2_inputs_src@),
                    g2_views(b_g2_aux_src@),
                    r_s@[i],
                    s_s@[i],
                ),
        decreases count - idx,
    {
        let prover = &provers[idx];
        let ca = clone_frs(&prover.a);
        let cb = clone_frs(&prover.b);
        let cc = clone_frs(&prover.c);
        let h_coeffs = match compute_h(ca, cb, cc) {
            Ok(h) => h,
            Err(e) => {
                proof {
                    assert(e != SynthesisError::UnexpectedIdentity);
                }
                return Err(e);
            },
        };
        let h_pt = multiexp_fulldensity_g1(h_params, &h_coeffs, 0);
        let l_pt = multiexp_fulldensity_g1(l_params, &prover.aux_assignment, 0);
        let a_in_pt = multiexp_fulldensity_g1(a_inputs_src, &prover.input_assignment, 0);
        let (fb_a, fe_a) = density_filter_g1(a_aux_src, &prover.a_aux_density, &prover.aux_assignment);
        let a_aux_pt = multiexp_fulldensity_g1(&fb_a, &fe_a, 0);
        let (fb_b1i, fe_b1i) = density_filter_g1(
            b_g1_inputs_src,
            &prover.b_input_density,
            &prover.input_assignment,
        );
        let b1_in_pt = multiexp_fulldensity_g1(&fb_b1i, &fe_b1i, 0);
        let (fb_b1a, fe_b1a) = density_filter_g1(
            b_g1_aux_src,
            &prover.b_aux_density,
            &prover.aux_assignment,
        );
        let b1_aux_pt = multiexp_fulldensity_g1(&fb_b1a, &fe_b1a, 0);
        let (fb_b2i, fe_b2i) = density_filter_g2(
            b_g2_inputs_src,
            &prover.b_input_density,
            &prover.input_assignment,
        );
        let b2_in_pt = multiexp_fulldensity_g2(&fb_b2i, &fe_b2i, 0);
        let (fb_b2a, fe_b2a) = density_filter_g2(
            b_g2_aux_src,
            &prover.b_aux_density,
            &prover.aux_assignment,
        );
        let b2_aux_pt = multiexp_fulldensity_g2(&fb_b2a, &fe_b2a, 0);
        let p = match assemble_proof(
            vk,
            &r_s[idx],
            &s_s[idx],
            &h_pt,
            &l_pt,
            &a_in_pt,
            &a_aux_pt,
            &b1_in_pt,
            &b1_aux_pt,
            &b2_in_pt,
            &b2_aux_pt,
        ) {
            Ok(p) => p,
            Err(_) => {
                proof {
                    assert(false);
                }
                return Err(SynthesisError::UnexpectedIdentity);
            },
        };
        proof {
            let pv = provers@[idx as int]@;
            lemma_views_subrange_g1(a_aux_src@, 0, pv.aux_assignment.len() as int);
            lemma_views_subrange_g1(b_g1_inputs_src@, 0, pv.input_assignment.len() as int);
            lemma_views_subrange_g1(b_g1_aux_src@, 0, pv.aux_assignment.len() as int);
            lemma_views_subrange_g2(b_g2_inputs_src@, 0, pv.input_assignment.len() as int);
            lemma_views_subrange_g2(b_g2_aux_src@, 0, pv.aux_assignment.len() as int);
            assert(a_aux_pt@ == msm_filtered_g1(
                g1_views(a_aux_src@),
                pv.aux_assignment,
                pv.a_aux_density,
            ));
            assert(b1_in_pt@ == msm_filtered_g1(
                g1_views(b_g1_inputs_src@),
                pv.input_assignment,
                pv.b_input_density,
            ));
            assert(b1_aux_pt@ == msm_filtered_g1(
                g1_views(b_g1_aux_src@),
                pv.aux_assignment,
                pv.b_aux_density,
            ));
            assert(b2_in_pt@ == msm_filtered_g2(
                g2_views(b_g2_inputs_src@),
                pv.input_assignment,
                pv.b_input_density,
            ));
            assert(b2_aux_pt@ == msm_filtered_g2(
                g2_views(b_g2_aux_src@),
                pv.aux_assignment,
                pv.b_aux_density,
            ));
            assert(proof_matches(
                p,
                *vk,
                pv,
                g1_views(h_params@),
                g1_views(l_params@),
                g1_views(a_inputs_src@),
                g1_views(a_aux_src@),
                g1_views(b_g1_inputs_src@),
                g1_views(b_g1_aux_src@),
                g2_views(b_g2_inputs_src@),
                g2_views(b_g2_aux_src@),
                r_s@[idx as int],
                s_s@[idx as int],
            ));
        }
        proofs.push(p);
        idx += 1;
    }
    Ok(proofs)
}

/// Synthesize a batch of circuits, fetch the parameters, and prove each
/// circuit in order. Unequally sized batches are rejected right after
/// synthesis and a verifying key with an identity delta right after the
/// key arrives, so neither reaches the parameter fetches or any proving
/// work.
fn create_proof_batch_priority_inner<C: Circuit, P: ParameterSource>(
    circuits: Vec<C>,
    params: P,
    r_s: Vec<Fr>,
    s_s: Vec<Fr>,
    priority: bool,
) -> (out: Result<Vec<Proof>, SynthesisError>)
    requires
        circuits@.len() >= 1,
        r_s@.len() == circuits@.len(),
        s_s@.len() == circuits@.len(),
        frs_valid(r_s@),
        frs_valid(s_s@),
    ensures
        out is Ok ==> out->Ok_0@.len() == circuits@.len(),
{
    let mut params = params;
    let provers = match synthesize_circuits(&circuits) {
        Ok(p) => p,
        Err(e) => {
            return Err(e);
        },
    };
    // only equally sized circuits are supported: reject the batch right
    // after synthesis, before any parameter is fetched
    let n = provers[0].a.len();
    let mut j: usize = 0;
    while j < provers.len()
        invariant
            j <= provers@.len(),
        decreases provers@.len() - j,
    {
        if provers[j].a.len() != n {
            return Err(SynthesisError::Unsatisfiable);
        }
        j += 1;
    }
    let input_len = provers[0].input_assignment.len();
    let vk = match params.get_vk(input_len) {
        Ok(vk) => vk,
        Err(e) => {
            return Err(e);
        },
    };
    // the anti-subversion check comes before the bulk parameter fetches,
    // so a subverted key causes no further work
    if vk.delta_g1.is_identity() || vk.delta_g2.is_identity() {
        return Err(SynthesisError::UnexpectedIdentity);
    }
    let h_params = match params.get_h(0) {
        Ok(v) => v,
        Err(e) => {
            return Err(e);
        },
    };
    let l_params = match params.get_l(0) {
        Ok(v) => v,
        Err(e) => {
            return Err(e);
        },
    };
    let (a_inputs_src, a_aux_src) = match params.get_a(input_len, 0) {
        Ok(v) => v,
        Err(e) => {
            return Err(e);
        },
    };
    let (b_g1_inputs_src, b_g1_aux_src) = match params.get_b_g1(1, 0) {
        Ok(v) => v,
        Err(e) => {
            return Err(e);
        },
    };
    let (b_g2_inputs_src, b_g2_aux_src) = match params.get_b_g2(1, 0) {
        Ok(v) => v,
        Err(e) => {
            return Err(e);
        },
    };
    create_proof_batch_from_assignments(
        &provers,
        &vk,
        &h_params,
        &l_params,
        &a_inputs_src,
        &a_aux_src,
        &b_g1_inputs_src,
        &b_g1_aux_src,
        &b_g2_inputs_src,
        &b_g2_aux_src,
        &r_s,
        &s_s,
        priority,
    )
}

/// Create one Groth16 proof per circuit of a batch, with the given
/// per-proof randomness. The proofs come back in the order of the
/// circuits.
pub fn create_proof_batch_priority<C: Circuit, P: ParameterSource>(
    circuits: Vec<C>,
    params: P,
    r_s: Vec<Fr>,
    s_s: Vec<Fr>,
    priority: bool,
) -> (out: Result<Vec<Proof>, SynthesisError>)
    requires
        circuits@.len() >= 1,
        r_s@.len() == circuits@.len(),
        s_s@.len() == circuits@.len(),
        frs_valid(r_s@),
        frs_valid(s_s@),
    ensures
        out is Ok ==> out->Ok_0@.len() == circuits@.len(),
{
    create_proof_batch_priority_inner(circuits, params, r_s, s_s, priority)
}

} // verus!
