use bellperson::assignment::{Index, LinearCombination, ProvingAssignment, Variable};
use bellperson::err::SynthesisError;
use bellperson::fr::{Fr, fr_one};
use bellperson::point::{PointG1, PointG2, g1_from_bytes, g2_from_bytes};
use bellperson::prover::{
    Circuit, ParameterSource, Proof, VerifyingKey, create_proof_batch_priority,
};
use fff::{Field, PrimeField};
use groupy::{CurveAffine, CurveProjective, EncodedPoint};
use paired::Engine;
use paired::bls12_381::{
    Bls12, Fr as PairedFr, FrRepr, G1Affine, G1Uncompressed, G2Affine, G2Uncompressed,
};

fn to_fr(v: PairedFr) -> Fr {
    let r = v.into_repr().0;
    Fr { l0: r[0], l1: r[1], l2: r[2], l3: r[3] }
}

fn fr_u64(v: u64) -> PairedFr {
    PairedFr::from_repr(FrRepr([v, 0, 0, 0])).unwrap()
}

fn g1_point(p: G1Affine) -> PointG1 {
    g1_from_bytes(&p.into_uncompressed().as_ref().to_vec()).unwrap()
}

fn g2_point(p: G2Affine) -> PointG2 {
    g2_from_bytes(&p.into_uncompressed().as_ref().to_vec()).unwrap()
}

fn dec_g1(bytes: &Vec<u8>) -> G1Affine {
    let mut enc = G1Uncompressed::empty();
    enc.as_mut().copy_from_slice(bytes.as_slice());
    enc.into_affine().unwrap()
}

fn dec_g2(bytes: &Vec<u8>) -> G2Affine {
    let mut enc = G2Uncompressed::empty();
    enc.as_mut().copy_from_slice(bytes.as_slice());
    enc.into_affine().unwrap()
}

/// An R1CS over global variable indices: inputs first, then auxiliaries.
struct Matrices {
    num_inputs: usize,
    num_aux: usize,
    a: Vec<Vec<(usize, PairedFr)>>,
    b: Vec<Vec<(usize, PairedFr)>>,
    c: Vec<Vec<(usize, PairedFr)>>,
}

struct TestParams {
    vk: VerifyingKey,
    h: Vec<PointG1>,
    l: Vec<PointG1>,
    a_inputs: Vec<PointG1>,
    a_aux: Vec<PointG1>,
    b_g1_inputs: Vec<PointG1>,
    b_g1_aux: Vec<PointG1>,
    b_g2_inputs: Vec<PointG2>,
    b_g2_aux: Vec<PointG2>,
}

struct TestVerifier {
    alpha_g1: G1Affine,
    beta_g2: G2Affine,
    gamma_g2: G2Affine,
    delta_g2: G2Affine,
    ic: Vec<G1Affine>,
}

fn clone_vk(vk: &VerifyingKey) -> VerifyingKey {
    VerifyingKey {
        alpha_g1: vk.alpha_g1.clone(),
        beta_g1: vk.beta_g1.clone(),
        beta_g2: vk.beta_g2.clone(),
        delta_g1: vk.delta_g1.clone(),
        delta_g2: vk.delta_g2.clone(),
    }
}

impl ParameterSource for TestParams {
    fn get_vk(&mut self, _input_len: usize) -> Result<VerifyingKey, SynthesisError> {
        Ok(clone_vk(&self.vk))
    }

    fn get_h(&mut self, _n: usize) -> Result<Vec<PointG1>, SynthesisError> {
        Ok(self.h.clone())
    }

    fn get_l(&mut self, _n: usize) -> Result<Vec<PointG1>, SynthesisError> {
        Ok(self.l.clone())
    }

    fn get_a(
        &mut self,
        _num_inputs: usize,
        _n: usize,
    ) -> Result<(Vec<PointG1>, Vec<PointG1>), SynthesisError> {
        Ok((self.a_inputs.clone(), self.a_aux.clone()))
    }

    fn get_b_g1(
        &mut self,
        _num_inputs: usize,
        _n: usize,
    ) -> Result<(Vec<PointG1>, Vec<PointG1>), SynthesisError> {
        Ok((self.b_g1_inputs.clone(), self.b_g1_aux.clone()))
    }

    fn get_b_g2(
        &mut self,
        _num_inputs: usize,
        _n: usize,
    ) -> Result<(Vec<PointG2>, Vec<PointG2>), SynthesisError> {
        Ok((self.b_g2_inputs.clone(), self.b_g2_aux.clone()))
    }
}

/// A textbook Groth16 setup over the matrices, evaluated at fixed toxic
/// scalars via Lagrange interpolation on the padded domain.
fn setup(m: &Matrices) -> (TestParams, TestVerifier) {
    let tau = fr_u64(0x1234567);
    let alpha = fr_u64(0xa1fa);
    let beta = fr_u64(0xbe7a);
    let gamma = fr_u64(0x9a33a);
    let delta = fr_u64(0xde17a);

    let rows = m.a.len();
    let mut size = 1usize;
    let mut k = 0u32;
    while size < rows {
        size *= 2;
        k += 1;
    }
    // omega of order 2^k
    let omega = PairedFr::root_of_unity().pow(&[1u64 << (32 - k), 0, 0, 0]);
    let mut points = Vec::new();
    let mut w = PairedFr::one();
    for _ in 0..size {
        points.push(w);
        w.mul_assign(&omega);
    }
    // Lagrange basis evaluated at tau
    let mut lag = Vec::new();
    for r in 0..size {
        let mut num = PairedFr::one();
        let mut den = PairedFr::one();
        for j in 0..size {
            if j != r {
                let mut t = tau;
                t.sub_assign(&points[j]);
                num.mul_assign(&t);
                let mut d = points[r];
                d.sub_assign(&points[j]);
                den.mul_assign(&d);
            }
        }
        num.mul_assign(&den.inverse().unwrap());
        lag.push(num);
    }
    let col_at = |rows: &Vec<Vec<(usize, PairedFr)>>, var: usize| -> PairedFr {
        let mut acc = PairedFr::zero();
        for (r, row) in rows.iter().enumerate() {
            for (v, coeff) in row.iter() {
                if *v == var {
                    let mut t = *coeff;
                    t.mul_assign(&lag[r]);
                    acc.add_assign(&t);
                }
            }
        }
        acc
    };
    let nv = m.num_inputs + m.num_aux;
    let u: Vec<PairedFr> = (0..nv).map(|v| col_at(&m.a, v)).collect();
    let v: Vec<PairedFr> = (0..nv).map(|vv| col_at(&m.b, vv)).collect();
    let wc: Vec<PairedFr> = (0..nv).map(|vv| col_at(&m.c, vv)).collect();

    let g1 = G1Affine::one();
    let g2 = G2Affine::one();
    let delta_inv = delta.inverse().unwrap();
    let gamma_inv = gamma.inverse().unwrap();

    // z(tau) = tau^size - 1
    let mut ztau = tau.pow(&[size as u64, 0, 0, 0]);
    ztau.sub_assign(&PairedFr::one());

    // h query: tau^j * z(tau) / delta
    let mut h = Vec::new();
    let mut tpow = PairedFr::one();
    for _ in 0..(size - 1) {
        let mut e = tpow;
        e.mul_assign(&ztau);
        e.mul_assign(&delta_inv);
        h.push(g1_point(g1.mul(e).into_affine()));
        tpow.mul_assign(&tau);
    }
    // l query over aux: (beta u + alpha v + w) / delta
    let mut l = Vec::new();
    for i in m.num_inputs..nv {
        let mut e = u[i];
        e.mul_assign(&beta);
        let mut t = v[i];
        t.mul_assign(&alpha);
        e.add_assign(&t);
        e.add_assign(&wc[i]);
        e.mul_assign(&delta_inv);
        l.push(g1_point(g1.mul(e).into_affine()));
    }
    // ic over inputs: (beta u + alpha v + w) / gamma
    let mut ic = Vec::new();
    for i in 0..m.num_inputs {
        let mut e = u[i];
        e.mul_assign(&beta);
        let mut t = v[i];
        t.mul_assign(&alpha);
        e.add_assign(&t);
        e.add_assign(&wc[i]);
        e.mul_assign(&gamma_inv);
        ic.push(g1.mul(e).into_affine());
    }
    let a_inputs: Vec<PointG1> =
        (0..m.num_inputs).map(|i| g1_point(g1.mul(u[i]).into_affine())).collect();
    let a_aux: Vec<PointG1> =
        (m.num_inputs..nv).map(|i| g1_point(g1.mul(u[i]).into_affine())).collect();
    let b_g1_inputs: Vec<PointG1> =
        (0..m.num_inputs).map(|i| g1_point(g1.mul(v[i]).into_affine())).collect();
    let b_g1_aux: Vec<PointG1> =
        (m.num_inputs..nv).map(|i| g1_point(g1.mul(v[i]).into_affine())).collect();
    let b_g2_inputs: Vec<PointG2> =
        (0..m.num_inputs).map(|i| g2_point(g2.mul(v[i]).into_affine())).collect();
    let b_g2_aux: Vec<PointG2> =
        (m.num_inputs..nv).map(|i| g2_point(g2.mul(v[i]).into_affine())).collect();

    let vk = VerifyingKey {
        alpha_g1: g1_point(g1.mul(alpha).into_affine()),
        beta_g1: g1_point(g1.mul(beta).into_affine()),
        beta_g2: g2_point(g2.mul(beta).into_affine()),
        delta_g1: g1_point(g1.mul(delta).into_affine()),
        delta_g2: g2_point(g2.mul(delta).into_affine()),
    };
    let verifier = TestVerifier {
        alpha_g1: g1.mul(alpha).into_affine(),
        beta_g2: g2.mul(beta).into_affine(),
        gamma_g2: g2.mul(gamma).into_affine(),
        delta_g2: g2.mul(delta).into_affine(),
        ic,
    };
    let params = TestParams {
        vk,
        h,
        l,
        a_inputs,
        a_aux,
        b_g1_inputs,
        b_g1_aux,
        b_g2_inputs,
        b_g2_aux,
    };
    (params, verifier)
}

fn verify(tv: &TestVerifier, proof: &Proof, inputs: &[PairedFr]) -> bool {
    let a = dec_g1(proof.a.as_bytes());
    let b = dec_g2(proof.b.as_bytes());
    let c = dec_g1(proof.c.as_bytes());
    let mut acc = paired::bls12_381::G1::zero();
    for (i, x) in inputs.iter().enumerate() {
        acc.add_assign(&tv.ic[i].mul(*x));
    }
    let lhs = Bls12::pairing(a, b);
    let mut rhs = Bls12::pairing(tv.alpha_g1, tv.beta_g2);
    rhs.mul_assign(&Bls12::pairing(acc.into_affine(), tv.gamma_g2));
    rhs.mul_assign(&Bls12::pairing(c, tv.delta_g2));
    lhs == rhs
}

/// The trivial circuit `x * 1 = x` over one public input.
struct TrivialCircuit {
    x: Fr,
}

impl Circuit for TrivialCircuit {
    fn synthesize(&self, cs: &mut ProvingAssignment) -> Result<(), SynthesisError> {
        let one = fr_one();
        let xv = cs.alloc_input(self.x);
        let mut a = LinearCombination::zero();
        a.add_term(xv, one);
        let mut b = LinearCombination::zero();
        b.add_term(Variable(Index::Input(0)), one);
        let mut c = LinearCombination::zero();
        c.add_term(xv, one);
        cs.enforce(&a, &b, &c);
        Ok(())
    }
}

/// The matrices of `TrivialCircuit` after synthesis, including the one
/// degenerate constraint the pipeline adds per input.
fn trivial_matrices() -> Matrices {
    let one = PairedFr::one();
    Matrices {
        num_inputs: 2,
        num_aux: 0,
        a: vec![vec![(1, one)], vec![(0, one)], vec![(1, one)]],
        b: vec![vec![(0, one)], vec![], vec![]],
        c: vec![vec![(1, one)], vec![], vec![]],
    }
}

/// A circuit with an auxiliary witness: `x * x = y` with public `x`.
struct SquareCircuit {
    x: Fr,
    y: Fr,
}

impl Circuit for SquareCircuit {
    fn synthesize(&self, cs: &mut ProvingAssignment) -> Result<(), SynthesisError> {
        let one = fr_one();
        let xv = cs.alloc_input(self.x);
        let yv = cs.alloc_aux(self.y);
        let mut a = LinearCombination::zero();
        a.add_term(xv, one);
        let mut b = LinearCombination::zero();
        b.add_term(xv, one);
        let mut c = LinearCombination::zero();
        c.add_term(yv, one);
        cs.enforce(&a, &b, &c);
        Ok(())
    }
}

fn square_matrices() -> Matrices {
    let one = PairedFr::one();
    Matrices {
        num_inputs: 2,
        num_aux: 1,
        a: vec![vec![(1, one)], vec![(0, one)], vec![(1, one)]],
        b: vec![vec![(1, one)], vec![], vec![]],
        c: vec![vec![(2, one)], vec![], vec![]],
    }
}

#[test]
fn two_trivial_proofs_verify_against_the_shared_key() {
    let (params, tv) = setup(&trivial_matrices());
    let x = fr_u64(7);
    let circuits = vec![TrivialCircuit { x: to_fr(x) }, TrivialCircuit { x: to_fr(x) }];
    let r_s = vec![to_fr(fr_u64(11)), to_fr(fr_u64(13))];
    let s_s = vec![to_fr(fr_u64(17)), to_fr(fr_u64(19))];
    let proofs = create_proof_batch_priority(circuits, params, r_s, s_s, false).unwrap();
    assert_eq!(proofs.len(), 2);
    for p in proofs.iter() {
        assert!(verify(&tv, p, &[PairedFr::one(), x]));
        assert!(!verify(&tv, p, &[PairedFr::one(), fr_u64(8)]));
    }
    // different randomness gives different proofs of the same statement
    assert_ne!(proofs[0].a.as_bytes(), proofs[1].a.as_bytes());
}

#[test]
fn witnessed_square_circuit_proves_and_verifies() {
    let (params, tv) = setup(&square_matrices());
    let x = fr_u64(5);
    let y = fr_u64(25);
    let circuits = vec![SquareCircuit { x: to_fr(x), y: to_fr(y) }];
    let r_s = vec![to_fr(fr_u64(23))];
    let s_s = vec![to_fr(fr_u64(29))];
    let proofs = create_proof_batch_priority(circuits, params, r_s, s_s, false).unwrap();
    assert!(verify(&tv, &proofs[0], &[PairedFr::one(), x]));
    assert!(!verify(&tv, &proofs[0], &[PairedFr::one(), fr_u64(6)]));
}

/// A parameter source that must not be asked for anything: every method
/// fails the test.
struct UntouchableParams;

impl ParameterSource for UntouchableParams {
    fn get_vk(&mut self, _input_len: usize) -> Result<VerifyingKey, SynthesisError> {
        unreachable!("the verifying key must not be fetched")
    }

    fn get_h(&mut self, _n: usize) -> Result<Vec<PointG1>, SynthesisError> {
        unreachable!("the h bases must not be fetched")
    }

    fn get_l(&mut self, _n: usize) -> Result<Vec<PointG1>, SynthesisError> {
        unreachable!("the l bases must not be fetched")
    }

    fn get_a(
        &mut self,
        _num_inputs: usize,
        _n: usize,
    ) -> Result<(Vec<PointG1>, Vec<PointG1>), SynthesisError> {
        unreachable!("the a bases must not be fetched")
    }

    fn get_b_g1(
        &mut self,
        _num_inputs: usize,
        _n: usize,
    ) -> Result<(Vec<PointG1>, Vec<PointG1>), SynthesisError> {
        unreachable!("the b bases must not be fetched")
    }

    fn get_b_g2(
        &mut self,
        _num_inputs: usize,
        _n: usize,
    ) -> Result<(Vec<PointG2>, Vec<PointG2>), SynthesisError> {
        unreachable!("the b bases must not be fetched")
    }
}

/// A parameter source that serves the verifying key and nothing else.
struct VkOnlyParams {
    vk: VerifyingKey,
}

impl ParameterSource for VkOnlyParams {
    fn get_vk(&mut self, _input_len: usize) -> Result<VerifyingKey, SynthesisError> {
        Ok(clone_vk(&self.vk))
    }

    fn get_h(&mut self, _n: usize) -> Result<Vec<PointG1>, SynthesisError> {
        unreachable!("the h bases must not be fetched")
    }

    fn get_l(&mut self, _n: usize) -> Result<Vec<PointG1>, SynthesisError> {
        unreachable!("the l bases must not be fetched")
    }

    fn get_a(
        &mut self,
        _num_inputs: usize,
        _n: usize,
    ) -> Result<(Vec<PointG1>, Vec<PointG1>), SynthesisError> {
        unreachable!("the a bases must not be fetched")
    }

    fn get_b_g1(
        &mut self,
        _num_inputs: usize,
        _n: usize,
    ) -> Result<(Vec<PointG1>, Vec<PointG1>), SynthesisError> {
        unreachable!("the b bases must not be fetched")
    }

    fn get_b_g2(
        &mut self,
        _num_inputs: usize,
        _n: usize,
    ) -> Result<(Vec<PointG2>, Vec<PointG2>), SynthesisError> {
        unreachable!("the b bases must not be fetched")
    }
}

/// A circuit enforcing `x * 1 = x` a configurable number of times, so
/// batches of unequal constraint counts can be built.
struct RepeatCircuit {
    x: Fr,
    reps: usize,
}

impl Circuit for RepeatCircuit {
    fn synthesize(&self, cs: &mut ProvingAssignment) -> Result<(), SynthesisError> {
        let one = fr_one();
        let xv = cs.alloc_input(self.x);
        for _ in 0..self.reps {
            let mut a = LinearCombination::zero();
            a.add_term(xv, one);
            let mut b = LinearCombination::zero();
            b.add_term(Variable(Index::Input(0)), one);
            let mut c = LinearCombination::zero();
            c.add_term(xv, one);
            cs.enforce(&a, &b, &c);
        }
        Ok(())
    }
}

#[test]
fn unequal_batches_are_rejected_before_any_parameter_fetch() {
    let x = to_fr(fr_u64(7));
    let circuits = vec![RepeatCircuit { x, reps: 1 }, RepeatCircuit { x, reps: 2 }];
    let r_s = vec![to_fr(fr_u64(3)), to_fr(fr_u64(5))];
    let s_s = vec![to_fr(fr_u64(4)), to_fr(fr_u64(6))];
    let out = create_proof_batch_priority(circuits, UntouchableParams, r_s, s_s, false);
    assert!(matches!(out, Err(SynthesisError::Unsatisfiable)));
}

#[test]
fn an_identity_delta_stops_the_pipeline_before_the_bulk_fetches() {
    let (params, _tv) = setup(&trivial_matrices());
    let mut vk = clone_vk(&params.vk);
    vk.delta_g2 = g2_point(G2Affine::zero());
    let circuits = vec![TrivialCircuit { x: to_fr(fr_u64(7)) }];
    let r_s = vec![to_fr(fr_u64(3))];
    let s_s = vec![to_fr(fr_u64(4))];
    let out = create_proof_batch_priority(circuits, VkOnlyParams { vk }, r_s, s_s, false);
    assert!(matches!(out, Err(SynthesisError::UnexpectedIdentity)));
}

#[test]
fn an_identity_delta_is_rejected_before_any_work() {
    let (mut params, _tv) = setup(&trivial_matrices());
    params.vk.delta_g1 = g1_point(G1Affine::zero());
    let circuits = vec![TrivialCircuit { x: to_fr(fr_u64(7)) }];
    let r_s = vec![to_fr(fr_u64(3))];
    let s_s = vec![to_fr(fr_u64(4))];
    let out = create_proof_batch_priority(circuits, params, r_s, s_s, false);
    assert!(matches!(out, Err(SynthesisError::UnexpectedIdentity)));
}

#[test]
fn batch_order_is_preserved_across_five_circuits() {
    let (params, tv) = setup(&trivial_matrices());
    let xs: Vec<PairedFr> = (0..5).map(|i| fr_u64(i)).collect();
    let circuits: Vec<TrivialCircuit> =
        xs.iter().map(|x| TrivialCircuit { x: to_fr(*x) }).collect();
    let r_s: Vec<Fr> = (0..5).map(|i| to_fr(fr_u64(31 + i))).collect();
    let s_s: Vec<Fr> = (0..5).map(|i| to_fr(fr_u64(41 + i))).collect();
    let proofs = create_proof_batch_priority(circuits, params, r_s, s_s, false).unwrap();
    assert_eq!(proofs.len(), 5);
    for (i, p) in proofs.iter().enumerate() {
        for (j, x) in xs.iter().enumerate() {
            let ok = verify(&tv, p, &[PairedFr::one(), *x]);
            assert_eq!(ok, i == j, "proof {} against inputs {}", i, j);
        }
    }
}
