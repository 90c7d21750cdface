use bellperson::domain::EvaluationDomain;
use bellperson::fr::Fr;
use fff::{Field, PrimeField};
use paired::bls12_381::Fr as PairedFr;
use rand_core::SeedableRng;
use rand_xorshift::XorShiftRng;

fn to_fr(v: PairedFr) -> Fr {
    let r = v.into_repr().0;
    Fr { l0: r[0], l1: r[1], l2: r[2], l3: r[3] }
}

fn random_frs(n: usize, seed: u8) -> Vec<Fr> {
    let mut rng = XorShiftRng::from_seed([seed; 16]);
    (0..n).map(|_| to_fr(PairedFr::random(&mut rng))).collect()
}

#[test]
fn domain_size_is_smallest_power_of_two_with_zero_padding() {
    let v = random_frs(5, 3);
    let d = EvaluationDomain::from_coeffs(v.clone()).unwrap();
    assert_eq!(d.coeffs.len(), 8);
    assert_eq!(d.exp, 3);
    assert_eq!(&d.coeffs[..5], &v[..]);
    for i in 5..8 {
        assert_eq!(d.coeffs[i], Fr { l0: 0, l1: 0, l2: 0, l3: 0 });
    }

    let w = random_frs(8, 4);
    let d8 = EvaluationDomain::from_coeffs(w.clone()).unwrap();
    assert_eq!(d8.coeffs.len(), 8);
    assert_eq!(d8.exp, 3);
    assert_eq!(d8.coeffs, w);

    let one = random_frs(1, 5);
    let d1 = EvaluationDomain::from_coeffs(one.clone()).unwrap();
    assert_eq!(d1.coeffs.len(), 1);
    assert_eq!(d1.exp, 0);
}

#[test]
fn ifft_inverts_fft() {
    for k in &[1usize, 2, 8, 16] {
        let v = random_frs(*k, 9);
        let mut d = EvaluationDomain::from_coeffs(v).unwrap();
        let orig = d.coeffs.clone();
        d.fft();
        if *k > 1 {
            assert_ne!(d.coeffs, orig);
        }
        d.ifft();
        assert_eq!(d.coeffs, orig);
    }
}

#[test]
fn icoset_fft_inverts_coset_fft() {
    for k in &[2usize, 7, 16] {
        let v = random_frs(*k, 11);
        let mut d = EvaluationDomain::from_coeffs(v).unwrap();
        let orig = d.coeffs.clone();
        d.coset_fft();
        assert_ne!(d.coeffs, orig);
        d.icoset_fft();
        assert_eq!(d.coeffs, orig);
    }
}

#[test]
fn dividing_by_z_on_coset_inverts_multiplying_by_z() {
    // On the coset, Z(7 w^i) is the constant 7^m - 1; dividing after
    // multiplying by it pointwise is the identity.
    let v = random_frs(8, 13);
    let mut d = EvaluationDomain::from_coeffs(v).unwrap();
    let orig = d.coeffs.clone();
    let m = d.coeffs.len() as u64;
    let mut z = PairedFr::from_repr(paired::bls12_381::FrRepr([7, 0, 0, 0])).unwrap();
    z = z.pow(&[m, 0, 0, 0]);
    z.sub_assign(&PairedFr::one());
    for c in d.coeffs.iter_mut() {
        let mut pv =
            PairedFr::from_repr(paired::bls12_381::FrRepr([c.l0, c.l1, c.l2, c.l3])).unwrap();
        pv.mul_assign(&z);
        *c = to_fr(pv);
    }
    d.divide_by_z_on_coset().unwrap();
    assert_eq!(d.coeffs, orig);
}

#[test]
fn fft_evaluates_the_polynomial_at_root_powers() {
    let v = random_frs(4, 17);
    let mut d = EvaluationDomain::from_coeffs(v.clone()).unwrap();
    d.fft();
    // omega of order 4
    let omega = PairedFr::root_of_unity().pow(&[1u64 << 30, 0, 0, 0]);
    let coeffs: Vec<PairedFr> = v
        .iter()
        .map(|c| {
            PairedFr::from_repr(paired::bls12_381::FrRepr([c.l0, c.l1, c.l2, c.l3])).unwrap()
        })
        .collect();
    let mut x = PairedFr::one();
    for i in 0..4 {
        // Horner evaluation at omega^i
        let mut acc = PairedFr::zero();
        for c in coeffs.iter().rev() {
            acc.mul_assign(&x);
            acc.add_assign(c);
        }
        assert_eq!(to_fr(acc), d.coeffs[i]);
        x.mul_assign(&omega);
    }
}
