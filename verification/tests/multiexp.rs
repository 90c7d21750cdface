use bellperson::density::DensityTracker;
use bellperson::err::GPUError;
use bellperson::fr::Fr;
use bellperson::locks::{should_break, should_retry};
use bellperson::multiexp::{
    MultiexpKernel, SingleMultiexpKernel, density_filter_g1, exp_size, multiexp_fulldensity_g1,
    multiexp_fulldensity_g2, only_cpu_multiexp, window_size_for,
};
use bellperson::point::{PointG1, PointG2, g1_from_bytes, g2_from_bytes};
use fff::{Field, PrimeField};
use groupy::{CurveAffine, CurveProjective, EncodedPoint};
use paired::bls12_381::{Fr as PairedFr, FrRepr, G1Affine, G2Affine};
use rand_core::SeedableRng;
use rand_xorshift::XorShiftRng;

fn to_fr(v: PairedFr) -> Fr {
    let r = v.into_repr().0;
    Fr { l0: r[0], l1: r[1], l2: r[2], l3: r[3] }
}

fn g1_point(p: G1Affine) -> PointG1 {
    g1_from_bytes(&p.into_uncompressed().as_ref().to_vec()).unwrap()
}

fn g2_point(p: G2Affine) -> PointG2 {
    g2_from_bytes(&p.into_uncompressed().as_ref().to_vec()).unwrap()
}

fn random_pairs_g1(n: usize, seed: u8) -> (Vec<G1Affine>, Vec<PairedFr>) {
    let mut rng = XorShiftRng::from_seed([seed; 16]);
    let bases: Vec<G1Affine> = (0..n)
        .map(|_| G1Affine::one().mul(PairedFr::random(&mut rng)).into_affine())
        .collect();
    let exps: Vec<PairedFr> = (0..n).map(|_| PairedFr::random(&mut rng)).collect();
    (bases, exps)
}

fn naive_sum_g1(bases: &[G1Affine], exps: &[PairedFr]) -> G1Affine {
    let mut acc = paired::bls12_381::G1::zero();
    for (b, e) in bases.iter().zip(exps.iter()) {
        acc.add_assign(&b.mul(*e));
    }
    acc.into_affine()
}

#[test]
fn full_density_multiexp_matches_naive_sum() {
    let (bases, exps) = random_pairs_g1(33, 21);
    let lib_bases: Vec<PointG1> = bases.iter().map(|b| g1_point(*b)).collect();
    let lib_exps: Vec<Fr> = exps.iter().map(|e| to_fr(*e)).collect();
    let got = multiexp_fulldensity_g1(&lib_bases, &lib_exps, 0);
    let expect = g1_point(naive_sum_g1(&bases, &exps));
    assert_eq!(got.as_bytes(), expect.as_bytes());
}

#[test]
fn multiexp_honors_the_skip_offset() {
    let (bases, exps) = random_pairs_g1(20, 22);
    let lib_bases: Vec<PointG1> = bases.iter().map(|b| g1_point(*b)).collect();
    let lib_exps: Vec<Fr> = exps[..15].iter().map(|e| to_fr(*e)).collect();
    let got = multiexp_fulldensity_g1(&lib_bases, &lib_exps, 5);
    let expect = g1_point(naive_sum_g1(&bases[5..20], &exps[..15]));
    assert_eq!(got.as_bytes(), expect.as_bytes());
}

#[test]
fn g2_multiexp_matches_naive_sum() {
    let mut rng = XorShiftRng::from_seed([23; 16]);
    let bases: Vec<G2Affine> = (0..9)
        .map(|_| G2Affine::one().mul(PairedFr::random(&mut rng)).into_affine())
        .collect();
    let exps: Vec<PairedFr> = (0..9).map(|_| PairedFr::random(&mut rng)).collect();
    let lib_bases: Vec<PointG2> = bases.iter().map(|b| g2_point(*b)).collect();
    let lib_exps: Vec<Fr> = exps.iter().map(|e| to_fr(*e)).collect();
    let got = multiexp_fulldensity_g2(&lib_bases, &lib_exps, 0);
    let mut acc = paired::bls12_381::G2::zero();
    for (b, e) in bases.iter().zip(exps.iter()) {
        acc.add_assign(&b.mul(*e));
    }
    let expect = g2_point(acc.into_affine());
    assert_eq!(got.as_bytes(), expect.as_bytes());
}

#[test]
fn only_cpu_multiexp_agrees_with_naive_sum() {
    let (bases, exps) = random_pairs_g1(19, 25);
    let lib_bases: Vec<PointG1> = bases.iter().map(|b| g1_point(*b)).collect();
    let lib_exps: Vec<Fr> = exps.iter().map(|e| to_fr(*e)).collect();
    let got = only_cpu_multiexp(&lib_bases, &lib_exps, 0, 19).unwrap();
    let expect = g1_point(naive_sum_g1(&bases, &exps));
    assert_eq!(got.as_bytes(), expect.as_bytes());
}

#[test]
fn density_filter_selects_the_set_positions_in_order() {
    let (bases, exps) = random_pairs_g1(6, 27);
    let lib_bases: Vec<PointG1> = bases.iter().map(|b| g1_point(*b)).collect();
    let lib_exps: Vec<Fr> = exps.iter().map(|e| to_fr(*e)).collect();
    let mut d = DensityTracker::new();
    for _ in 0..6 {
        d.add_element();
    }
    d.inc(1);
    d.inc(3);
    d.inc(4);
    let (fb, fe) = density_filter_g1(&lib_bases, &d, &lib_exps);
    assert_eq!(fb.len(), 3);
    assert_eq!(fe.len(), 3);
    assert_eq!(d.get_total_density(), 3);
    assert_eq!(fb[0].as_bytes(), lib_bases[1].as_bytes());
    assert_eq!(fb[1].as_bytes(), lib_bases[3].as_bytes());
    assert_eq!(fb[2].as_bytes(), lib_bases[4].as_bytes());
    assert_eq!(fe[0], lib_exps[1]);
    assert_eq!(fe[1], lib_exps[3]);
    assert_eq!(fe[2], lib_exps[4]);
}

#[test]
fn density_filtered_multiexp_matches_the_manual_subset_sum() {
    // A 60% subset of five positions.
    let (bases, exps) = random_pairs_g1(5, 29);
    let lib_bases: Vec<PointG1> = bases.iter().map(|b| g1_point(*b)).collect();
    let lib_exps: Vec<Fr> = exps.iter().map(|e| to_fr(*e)).collect();
    let mut d = DensityTracker::new();
    for _ in 0..5 {
        d.add_element();
    }
    d.inc(0);
    d.inc(2);
    d.inc(4);
    let (fb, fe) = density_filter_g1(&lib_bases, &d, &lib_exps);
    let got = multiexp_fulldensity_g1(&fb, &fe, 0);
    let mut acc = paired::bls12_381::G1::zero();
    for i in [0usize, 2, 4] {
        acc.add_assign(&bases[i].mul(exps[i]));
    }
    let expect = g1_point(acc.into_affine());
    assert_eq!(got.as_bytes(), expect.as_bytes());
}

#[test]
fn windowed_kernel_matches_naive_for_every_window_size() {
    let (bases, exps) = random_pairs_g1(16, 31);
    let lib_bases: Vec<PointG1> = bases.iter().map(|b| g1_point(*b)).collect();
    let lib_exps: Vec<Fr> = exps.iter().map(|e| to_fr(*e)).collect();
    let expect = g1_point(naive_sum_g1(&bases, &exps));
    let kern = SingleMultiexpKernel::create(128, false).unwrap();
    for w in [1usize, 2, 3, 5, 8, 11] {
        let got = kern.multiexp_g1(&lib_bases, &lib_exps, 16, w, false).unwrap();
        assert_eq!(got.as_bytes(), expect.as_bytes(), "window size {}", w);
    }
}

#[test]
fn windowed_kernel_matches_naive_on_g2() {
    let mut rng = XorShiftRng::from_seed([33; 16]);
    let bases: Vec<G2Affine> = (0..7)
        .map(|_| G2Affine::one().mul(PairedFr::random(&mut rng)).into_affine())
        .collect();
    let exps: Vec<PairedFr> = (0..7).map(|_| PairedFr::random(&mut rng)).collect();
    let lib_bases: Vec<PointG2> = bases.iter().map(|b| g2_point(*b)).collect();
    let lib_exps: Vec<Fr> = exps.iter().map(|e| to_fr(*e)).collect();
    let mut acc = paired::bls12_381::G2::zero();
    for (b, e) in bases.iter().zip(exps.iter()) {
        acc.add_assign(&b.mul(*e));
    }
    let expect = g2_point(acc.into_affine());
    let kern = SingleMultiexpKernel::create(64, false).unwrap();
    let got = kern
        .multiexp_g2(&lib_bases, &lib_exps, 7, bellperson::multiexp::G2_WINDOW_SIZE, false)
        .unwrap();
    assert_eq!(got.as_bytes(), expect.as_bytes());
}

#[test]
fn multi_device_driver_matches_naive_sum() {
    let (bases, exps) = random_pairs_g1(21, 35);
    let lib_bases: Vec<PointG1> = bases.iter().map(|b| g1_point(*b)).collect();
    let lib_exps: Vec<Fr> = exps[..17].iter().map(|e| to_fr(*e)).collect();
    let driver = MultiexpKernel::create(&vec![64, 128, 32], false).unwrap();
    let got = driver.multiexp_g1(&lib_bases, &lib_exps, 4, 17, false).unwrap();
    let expect = g1_point(naive_sum_g1(&bases[4..21], &exps[..17]));
    assert_eq!(got.as_bytes(), expect.as_bytes());
}

#[test]
fn driver_without_devices_is_refused() {
    match MultiexpKernel::create(&Vec::new(), false) {
        Err(GPUError::Simple(msg)) => assert_eq!(msg, "No working GPUs found!"),
        _ => panic!("an empty device set must be refused"),
    }
}

#[test]
fn preemption_yields_and_retry_reproduces_the_result() {
    let (bases, exps) = random_pairs_g1(8, 37);
    let lib_bases: Vec<PointG1> = bases.iter().map(|b| g1_point(*b)).collect();
    let lib_exps: Vec<Fr> = exps.iter().map(|e| to_fr(*e)).collect();
    let low = SingleMultiexpKernel::create(64, false).unwrap();
    // a higher-priority job is waiting: the low-priority kernel yields
    let taken = low.multiexp_g1(&lib_bases, &lib_exps, 8, 11, true);
    assert!(matches!(taken, Err(GPUError::GPUTaken)));
    assert!(should_retry(&GPUError::GPUTaken));
    assert!(!should_retry(&GPUError::Simple("fatal")));
    // a high-priority kernel is never preempted
    let high = SingleMultiexpKernel::create(64, true).unwrap();
    let r1 = high.multiexp_g1(&lib_bases, &lib_exps, 8, 11, true).unwrap();
    // after the lock is released, the retried run is bit-identical
    let r2 = low.multiexp_g1(&lib_bases, &lib_exps, 8, 11, false).unwrap();
    assert_eq!(r1.as_bytes(), r2.as_bytes());
}

#[test]
fn an_empty_multiexp_is_the_identity() {
    let (bases, _) = random_pairs_g1(4, 39);
    let lib_bases: Vec<PointG1> = bases.iter().map(|b| g1_point(*b)).collect();
    let no_exps: Vec<Fr> = Vec::new();
    let r = multiexp_fulldensity_g1(&lib_bases, &no_exps, 0);
    assert!(r.is_identity());
    let r2 = only_cpu_multiexp(&lib_bases, &no_exps, 0, 0).unwrap();
    assert!(r2.is_identity());
    let driver = MultiexpKernel::create(&vec![64], false).unwrap();
    let r3 = driver.multiexp_g1(&lib_bases, &no_exps, 0, 0, false).unwrap();
    assert!(r3.is_identity());
    // an empty dispatch never reaches a kernel, so it cannot be preempted
    let r4 = driver.multiexp_g1(&lib_bases, &no_exps, 0, 0, true).unwrap();
    assert!(r4.is_identity());
}

#[test]
fn the_priority_rule_is_exact() {
    assert!(should_break(false, true));
    assert!(!should_break(true, true));
    assert!(!should_break(false, false));
    assert!(!should_break(true, false));
}

#[test]
fn window_policy_and_exponent_width() {
    assert_eq!(exp_size(), 32);
    assert_eq!(window_size_for(144), 11);
    assert_eq!(window_size_for(288), 8);
}
