use bellperson::assignment::{Index, LinearCombination, ProvingAssignment, Variable};
use bellperson::density::DensityTracker;
use bellperson::fr::{Fr, fr_one, is_fr_valid};
use fff::{Field, PrimeField};
use paired::bls12_381::Fr as PairedFr;
use rand::Rng;
use rand_core::SeedableRng;
use rand_xorshift::XorShiftRng;

fn to_fr(v: PairedFr) -> Fr {
    let r = v.into_repr().0;
    Fr { l0: r[0], l1: r[1], l2: r[2], l3: r[3] }
}

#[test]
fn test_proving_assignment_extend() {
    let mut rng = XorShiftRng::from_seed([
        0x59, 0x62, 0xbe, 0x5d, 0x76, 0x3d, 0x31, 0x8d, 0x17, 0xdb, 0x37, 0x32, 0x54, 0x06, 0xbc,
        0xe5,
    ]);

    for k in &[2, 4, 8] {
        for j in &[10, 20, 50] {
            let count: usize = k * j;

            let mut full_assignment = ProvingAssignment::new();
            full_assignment.alloc_input(fr_one());

            let mut partial_assignments = Vec::with_capacity(count / k);
            for i in 0..count {
                if i % k == 0 {
                    let mut p = ProvingAssignment::new();
                    p.alloc_input(fr_one());
                    partial_assignments.push(p)
                }

                let index: usize = i / k;
                let partial_assignment = &mut partial_assignments[index];

                if rng.gen() {
                    let el = to_fr(PairedFr::random(&mut rng));
                    full_assignment.alloc_aux(el);
                    partial_assignment.alloc_aux(el);
                }

                if rng.gen() {
                    let el = to_fr(PairedFr::random(&mut rng));
                    full_assignment.alloc_input(el);
                    partial_assignment.alloc_input(el);
                }
            }

            let mut combined = ProvingAssignment::new();
            combined.alloc_input(fr_one());

            for assignment in partial_assignments.into_iter() {
                combined.extend(assignment);
            }
            assert_eq!(combined, full_assignment);
        }
    }
}

#[test]
fn extend_is_associative_on_values() {
    let mut rng = XorShiftRng::from_seed([7u8; 16]);
    let mut make = |na: usize, ni: usize| {
        let mut p = ProvingAssignment::new();
        p.alloc_input(fr_one());
        for _ in 0..ni {
            p.alloc_input(to_fr(PairedFr::random(&mut rng)));
        }
        for _ in 0..na {
            p.alloc_aux(to_fr(PairedFr::random(&mut rng)));
        }
        p
    };
    let x = make(2, 1);
    let y = make(1, 3);
    let z = make(4, 0);
    let x2 = clone_assignment(&x);
    let y2 = clone_assignment(&y);
    let z2 = clone_assignment(&z);

    // (x + y) + z
    let mut left = clone_assignment(&x);
    left.extend(y);
    left.extend(z);
    // x + (y + z)
    let mut yz = y2;
    yz.extend(z2);
    let mut right = x2;
    right.extend(yz);
    assert_eq!(left, right);
}

fn clone_assignment(p: &ProvingAssignment) -> ProvingAssignment {
    ProvingAssignment {
        a_aux_density: clone_tracker(&p.a_aux_density),
        b_input_density: clone_tracker(&p.b_input_density),
        b_aux_density: clone_tracker(&p.b_aux_density),
        a: p.a.clone(),
        b: p.b.clone(),
        c: p.c.clone(),
        input_assignment: p.input_assignment.clone(),
        aux_assignment: p.aux_assignment.clone(),
    }
}

fn clone_tracker(d: &DensityTracker) -> DensityTracker {
    d.clone()
}

#[test]
fn enforce_keeps_the_three_vectors_in_step() {
    let mut p = ProvingAssignment::new();
    let one = fr_one();
    p.alloc_input(one);
    let x = p.alloc_input(Fr { l0: 7, l1: 0, l2: 0, l3: 0 });
    let w = p.alloc_aux(Fr { l0: 3, l1: 0, l2: 0, l3: 0 });
    assert_eq!(p.a.len(), 0);
    let mut a = LinearCombination::zero();
    a.add_term(x, one);
    let mut b = LinearCombination::zero();
    b.add_term(Variable(Index::Input(0)), one);
    let mut c = LinearCombination::zero();
    c.add_term(x, one);
    p.enforce(&a, &b, &c);
    assert_eq!(p.a.len(), 1);
    assert_eq!(p.b.len(), 1);
    assert_eq!(p.c.len(), 1);
    let mut a2 = LinearCombination::zero();
    a2.add_term(w, one);
    p.enforce(&a2, &LinearCombination::zero(), &LinearCombination::zero());
    assert_eq!(p.a.len(), 2);
    assert_eq!(p.b.len(), 2);
    assert_eq!(p.c.len(), 2);
    // x * 1 == x: the first constraint evaluates to 7 on both sides
    assert_eq!(p.a[0], Fr { l0: 7, l1: 0, l2: 0, l3: 0 });
    assert_eq!(p.b[0], Fr { l0: 1, l1: 0, l2: 0, l3: 0 });
    assert_eq!(p.c[0], Fr { l0: 7, l1: 0, l2: 0, l3: 0 });
    // densities: b saw input 0; a saw aux 0 in the second constraint
    assert_eq!(p.b_input_density.get_total_density(), 1);
    assert_eq!(p.a_aux_density.get_total_density(), 1);
    assert_eq!(p.b_aux_density.get_total_density(), 0);
}

#[test]
fn scalar_validity_is_the_modulus_bound() {
    assert!(is_fr_valid(&Fr { l0: u64::MAX, l1: 0, l2: 0, l3: 0 }));
    // the modulus itself is not canonical
    let m = Fr {
        l0: 0xffffffff00000001,
        l1: 0x53bda402fffe5bfe,
        l2: 0x3339d80809a1d805,
        l3: 0x73eda753299d7d48,
    };
    assert!(!is_fr_valid(&m));
    let just_below = Fr {
        l0: 0xffffffff00000000,
        l1: 0x53bda402fffe5bfe,
        l2: 0x3339d80809a1d805,
        l3: 0x73eda753299d7d48,
    };
    assert!(is_fr_valid(&just_below));
}
