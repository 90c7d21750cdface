use fff::Field;
use fff::PrimeField;
use vstd::prelude::*;

verus! {

/// An element of the BLS12-381 scalar field, held in its canonical
/// little-endian 64-bit limb representation. A well-formed value satisfies
/// `fr_valid`, that is, it encodes an integer below the field modulus.
#[derive(Clone, Copy, PartialEq, Eq, Structural, Debug, Hash)]
pub struct Fr {
    pub l0: u64,
    pub l1: u64,
    pub l2: u64,
    pub l3: u64,
}

/// The order of the BLS12-381 scalar field.
pub open spec fn r_modulus() -> nat {
    0x73eda753299d7d483339d80809a1d80553bda402fffe5bfeffffffff00000001nat
}

/// The integer a scalar encodes.
pub open spec fn fr_nat(f: Fr) -> nat {
    (f.l0
        + f.l1 * 0x10000000000000000
        + f.l2 * 0x100000000000000000000000000000000nat
        + f.l3 * 0x1000000000000000000000000000000000000000000000000nat) as nat
}

/// A scalar is valid when it is the canonical representation of a field
/// element, i.e. its integer value is below the modulus.
pub open spec fn fr_valid(f: Fr) -> bool {
    fr_nat(f) < r_modulus()
}

/// The limbs of a scalar, least significant first.
pub open spec fn fr_limbs(f: Fr) -> Seq<u64> {
    seq![f.l0, f.l1, f.l2, f.l3]
}

/// The integer encoded by a little-endian sequence of 64-bit limbs.
pub open spec fn limbs_nat(s: Seq<u64>) -> nat
    decreases s.len(),
{
    if s.len() == 0 {
        0
    } else {
        (s[0] + limbs_nat(s.subrange(1, s.len() as int)) * 0x10000000000000000) as nat
    }
}

/// Modular exponentiation by repeated multiplication: `b^e mod r`.
pub open spec fn pow_mod(b: nat, e: nat) -> nat
    decreases e,
{
    if e == 0 {
        1
    } else {
        (b * pow_mod(b, (e - 1) as nat)) % r_modulus()
    }
}

/// The canonical limb representation of an integer below `2^256`.
pub open spec fn fr_of_nat(v: nat) -> Fr {
    Fr {
        l0: (v % 0x10000000000000000) as u64,
        l1: ((v / 0x10000000000000000) % 0x10000000000000000) as u64,
        l2: ((v / 0x100000000000000000000000000000000nat) % 0x10000000000000000) as u64,
        l3: ((v / 0x1000000000000000000000000000000000000000000000000nat) % 0x10000000000000000)
            as u64,
    }
}

/// Every scalar is the canonical representation of its value.
pub proof fn lemma_fr_of_nat_roundtrip(f: Fr)
    ensures
        fr_of_nat(fr_nat(f)) == f,
{
    let m: int = 0x10000000000000000;
    let v = fr_nat(f) as int;
    let q1: int = f.l1 + f.l2 * m + f.l3 * m * m;
    assert(v == q1 * m + f.l0) by (nonlinear_arith)
        requires
            v == f.l0 + f.l1 * 0x10000000000000000 + f.l2 * 0x100000000000000000000000000000000nat
                + f.l3 * 0x1000000000000000000000000000000000000000000000000nat,
            q1 == f.l1 + f.l2 * m + f.l3 * m * m,
            m == 0x10000000000000000,
    ;
    vstd::arithmetic::div_mod::lemma_fundamental_div_mod_converse(v, m, q1, f.l0 as int);
    let q2: int = f.l2 + f.l3 * m;
    assert(q1 == q2 * m + f.l1) by (nonlinear_arith)
        requires
            q1 == f.l1 + f.l2 * m + f.l3 * m * m,
            q2 == f.l2 + f.l3 * m,
            m == 0x10000000000000000,
    ;
    vstd::arithmetic::div_mod::lemma_fundamental_div_mod_converse(q1, m, q2, f.l1 as int);
    let q3: int = f.l3 as int;
    vstd::arithmetic::div_mod::lemma_fundamental_div_mod_converse(q2, m, q3, f.l2 as int);
    vstd::arithmetic::div_mod::lemma_fundamental_div_mod_converse(q3, m, 0, f.l3 as int);
    vstd::arithmetic::div_mod::lemma_div_denominator(v, m, m);
    vstd::arithmetic::div_mod::lemma_div_denominator(v, m * m, m);
    assert(v / (m * m) == q2);
    assert((v / (m * m)) / m == q3);
    assert(m * m * m == 0x1000000000000000000000000000000000000000000000000);
    assert(m * m == 0x100000000000000000000000000000000);
}

/// A scalar sequence equals a sequence of canonical representations when
/// the values match pointwise.
pub proof fn lemma_frs_match(s: Seq<Fr>, t: Seq<Fr>)
    requires
        s.len() == t.len(),
        forall|i: int| 0 <= i < s.len() ==> #[trigger] t[i] == fr_of_nat(fr_nat(s[i])),
    ensures
        s == t,
{
    assert forall|i: int| 0 <= i < s.len() implies s[i] == t[i] by {
        lemma_fr_of_nat_roundtrip(s[i]);
    }
    assert(s =~= t);
}

/// The inverse of a unit modulo the field order.
pub open spec fn inv_mod(a: nat) -> nat {
    choose|x: nat| (#[trigger] (a * x)) % r_modulus() == 1 && x < r_modulus()
}

/// Inverses are unique modulo a prime, so any witness is the inverse.
pub proof fn lemma_inv_mod_is(a: nat, x: nat)
    requires
        x < r_modulus(),
        (a * x) % r_modulus() == 1,
    ensures
        inv_mod(a) == x,
{
    assert(exists|z: nat| (#[trigger] (a * z)) % r_modulus() == 1 && z < r_modulus()) by {
        assert(x < r_modulus() && (a * x) % r_modulus() == 1);
    }
    let y = inv_mod(a);
    assert(y < r_modulus() && (a * y) % r_modulus() == 1);
    lemma_mod_inverse_unique(a, x, y);
}

proof fn lemma_mod_inverse_unique(a: nat, x: nat, y: nat)
    requires
        x < r_modulus(),
        y < r_modulus(),
        (a * x) % r_modulus() == 1,
        (a * y) % r_modulus() == 1,
    ensures
        x == y,
{
    let m = r_modulus() as int;
    let ax = (a * x) as int;
    let ay = (a * y) as int;
    vstd::arithmetic::div_mod::lemma_mul_mod_noop_right(x as int, ay, m);
    assert(x as int * ay == (x * a) * y) by (nonlinear_arith)
        requires
            ay == (a * y) as int,
    ;
    vstd::arithmetic::div_mod::lemma_mul_mod_noop_left((x * a) as int, y as int, m);
    assert(x * a == a * x) by (nonlinear_arith);
    vstd::arithmetic::div_mod::lemma_small_mod(y, r_modulus());
    vstd::arithmetic::div_mod::lemma_small_mod(x, r_modulus());
    assert((x as int * (ay % m)) % m == y as int % m);
    assert((x as int * 1) % m == x as int % m);
}

pub const FR_MODULUS_L0: u64 = 0xffffffff00000001;
pub const FR_MODULUS_L1: u64 = 0x53bda402fffe5bfe;
pub const FR_MODULUS_L2: u64 = 0x3339d80809a1d805;
pub const FR_MODULUS_L3: u64 = 0x73eda753299d7d48;

proof fn lemma_modulus_limbs()
    ensures
        r_modulus() == FR_MODULUS_L0
            + FR_MODULUS_L1 * 0x10000000000000000
            + FR_MODULUS_L2 * 0x100000000000000000000000000000000nat
            + FR_MODULUS_L3 * 0x1000000000000000000000000000000000000000000000000nat,
{
}

/// Comparing limb by limb from the most significant end decides the order of
/// the encoded integers.
proof fn lemma_lex_decides(f: Fr, m0: u64, m1: u64, m2: u64, m3: u64)
    ensures
        (fr_nat(f) < m0
            + m1 * 0x10000000000000000
            + m2 * 0x100000000000000000000000000000000nat
            + m3 * 0x1000000000000000000000000000000000000000000000000nat) <==> (f.l3 < m3 || (f.l3
            == m3 && (f.l2 < m2 || (f.l2 == m2 && (f.l1 < m1 || (f.l1 == m1 && f.l0 < m0)))))),
{
}

/// The zero scalar.
pub fn fr_zero() -> (r: Fr)
    ensures
        fr_valid(r),
        fr_nat(r) == 0,
{
    Fr { l0: 0, l1: 0, l2: 0, l3: 0 }
}

/// The scalar one.
pub fn fr_one() -> (r: Fr)
    ensures
        fr_valid(r),
        fr_nat(r) == 1,
{
    Fr { l0: 1, l1: 0, l2: 0, l3: 0 }
}

/// The scalar encoding a small integer.
pub fn fr_from_u64(v: u64) -> (r: Fr)
    ensures
        fr_valid(r),
        fr_nat(r) == v,
{
    Fr { l0: v, l1: 0, l2: 0, l3: 0 }
}

/// Whether a limb representation encodes a field element.
pub fn is_fr_valid(f: &Fr) -> (r: bool)
    ensures
        r == fr_valid(*f),
{
    proof {
        lemma_modulus_limbs();
        lemma_lex_decides(*f, FR_MODULUS_L0, FR_MODULUS_L1, FR_MODULUS_L2, FR_MODULUS_L3);
    }
    if f.l3 != FR_MODULUS_L3 {
        f.l3 < FR_MODULUS_L3
    } else if f.l2 != FR_MODULUS_L2 {
        f.l2 < FR_MODULUS_L2
    } else if f.l1 != FR_MODULUS_L1 {
        f.l1 < FR_MODULUS_L1
    } else {
        f.l0 < FR_MODULUS_L0
    }
}

/// Relies on fff's `Field::add_assign` for paired's BLS12-381 `Fr`: addition
/// in the prime field of order `r_modulus()`, with `from_repr`/`into_repr`
/// converting between the canonical limbs and the field element.
#[verifier::external_body]
pub fn fr_add(a: &Fr, b: &Fr) -> (r: Fr)
    requires
        fr_valid(*a),
        fr_valid(*b),
    ensures
        fr_valid(r),
        fr_nat(r) == (fr_nat(*a) + fr_nat(*b)) % r_modulus(),
{
    let mut x = paired::bls12_381::Fr::from_repr(paired::bls12_381::FrRepr([a.l0, a.l1, a.l2, a.l3])).unwrap();
    let y = paired::bls12_381::Fr::from_repr(paired::bls12_381::FrRepr([b.l0, b.l1, b.l2, b.l3])).unwrap();
    fff::Field::add_assign(&mut x, &y);
    let o = fff::PrimeField::into_repr(&x).0;
    Fr { l0: o[0], l1: o[1], l2: o[2], l3: o[3] }
}

/// Relies on fff's `Field::sub_assign` for paired's BLS12-381 `Fr`:
/// subtraction in the prime field of order `r_modulus()`.
#[verifier::external_body]
pub fn fr_sub(a: &Fr, b: &Fr) -> (r: Fr)
    requires
        fr_valid(*a),
        fr_valid(*b),
    ensures
        fr_valid(r),
        fr_nat(r) == ((fr_nat(*a) + r_modulus() - fr_nat(*b)) as nat) % r_modulus(),
{
    let mut x = paired::bls12_381::Fr::from_repr(paired::bls12_381::FrRepr([a.l0, a.l1, a.l2, a.l3])).unwrap();
    let y = paired::bls12_381::Fr::from_repr(paired::bls12_381::FrRepr([b.l0, b.l1, b.l2, b.l3])).unwrap();
    fff::Field::sub_assign(&mut x, &y);
    let o = fff::PrimeField::into_repr(&x).0;
    Fr { l0: o[0], l1: o[1], l2: o[2], l3: o[3] }
}

/// Relies on fff's `Field::mul_assign` for paired's BLS12-381 `Fr`:
/// multiplication in the prime field of order `r_modulus()`.
#[verifier::external_body]
pub fn fr_mul(a: &Fr, b: &Fr) -> (r: Fr)
    requires
        fr_valid(*a),
        fr_valid(*b),
    ensures
        fr_valid(r),
        fr_nat(r) == (fr_nat(*a) * fr_nat(*b)) % r_modulus(),
{
    let mut x = paired::bls12_381::Fr::from_repr(paired::bls12_381::FrRepr([a.l0, a.l1, a.l2, a.l3])).unwrap();
    let y = paired::bls12_381::Fr::from_repr(paired::bls12_381::FrRepr([b.l0, b.l1, b.l2, b.l3])).unwrap();
    fff::Field::mul_assign(&mut x, &y);
    let o = fff::PrimeField::into_repr(&x).0;
    Fr { l0: o[0], l1: o[1], l2: o[2], l3: o[3] }
}

/// Relies on fff's `Field::inverse` for paired's BLS12-381 `Fr`: returns the
/// multiplicative inverse of a nonzero element, and `None` exactly on zero.
#[verifier::external_body]
pub fn fr_inverse(a: &Fr) -> (r: Option<Fr>)
    requires
        fr_valid(*a),
    ensures
        r is Some <==> fr_nat(*a) != 0,
        r is Some ==> fr_valid(r->Some_0) && (fr_nat(*a) * fr_nat(r->Some_0)) % r_modulus() == 1,
{
    let x = paired::bls12_381::Fr::from_repr(paired::bls12_381::FrRepr([a.l0, a.l1, a.l2, a.l3])).unwrap();
    match fff::Field::inverse(&x) {
        None => None,
        Some(y) => {
            let o = fff::PrimeField::into_repr(&y).0;
            Some(Fr { l0: o[0], l1: o[1], l2: o[2], l3: o[3] })
        }
    }
}

/// Relies on fff's `Field::pow` for paired's BLS12-381 `Fr`: exponentiation
/// by an integer given as little-endian 64-bit limbs.
#[verifier::external_body]
pub fn fr_pow(a: &Fr, e: &Vec<u64>) -> (r: Fr)
    requires
        fr_valid(*a),
    ensures
        fr_valid(r),
        fr_nat(r) == pow_mod(fr_nat(*a), limbs_nat(e@)) % r_modulus(),
{
    let x = paired::bls12_381::Fr::from_repr(paired::bls12_381::FrRepr([a.l0, a.l1, a.l2, a.l3])).unwrap();
    let y = fff::Field::pow(&x, e.as_slice());
    let o = fff::PrimeField::into_repr(&y).0;
    Fr { l0: o[0], l1: o[1], l2: o[2], l3: o[3] }
}

} // verus!
