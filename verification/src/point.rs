use groupy::CurveAffine;
use groupy::CurveProjective;
use groupy::EncodedPoint;
use vstd::prelude::*;

use crate::fr::Fr;
use crate::fr::fr_limbs;

verus! {

// What an operation of the curve library returns is far too large to write
// down, but it is a function of its arguments alone, so each result is given
// a name over the canonical affine encodings.

/// Whether a byte string is the uncompressed encoding of a point of the
/// G1 subgroup, exactly as `G1Uncompressed::into_affine` accepts it.
pub uninterp spec fn g1_ok(s: Seq<u8>) -> bool;

/// The encoding of the sum of two encoded G1 points.
pub uninterp spec fn g1_add_of(a: Seq<u8>, b: Seq<u8>) -> Seq<u8>;

/// The encoding of the double of an encoded G1 point.
pub uninterp spec fn g1_double_of(a: Seq<u8>) -> Seq<u8>;

/// The encoding of an encoded G1 point multiplied by the integer held in
/// little-endian 64-bit limbs.
pub uninterp spec fn g1_mul_of(p: Seq<u8>, e: Seq<u64>) -> Seq<u8>;

/// Whether a byte string is the uncompressed encoding of a point of the
/// G2 subgroup, exactly as `G2Uncompressed::into_affine` accepts it.
pub uninterp spec fn g2_ok(s: Seq<u8>) -> bool;

/// The encoding of the sum of two encoded G2 points.
pub uninterp spec fn g2_add_of(a: Seq<u8>, b: Seq<u8>) -> Seq<u8>;

/// The encoding of the double of an encoded G2 point.
pub uninterp spec fn g2_double_of(a: Seq<u8>) -> Seq<u8>;

/// The encoding of an encoded G2 point multiplied by the integer held in
/// little-endian 64-bit limbs.
pub uninterp spec fn g2_mul_of(p: Seq<u8>, e: Seq<u64>) -> Seq<u8>;

/// The uncompressed encoding of the G1 identity: the infinity flag on an
/// otherwise zero string of 96 bytes.
pub open spec fn g1_ident() -> Seq<u8> {
    Seq::new(96, |i: int| if i == 0 { 0x40u8 } else { 0u8 })
}

/// The uncompressed encoding of the G2 identity: the infinity flag on an
/// otherwise zero string of 192 bytes.
pub open spec fn g2_ident() -> Seq<u8> {
    Seq::new(192, |i: int| if i == 0 { 0x40u8 } else { 0u8 })
}

/// A point of the G1 subgroup, held as its canonical uncompressed affine
/// encoding. Values are only built by the operations below, so every value
/// holds a valid 96-byte encoding.
#[derive(Debug)]
pub struct PointG1 {
    bytes: Vec<u8>,
}

impl View for PointG1 {
    type V = Seq<u8>;

    closed spec fn view(&self) -> Seq<u8> {
        self.bytes@
    }
}

impl Clone for PointG1 {
    fn clone(&self) -> (r: Self)
        ensures
            r@ == self@,
    {
        proof {
            use_type_invariant(self);
        }
        PointG1 { bytes: self.bytes.clone() }
    }
}

impl PointG1 {
    #[verifier::type_invariant]
    spec fn inv(self) -> bool {
        self.bytes@.len() == 96 && g1_ok(self.bytes@)
    }

    /// The bytes of the encoding.
    pub fn as_bytes(&self) -> (r: &Vec<u8>)
        ensures
            r@ == self@,
            r@.len() == 96,
    {
        proof {
            use_type_invariant(self);
        }
        &self.bytes
    }

    /// Whether this point is the group identity, decided on the canonical
    /// encoding.
    pub fn is_identity(&self) -> (r: bool)
        ensures
            r == (self@ == g1_ident()),
    {
        proof {
            use_type_invariant(self);
        }
        if self.bytes[0] != 0x40 {
            proof {
                assert(self@ != g1_ident()) by {
                    assert(g1_ident()[0] == 0x40u8);
                }
            }
            return false;
        }
        let mut i: usize = 1;
        while i < 96
            invariant
                1 <= i <= 96,
                self@.len() == 96,
                self@[0] == 0x40u8,
                forall|j: int| 1 <= j < i ==> self@[j] == 0u8,
            decreases 96 - i,
        {
            if self.bytes[i] != 0 {
                proof {
                    assert(g1_ident()[i as int] == 0u8);
                }
                return false;
            }
            i += 1;
        }
        proof {
            assert(self@ =~= g1_ident());
        }
        true
    }
}

/// Relies on groupy's `EncodedPoint::into_affine` for `G1Uncompressed`:
/// it accepts exactly the valid encodings of G1 subgroup points.
#[verifier::external_body]
pub fn g1_from_bytes(b: &Vec<u8>) -> (r: Option<PointG1>)
    ensures
        (r is Some) == (b@.len() == 96 && g1_ok(b@)),
        r is Some ==> r->Some_0@ == b@,
{
    if b.len() != 96 {
        return None;
    }
    let mut enc = paired::bls12_381::G1Uncompressed::empty();
    enc.as_mut().copy_from_slice(b.as_slice());
    match enc.into_affine() {
        Ok(_) => Some(PointG1 { bytes: b.clone() }),
        Err(_) => None,
    }
}

/// Relies on groupy's `EncodedPoint::from_affine` for `G1Uncompressed`: the
/// identity is encoded as the infinity flag on an otherwise zero string.
#[verifier::external_body]
pub fn g1_zero() -> (r: PointG1)
    ensures
        r@ == g1_ident(),
{
    let enc = paired::bls12_381::G1Uncompressed::from_affine(paired::bls12_381::G1Affine::zero());
    PointG1 { bytes: enc.as_ref().to_vec() }
}

/// Relies on groupy's `CurveProjective::add_assign_mixed` for paired's G1:
/// addition in the group, re-encoded in canonical affine form.
#[verifier::external_body]
pub fn g1_add(a: &PointG1, b: &PointG1) -> (r: PointG1)
    ensures
        r@ == g1_add_of(a@, b@),
{
    let mut ea = paired::bls12_381::G1Uncompressed::empty();
    ea.as_mut().copy_from_slice(a.bytes.as_slice());
    let mut eb = paired::bls12_381::G1Uncompressed::empty();
    eb.as_mut().copy_from_slice(b.bytes.as_slice());
    let mut p = ea.into_affine_unchecked().unwrap().into_projective();
    p.add_assign_mixed(&eb.into_affine_unchecked().unwrap());
    let enc = paired::bls12_381::G1Uncompressed::from_affine(p.into_affine());
    PointG1 { bytes: enc.as_ref().to_vec() }
}

/// Relies on groupy's `CurveProjective::double` for paired's G1: doubling in
/// the group, re-encoded in canonical affine form.
#[verifier::external_body]
pub fn g1_double(a: &PointG1) -> (r: PointG1)
    ensures
        r@ == g1_double_of(a@),
{
    let mut ea = paired::bls12_381::G1Uncompressed::empty();
    ea.as_mut().copy_from_slice(a.bytes.as_slice());
    let mut p = ea.into_affine_unchecked().unwrap().into_projective();
    p.double();
    let enc = paired::bls12_381::G1Uncompressed::from_affine(p.into_affine());
    PointG1 { bytes: enc.as_ref().to_vec() }
}

/// Relies on groupy's `CurveAffine::mul` for paired's G1: multiplication of a
/// point by the integer held in the scalar's limbs, re-encoded in canonical
/// affine form.
#[verifier::external_body]
pub fn g1_mul(p: &PointG1, e: &Fr) -> (r: PointG1)
    ensures
        r@ == g1_mul_of(p@, fr_limbs(*e)),
{
    let mut ep = paired::bls12_381::G1Uncompressed::empty();
    ep.as_mut().copy_from_slice(p.bytes.as_slice());
    let a = ep.into_affine_unchecked().unwrap();
    let q = a.mul(paired::bls12_381::FrRepr([e.l0, e.l1, e.l2, e.l3]));
    let enc = paired::bls12_381::G1Uncompressed::from_affine(q.into_affine());
    PointG1 { bytes: enc.as_ref().to_vec() }
}

/// A point of the G2 subgroup, held as its canonical uncompressed affine
/// encoding. Values are only built by the operations below, so every value
/// holds a valid 192-byte encoding.
#[derive(Debug)]
pub struct PointG2 {
    bytes: Vec<u8>,
}

impl View for PointG2 {
    type V = Seq<u8>;

    closed spec fn view(&self) -> Seq<u8> {
        self.bytes@
    }
}

impl Clone for PointG2 {
    fn clone(&self) -> (r: Self)
        ensures
            r@ == self@,
    {
        proof {
            use_type_invariant(self);
        }
        PointG2 { bytes: self.bytes.clone() }
    }
}

impl PointG2 {
    #[verifier::type_invariant]
    spec fn inv(self) -> bool {
        self.bytes@.len() == 192 && g2_ok(self.bytes@)
    }

    /// The bytes of the encoding.
    pub fn as_bytes(&self) -> (r: &Vec<u8>)
        ensures
            r@ == self@,
            r@.len() == 192,
    {
        proof {
            use_type_invariant(self);
        }
        &self.bytes
    }

    /// Whether this point is the group identity, decided on the canonical
    /// encoding.
    pub fn is_identity(&self) -> (r: bool)
        ensures
            r == (self@ == g2_ident()),
    {
        proof {
            use_type_invariant(self);
        }
        if self.bytes[0] != 0x40 {
            proof {
                assert(self@ != g2_ident()) by {
                    assert(g2_ident()[0] == 0x40u8);
                }
            }
            return false;
        }
        let mut i: usize = 1;
        while i < 192
            invariant
                1 <= i <= 192,
                self@.len() == 192,
                self@[0] == 0x40u8,
                forall|j: int| 1 <= j < i ==> self@[j] == 0u8,
            decreases 192 - i,
        {
            if self.bytes[i] != 0 {
                proof {
                    assert(g2_ident()[i as int] == 0u8);
                }
                return false;
            }
            i += 1;
        }
        proof {
            assert(self@ =~= g2_ident());
        }
        true
    }
}

/// Relies on groupy's `EncodedPoint::into_affine` for `G2Uncompressed`:
/// it accepts exactly the valid encodings of G2 subgroup points.
#[verifier::external_body]
pub fn g2_from_bytes(b: &Vec<u8>) -> (r: Option<PointG2>)
    ensures
        (r is Some) == (b@.len() == 192 && g2_ok(b@)),
        r is Some ==> r->Some_0@ == b@,
{
    if b.len() != 192 {
        return None;
    }
    let mut enc = paired::bls12_381::G2Uncompressed::empty();
    enc.as_mut().copy_from_slice(b.as_slice());
    match enc.into_affine() {
        Ok(_) => Some(PointG2 { bytes: b.clone() }),
        Err(_) => None,
    }
}

/// Relies on groupy's `EncodedPoint::from_affine` for `G2Uncompressed`: the
/// identity is encoded as the infinity flag on an otherwise zero string.
#[verifier::external_body]
pub fn g2_zero() -> (r: PointG2)
    ensures
        r@ == g2_ident(),
{
    let enc = paired::bls12_381::G2Uncompressed::from_affine(paired::bls12_381::G2Affine::zero());
    PointG2 { bytes: enc.as_ref().to_vec() }
}

/// Relies on groupy's `CurveProjective::add_assign_mixed` for paired's G2:
/// addition in the group, re-encoded in canonical affine form.
#[verifier::external_body]
pub fn g2_add(a: &PointG2, b: &PointG2) -> (r: PointG2)
    ensures
        r@ == g2_add_of(a@, b@),
{
    let mut ea = paired::bls12_381::G2Uncompressed::empty();
    ea.as_mut().copy_from_slice(a.bytes.as_slice());
    let mut eb = paired::bls12_381::G2Uncompressed::empty();
    eb.as_mut().copy_from_slice(b.bytes.as_slice());
    let mut p = ea.into_affine_unchecked().unwrap().into_projective();
    p.add_assign_mixed(&eb.into_affine_unchecked().unwrap());
    let enc = paired::bls12_381::G2Uncompressed::from_affine(p.into_affine());
    PointG2 { bytes: enc.as_ref().to_vec() }
}

/// Relies on groupy's `CurveProjective::double` for paired's G2: doubling in
/// the group, re-encoded in canonical affine form.
#[verifier::external_body]
pub fn g2_double(a: &PointG2) -> (r: PointG2)
    ensures
        r@ == g2_double_of(a@),
{
    let mut ea = paired::bls12_381::G2Uncompressed::empty();
    ea.as_mut().copy_from_slice(a.bytes.as_slice());
    let mut p = ea.into_affine_unchecked().unwrap().into_projective();
    p.double();
    let enc = paired::bls12_381::G2Uncompressed::from_affine(p.into_affine());
    PointG2 { bytes: enc.as_ref().to_vec() }
}

/// Relies on groupy's `CurveAffine::mul` for paired's G2: multiplication of a
/// point by the integer held in the scalar's limbs, re-encoded in canonical
/// affine form.
#[verifier::external_body]
pub fn g2_mul(p: &PointG2, e: &Fr) -> (r: PointG2)
    ensures
        r@ == g2_mul_of(p@, fr_limbs(*e)),
{
    let mut ep = paired::bls12_381::G2Uncompressed::empty();
    ep.as_mut().copy_from_slice(p.bytes.as_slice());
    let a = ep.into_affine_unchecked().unwrap();
    let q = a.mul(paired::bls12_381::FrRepr([e.l0, e.l1, e.l2, e.l3]));
    let enc = paired::bls12_381::G2Uncompressed::from_affine(q.into_affine());
    PointG2 { bytes: enc.as_ref().to_vec() }
}

} // verus!
