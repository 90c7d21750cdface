use vstd::arithmetic::power2::pow2;
use vstd::prelude::*;

use crate::density::DensityTracker;
use crate::density::popcount;
use crate::err::GPUError;
use crate::fr::Fr;
use crate::fr::fr_limbs;
use crate::fr::fr_nat;
use crate::point::PointG1;
use crate::point::PointG2;
use crate::point::g1_add;
use crate::point::g1_add_of;
use crate::point::g1_ident;
use crate::point::g1_mul;
use crate::point::g1_mul_of;
use crate::point::g1_zero;
use crate::point::g2_add;
use crate::point::g2_add_of;
use crate::point::g2_ident;
use crate::point::g2_mul;
use crate::point::g2_mul_of;
use crate::point::g2_zero;

verus! {

/// The number of scalars each CPU chunk of `only_cpu_multiexp` takes.
pub const CPU_CHUNK_CORES: usize = 4;

/// Bytes of one scalar representation.
pub const EXP_SIZE: usize = 32;

/// Bits of one scalar representation.
pub const EXP_BITS: usize = 256;

/// The size of one scalar representation in bytes.
pub fn exp_size() -> (r: usize)
    ensures
        r == EXP_SIZE,
{
    EXP_SIZE
}

/// The encodings of a sequence of G1 points.
pub open spec fn g1_views(s: Seq<PointG1>) -> Seq<Seq<u8>> {
    s.map_values(|p: PointG1| p@)
}

/// The encodings of a sequence of G2 points.
pub open spec fn g2_views(s: Seq<PointG2>) -> Seq<Seq<u8>> {
    s.map_values(|p: PointG2| p@)
}

/// The multi-scalar sum `sum e_j * B_(skip+j)` over `j` in `[lo, hi)`,
/// folded left over the named G1 operations from the identity.
pub open spec fn msm_g1(
    basesv: Seq<Seq<u8>>,
    exps: Seq<Fr>,
    skip: nat,
    lo: nat,
    hi: nat,
) -> Seq<u8>
    decreases hi,
{
    if hi <= lo {
        g1_ident()
    } else {
        g1_add_of(
            msm_g1(basesv, exps, skip, lo, (hi - 1) as nat),
            g1_mul_of(basesv[(skip + hi - 1) as int], fr_limbs(exps[(hi - 1) as int])),
        )
    }
}

/// The multi-scalar sum over G2, folded the same way.
pub open spec fn msm_g2(
    basesv: Seq<Seq<u8>>,
    exps: Seq<Fr>,
    skip: nat,
    lo: nat,
    hi: nat,
) -> Seq<u8>
    decreases hi,
{
    if hi <= lo {
        g2_ident()
    } else {
        g2_add_of(
            msm_g2(basesv, exps, skip, lo, (hi - 1) as nat),
            g2_mul_of(basesv[(skip + hi - 1) as int], fr_limbs(exps[(hi - 1) as int])),
        )
    }
}

/// The sum of the first `c` chunk sums, each chunk holding `chunk` scalars
/// (the last possibly fewer), folded left from the identity.
pub open spec fn msm_chunked_g1(
    basesv: Seq<Seq<u8>>,
    exps: Seq<Fr>,
    skip: nat,
    chunk: nat,
    c: nat,
) -> Seq<u8>
    decreases c,
{
    if c == 0 {
        g1_ident()
    } else {
        g1_add_of(
            msm_chunked_g1(basesv, exps, skip, chunk, (c - 1) as nat),
            msm_g1(
                basesv,
                exps,
                skip,
                ((c - 1) * chunk) as nat,
                if c * chunk <= exps.len() {
                    c * chunk
                } else {
                    exps.len()
                },
            ),
        )
    }
}

/// Multi-scalar multiplication over G1 at full density: every scalar is
/// paired with the base at its own index after `skip`.
pub fn multiexp_fulldensity_g1(bases: &Vec<PointG1>, exps: &Vec<Fr>, skip: usize) -> (r: PointG1)
    requires
        skip + exps@.len() <= bases@.len(),
    ensures
        r@ == msm_g1(g1_views(bases@), exps@, skip as nat, 0, exps@.len() as nat),
{
    let mut acc = g1_zero();
    let bn = bases.len();
    let mut j: usize = 0;
    while j < exps.len()
        invariant
            j <= exps@.len(),
            skip + exps@.len() <= bases@.len(),
            bn == bases@.len(),
            acc@ == msm_g1(g1_views(bases@), exps@, skip as nat, 0, j as nat),
        decreases exps@.len() - j,
    {
        let t = g1_mul(&bases[skip + j], &exps[j]);
        acc = g1_add(&acc, &t);
        j += 1;
    }
    acc
}

/// Multi-scalar multiplication over G2 at full density.
pub fn multiexp_fulldensity_g2(bases: &Vec<PointG2>, exps: &Vec<Fr>, skip: usize) -> (r: PointG2)
    requires
        skip + exps@.len() <= bases@.len(),
    ensures
        r@ == msm_g2(g2_views(bases@), exps@, skip as nat, 0, exps@.len() as nat),
{
    let mut acc = g2_zero();
    let bn = bases.len();
    let mut j: usize = 0;
    while j < exps.len()
        invariant
            j <= exps@.len(),
            skip + exps@.len() <= bases@.len(),
            bn == bases@.len(),
            acc@ == msm_g2(g2_views(bases@), exps@, skip as nat, 0, j as nat),
        decreases exps@.len() - j,
    {
        let t = g2_mul(&bases[skip + j], &exps[j]);
        acc = g2_add(&acc, &t);
        j += 1;
    }
    acc
}

/// CPU-only multi-scalar multiplication: the scalars are cut into chunks of
/// `ceil(n / CPU_CHUNK_CORES)` and the chunk sums are accumulated in order.
/// As in the heterogeneous driver, the effective length is the number of
/// scalars; the bases are taken from `skip` on.
pub fn only_cpu_multiexp(bases: &Vec<PointG1>, exps: &Vec<Fr>, skip: usize, _n: usize) -> (r:
    Result<PointG1, GPUError>)
    requires
        skip + exps@.len() <= bases@.len(),
    ensures
        r is Ok,
        ({
            let chunk = (exps@.len() + CPU_CHUNK_CORES - 1) as nat / (CPU_CHUNK_CORES as nat);
            let c = if chunk == 0 {
                0nat
            } else {
                ((exps@.len() + chunk - 1) as nat) / chunk
            };
            r->Ok_0@ == msm_chunked_g1(g1_views(bases@), exps@, skip as nat, chunk, c)
        }),
{
    let n = exps.len();
    let chunk: usize = n / CPU_CHUNK_CORES + if n % CPU_CHUNK_CORES != 0 {
        1
    } else {
        0
    };
    proof {
        assert(chunk == (n + CPU_CHUNK_CORES - 1) as nat / (CPU_CHUNK_CORES as nat))
            by (nonlinear_arith)
            requires
                chunk == n / CPU_CHUNK_CORES + if n % CPU_CHUNK_CORES != 0 {
                    1int
                } else {
                    0int
                },
                CPU_CHUNK_CORES == 4,
                n >= 0,
        ;
    }
    let mut acc = g1_zero();
    if chunk == 0 {
        return Ok(acc);
    }
    let ghost chunkn = chunk as nat;
    let mut c: usize = 0;
    let mut lo: usize = 0;
    while lo < n
        invariant
            chunk >= 1,
            chunkn == chunk as nat,
            n == exps@.len(),
            skip + n <= bases@.len(),
            lo as int == (if c * chunkn <= n as nat {
                (c * chunkn) as int
            } else {
                n as int
            }),
            c == 0 || (c - 1) * chunkn < n as nat,
            c <= n,
            acc@ == msm_chunked_g1(g1_views(bases@), exps@, skip as nat, chunkn, c as nat),
        decreases n - lo,
    {
        proof {
            assert(c * chunkn == lo as nat);
            assert((c + 1) * chunkn == c * chunkn + chunkn) by (nonlinear_arith);
            assert(c < n) by (nonlinear_arith)
                requires
                    c * chunkn < n as nat,
                    chunkn >= 1,
                    c >= 0,
            ;
        }
        let hi = if n - lo > chunk {
            lo + chunk
        } else {
            n
        };
        let mut part = g1_zero();
        let bn = bases.len();
        let mut j: usize = lo;
        while j < hi
            invariant
                lo <= j <= hi <= n,
                n == exps@.len(),
                skip + n <= bases@.len(),
                bn == bases@.len(),
                part@ == msm_g1(g1_views(bases@), exps@, skip as nat, lo as nat, j as nat),
            decreases hi - j,
        {
            let t = g1_mul(&bases[skip + j], &exps[j]);
            part = g1_add(&part, &t);
            j += 1;
        }
        acc = g1_add(&acc, &part);
        c += 1;
        lo = hi;
    }
    proof {
        if n > 0 {
            assert(c * chunkn >= n as nat);
            assert((c - 1) * chunkn < n as nat);
            assert(c as int == ((n as nat + chunkn - 1) as int / chunkn as int)) by (nonlinear_arith)
                requires
                    chunkn >= 1,
                    c * chunkn >= n as nat,
                    (c - 1) * chunkn < n as nat,
                    c >= 1,
                    n as nat >= 1,
            ;
        }
    }
    Ok(acc)
}

/// The subsequence of the positions whose density bit is set, in order.
pub open spec fn filter_seq<T>(s: Seq<T>, d: Seq<bool>) -> Seq<T>
    decreases s.len(),
{
    if s.len() == 0 {
        Seq::empty()
    } else if d[s.len() - 1] {
        filter_seq(s.drop_last(), d.subrange(0, s.len() - 1)).push(s.last())
    } else {
        filter_seq(s.drop_last(), d.subrange(0, s.len() - 1))
    }
}

/// Filtering keeps as many elements as the density has set bits.
pub proof fn lemma_filter_len<T>(s: Seq<T>, d: Seq<bool>)
    requires
        s.len() == d.len(),
    ensures
        filter_seq(s, d).len() == popcount(d),
    decreases s.len(),
{
    if s.len() > 0 {
        assert(d.subrange(0, s.len() - 1) =~= d.drop_last());
        lemma_filter_len(s.drop_last(), d.drop_last());
    }
}

/// Select the base and scalar pairs whose density bit is set, preserving
/// their relative order; the result feeds the skip-density multiexp.
pub fn density_filter_g1(bases: &Vec<PointG1>, density: &DensityTracker, exps: &Vec<Fr>) -> (r: (
    Vec<PointG1>,
    Vec<Fr>,
))
    requires
        density@.len() == exps@.len(),
        exps@.len() <= bases@.len(),
    ensures
        g1_views(r.0@) == filter_seq(g1_views(bases@.subrange(0, exps@.len() as int)), density@),
        r.1@ == filter_seq(exps@, density@),
        r.0@.len() == popcount(density@),
        r.1@.len() == popcount(density@),
{
    let mut out_b: Vec<PointG1> = Vec::new();
    let mut out_e: Vec<Fr> = Vec::new();
    let n = exps.len();
    let mut i: usize = 0;
    while i < n
        invariant
            i <= n,
            n == exps@.len(),
            n == density@.len(),
            n <= bases@.len(),
            g1_views(out_b@) == filter_seq(
                g1_views(bases@.subrange(0, i as int)),
                density@.subrange(0, i as int),
            ),
            out_e@ == filter_seq(exps@.subrange(0, i as int), density@.subrange(0, i as int)),
            out_b@.len() == out_e@.len(),
        decreases n - i,
    {
        proof {
            let bv = g1_views(bases@.subrange(0, i + 1));
            assert(bv.drop_last() =~= g1_views(bases@.subrange(0, i as int)));
            assert(bv.last() == bases@[i as int]@);
            assert(density@.subrange(0, i + 1).subrange(0, i as int) =~= density@.subrange(
                0,
                i as int,
            ));
            assert(exps@.subrange(0, i + 1).drop_last() =~= exps@.subrange(0, i as int));
        }
        if density.get(i) {
            let p = bases[i].clone();
            out_b.push(p);
            out_e.push(exps[i]);
            proof {
                assert(g1_views(out_b@) =~= filter_seq(
                    g1_views(bases@.subrange(0, i as int)),
                    density@.subrange(0, i as int),
                ).push(bases@[i as int]@));
            }
        }
        i += 1;
    }
    proof {
        assert(density@.subrange(0, n as int) =~= density@);
        assert(exps@.subrange(0, n as int) =~= exps@);
        lemma_filter_len(exps@, density@);
        lemma_filter_len(g1_views(bases@.subrange(0, n as int)), density@);
    }
    (out_b, out_e)
}

/// Select the G2 base and scalar pairs whose density bit is set, preserving
/// their relative order.
pub fn density_filter_g2(bases: &Vec<PointG2>, density: &DensityTracker, exps: &Vec<Fr>) -> (r: (
    Vec<PointG2>,
    Vec<Fr>,
))
    requires
        density@.len() == exps@.len(),
        exps@.len() <= bases@.len(),
    ensures
        g2_views(r.0@) == filter_seq(g2_views(bases@.subrange(0, exps@.len() as int)), density@),
        r.1@ == filter_seq(exps@, density@),
        r.0@.len() == popcount(density@),
        r.1@.len() == popcount(density@),
{
    let mut out_b: Vec<PointG2> = Vec::new();
    let mut out_e: Vec<Fr> = Vec::new();
    let n = exps.len();
    let mut i: usize = 0;
    while i < n
        invariant
            i <= n,
            n == exps@.len(),
            n == density@.len(),
            n <= bases@.len(),
            g2_views(out_b@) == filter_seq(
                g2_views(bases@.subrange(0, i as int)),
                density@.subrange(0, i as int),
            ),
            out_e@ == filter_seq(exps@.subrange(0, i as int), density@.subrange(0, i as int)),
            out_b@.len() == out_e@.len(),
        decreases n - i,
    {
        proof {
            let bv = g2_views(bases@.subrange(0, i + 1));
            assert(bv.drop_last() =~= g2_views(bases@.subrange(0, i as int)));
            assert(bv.last() == bases@[i as int]@);
            assert(density@.subrange(0, i + 1).subrange(0, i as int) =~= density@.subrange(
                0,
                i as int,
            ));
            assert(exps@.subrange(0, i + 1).drop_last() =~= exps@.subrange(0, i as int));
        }
        if density.get(i) {
            let p = bases[i].clone();
            out_b.push(p);
            out_e.push(exps[i]);
            proof {
                assert(g2_views(out_b@) =~= filter_seq(
                    g2_views(bases@.subrange(0, i as int)),
                    density@.subrange(0, i as int),
                ).push(bases@[i as int]@));
            }
        }
        i += 1;
    }
    proof {
        assert(density@.subrange(0, n as int) =~= density@);
        assert(exps@.subrange(0, n as int) =~= exps@);
        lemma_filter_len(exps@, density@);
        lemma_filter_len(g2_views(bases@.subrange(0, n as int)), density@);
    }
    (out_b, out_e)
}

/// The `width`-bit window of a scalar's integer starting at bit `shift`.
pub open spec fn window_value_spec(e: Fr, shift: nat, width: nat) -> nat {
    (fr_nat(e) / pow2(shift)) % pow2(width)
}

/// The limb holding bit position `64 * k`.
pub open spec fn limb_at(e: Fr, k: nat) -> u64 {
    if k == 0 {
        e.l0
    } else if k == 1 {
        e.l1
    } else if k == 2 {
        e.l2
    } else {
        e.l3
    }
}

/// Reading one bit of the encoded integer reads that bit of its limb.
proof fn lemma_fr_bit(e: Fr, b: nat)
    requires
        b < 256,
    ensures
        (fr_nat(e) / pow2(b)) % 2 == ((limb_at(e, b / 64) as nat) / pow2(b % 64)) % 2,
{
    let k = b / 64;
    let off = b % 64;
    vstd::arithmetic::div_mod::lemma_fundamental_div_mod(b as int, 64);
    vstd::arithmetic::power2::lemma2_to64();
    let m64: nat = 0x10000000000000000;
    assert(pow2(64) == m64);
    assert(pow2(128) == 0x100000000000000000000000000000000nat) by {
        vstd::arithmetic::power2::lemma_pow2_adds(64, 64);
    }
    assert(pow2(192) == 0x1000000000000000000000000000000000000000000000000nat) by {
        vstd::arithmetic::power2::lemma_pow2_adds(128, 64);
    }
    let limb = limb_at(e, k) as nat;
    let low: nat = if k == 0 {
        0
    } else if k == 1 {
        e.l0 as nat
    } else if k == 2 {
        (e.l0 + e.l1 * m64) as nat
    } else {
        (e.l0 + e.l1 * m64 + e.l2 * pow2(128)) as nat
    };
    let high: nat = if k == 0 {
        (e.l1 + e.l2 * m64 + e.l3 * pow2(128)) as nat
    } else if k == 1 {
        (e.l2 + e.l3 * m64) as nat
    } else if k == 2 {
        e.l3 as nat
    } else {
        0
    };
    assert(low < pow2((64 * k) as nat));
    assert(fr_nat(e) == (limb + m64 * high) * pow2((64 * k) as nat) + low) by (nonlinear_arith)
        requires
            m64 == 0x10000000000000000,
            pow2(128) == m64 * m64,
            pow2(192) == m64 * m64 * m64,
            pow2(0) == 1,
            pow2(64) == m64,
            k == 0 || k == 1 || k == 2 || k == 3,
            limb == limb_at(e, k),
            low == (if k == 0 {
                0nat
            } else if k == 1 {
                e.l0 as nat
            } else if k == 2 {
                (e.l0 + e.l1 * m64) as nat
            } else {
                (e.l0 + e.l1 * m64 + e.l2 * (m64 * m64)) as nat
            }),
            high == (if k == 0 {
                (e.l1 + e.l2 * m64 + e.l3 * (m64 * m64)) as nat
            } else if k == 1 {
                (e.l2 + e.l3 * m64) as nat
            } else if k == 2 {
                e.l3 as nat
            } else {
                0nat
            }),
            limb_at(e, 0) == e.l0 && limb_at(e, 1) == e.l1 && limb_at(e, 2) == e.l2 && limb_at(
                e,
                3,
            ) == e.l3,
            fr_nat(e) == e.l0 + e.l1 * m64 + e.l2 * (m64 * m64) + e.l3 * (m64 * m64 * m64),
            pow2((64 * k) as nat) == (if k == 0 {
                1nat
            } else if k == 1 {
                m64
            } else if k == 2 {
                m64 * m64
            } else {
                m64 * m64 * m64
            }),
    ;
    vstd::arithmetic::div_mod::lemma_fundamental_div_mod_converse(
        fr_nat(e) as int,
        pow2((64 * k) as nat) as int,
        (limb + m64 * high) as int,
        low as int,
    );
    assert(fr_nat(e) / pow2((64 * k) as nat) == limb + m64 * high);
    vstd::arithmetic::power2::lemma_pow2_pos((64 * k) as nat);
    vstd::arithmetic::power2::lemma_pow2_pos(off);
    vstd::arithmetic::div_mod::lemma_div_denominator(
        fr_nat(e) as int,
        pow2((64 * k) as nat) as int,
        pow2(off) as int,
    );
    assert(pow2((64 * k) as nat) * pow2(off) == pow2(b)) by {
        vstd::arithmetic::power2::lemma_pow2_adds((64 * k) as nat, off);
    }
    assert(fr_nat(e) / pow2(b) == (limb + m64 * high) / pow2(off));
    let j: nat = (pow2((64 - off) as nat) * high) as nat;
    assert(pow2(off) * pow2((64 - off) as nat) == m64) by {
        vstd::arithmetic::power2::lemma_pow2_adds(off, (64 - off) as nat);
    }
    assert(j * pow2(off) == m64 * high) by (nonlinear_arith)
        requires
            j == pow2((64 - off) as nat) * high,
            pow2(off) * pow2((64 - off) as nat) == m64,
    ;
    vstd::arithmetic::div_mod::lemma_hoist_over_denominator(limb as int, j as int, pow2(off));
    assert((limb + m64 * high) / pow2(off) == limb / pow2(off) + j);
    assert(pow2((64 - off) as nat) == 2 * pow2((63 - off) as nat)) by {
        vstd::arithmetic::power2::lemma_pow2_unfold((64 - off) as nat);
    }
    assert(j == 2 * (pow2((63 - off) as nat) * high)) by (nonlinear_arith)
        requires
            j == pow2((64 - off) as nat) * high,
            pow2((64 - off) as nat) == 2 * pow2((63 - off) as nat),
    ;
    vstd::arithmetic::div_mod::lemma_mod_multiples_vanish(
        (pow2((63 - off) as nat) * high) as int,
        (limb / pow2(off)) as int,
        2,
    );
}

/// Extending a window by one bit adds that bit at the top.
proof fn lemma_window_step(e: Fr, shift: nat, t: nat)
    requires
        shift + t < 256,
    ensures
        window_value_spec(e, shift, t + 1) == window_value_spec(e, shift, t) + pow2(t) * ((fr_nat(
            e,
        ) / pow2((shift + t) as nat)) % 2),
{
    let x = fr_nat(e) / pow2(shift);
    vstd::arithmetic::power2::lemma_pow2_pos(t);
    vstd::arithmetic::power2::lemma_pow2_pos(shift);
    vstd::arithmetic::div_mod::lemma_mod_breakdown(x as int, pow2(t) as int, 2);
    assert(pow2(t) * 2 == pow2(t + 1)) by {
        vstd::arithmetic::power2::lemma_pow2_adds(t, 1);
        vstd::arithmetic::power2::lemma2_to64();
    }
    vstd::arithmetic::div_mod::lemma_div_denominator(
        fr_nat(e) as int,
        pow2(shift) as int,
        pow2(t) as int,
    );
    assert(pow2(shift) * pow2(t) == pow2(shift + t)) by {
        vstd::arithmetic::power2::lemma_pow2_adds(shift, t);
    }
    assert(x / pow2(t) == fr_nat(e) / pow2(shift + t));
}

/// Extract the `width`-bit window of a scalar starting at bit `shift`,
/// reading the bits out of the limbs.
pub fn window_value(e: &Fr, shift: usize, width: usize) -> (r: u64)
    requires
        1 <= width <= 63,
        shift + width <= 256,
    ensures
        r as nat == window_value_spec(*e, shift as nat, width as nat),
{
    let mut v: u64 = 0;
    proof {
        vstd::arithmetic::power2::lemma2_to64();
        assert((fr_nat(*e) / pow2(shift as nat)) % pow2(0) == 0) by {
            assert(pow2(0) == 1) by {
                vstd::arithmetic::power2::lemma2_to64();
            }
        }
    }
    let mut t: usize = 0;
    while t < width
        invariant
            t <= width,
            width <= 63,
            shift + width <= 256,
            v as nat == window_value_spec(*e, shift as nat, t as nat),
            (v as nat) < pow2(t as nat),
        decreases width - t,
    {
        let b = shift + t;
        let k = b / 64;
        let off = (b % 64) as u64;
        let limb = if k == 0 {
            e.l0
        } else if k == 1 {
            e.l1
        } else if k == 2 {
            e.l2
        } else {
            e.l3
        };
        let bit = (limb >> off) & 1;
        proof {
            vstd::bits::lemma_u64_shr_is_div(limb, off);
            assert((limb >> off) & 1 == (limb >> off) % 2) by (bit_vector);
            assert(limb == limb_at(*e, (b / 64) as nat));
            lemma_fr_bit(*e, b as nat);
            assert((limb >> off) as nat == (limb as nat) / pow2(off as nat));
            assert(bit as nat == (fr_nat(*e) / pow2(b as nat)) % 2) by {
                vstd::arithmetic::div_mod::lemma_mod_bound(
                    ((limb as nat) / pow2(off as nat)) as int,
                    2,
                );
            }
            lemma_window_step(*e, shift as nat, t as nat);
            assert(pow2(t as nat) <= 0x8000000000000000nat) by {
                if (t as nat) < 63 {
                    vstd::arithmetic::power2::lemma_pow2_strictly_increases(t as nat, 63);
                }
                vstd::arithmetic::power2::lemma2_to64_rest();
            }
            assert(bit as nat * pow2(t as nat) <= pow2(t as nat)) by (nonlinear_arith)
                requires
                    bit <= 1,
            ;
            vstd::bits::lemma_u64_shl_is_mul(bit, t as u64);
            vstd::arithmetic::power2::lemma_pow2_unfold((t + 1) as nat);
            assert((bit << (t as u64)) as nat == bit as nat * pow2(t as nat));
            assert(window_value_spec(*e, shift as nat, (t + 1) as nat) == window_value_spec(
                *e,
                shift as nat,
                t as nat,
            ) + pow2(t as nat) * ((fr_nat(*e) / pow2((shift + t) as nat)) % 2));
            assert(bit as nat == (fr_nat(*e) / pow2((shift + t) as nat)) % 2);
            assert(v as nat + (bit << (t as u64)) as nat == window_value_spec(
                *e,
                shift as nat,
                (t + 1) as nat,
            )) by (nonlinear_arith)
                requires
                    v as nat == window_value_spec(*e, shift as nat, t as nat),
                    (bit << (t as u64)) as nat == bit as nat * pow2(t as nat),
                    bit as nat == (fr_nat(*e) / pow2((shift + t) as nat)) % 2,
                    window_value_spec(*e, shift as nat, (t + 1) as nat) == window_value_spec(
                        *e,
                        shift as nat,
                        t as nat,
                    ) + pow2(t as nat) * ((fr_nat(*e) / pow2((shift + t) as nat)) % 2),
            ;
        }
        v = v + (bit << (t as u64));
        t += 1;
    }
    v
}

/// The fixed local work-group size of a device launch.
pub const LOCAL_WORK_SIZE: usize = 256;

/// The fixed tile size: at most this many elements go to a device at once.
pub const CHUNK_SIZE: usize = 33554466;

/// The window size used for G1 tiles.
pub const G1_WINDOW_SIZE: usize = 11;

/// The window size used for G2 tiles, whose projective elements are larger
/// than 144 bytes.
pub const G2_WINDOW_SIZE: usize = 8;

/// The window size policy: the narrower window for projective elements
/// larger than 144 bytes.
pub fn window_size_for(projective_size_bytes: usize) -> (r: usize)
    ensures
        r == (if projective_size_bytes > 144 {
            8int
        } else {
            11int
        }),
{
    if projective_size_bytes > 144 {
        8
    } else {
        11
    }
}

/// The bucket-parallelism heuristic: the best throughput shows when
/// `num_groups * num_windows` is about twice the device's core count.
pub fn calc_num_groups(core_count: usize, num_windows: usize) -> (r: usize)
    requires
        num_windows >= 1,
        2 * core_count <= usize::MAX,
    ensures
        r as int == 2 * (core_count as int) / (num_windows as int),
{
    2 * core_count / num_windows
}

/// The width of window `i`, scanning from the most significant end: full,
/// except for a shorter final window.
pub open spec fn win_width(w: nat, i: nat) -> nat {
    if 256 - i * w >= w {
        w
    } else {
        (256 - i * w) as nat
    }
}

/// The starting bit of window `i`.
pub open spec fn win_shift(w: nat, i: nat) -> nat {
    (256 - i * w - win_width(w, i)) as nat
}

/// The partial sum of one window over the elements `[lo, hi)`: each base
/// times the window's bits of its scalar.
pub open spec fn window_partial_g1(
    basesv: Seq<Seq<u8>>,
    exps: Seq<Fr>,
    lo: nat,
    hi: nat,
    shift: nat,
    width: nat,
) -> Seq<u8>
    decreases hi,
{
    if hi <= lo {
        g1_ident()
    } else {
        g1_add_of(
            window_partial_g1(basesv, exps, lo, (hi - 1) as nat, shift, width),
            g1_mul_of(
                basesv[hi - 1],
                seq![
                    window_value_spec(exps[hi - 1], shift, width) as u64,
                    0u64,
                    0u64,
                    0u64,
                ],
            ),
        )
    }
}

/// A point doubled `n` times.
pub open spec fn dbl_iter_g1(p: Seq<u8>, n: nat) -> Seq<u8>
    decreases n,
{
    if n == 0 {
        p
    } else {
        crate::point::g1_double_of(dbl_iter_g1(p, (n - 1) as nat))
    }
}

/// The accumulator after adding the partial sums of the first `g` groups
/// of one window, each group covering `gsize` elements of the tile.
pub open spec fn add_group_partials_g1(
    p: Seq<u8>,
    basesv: Seq<Seq<u8>>,
    exps: Seq<Fr>,
    n: nat,
    gsize: nat,
    g: nat,
    shift: nat,
    width: nat,
) -> Seq<u8>
    decreases g,
{
    if g == 0 {
        p
    } else {
        g1_add_of(
            add_group_partials_g1(p, basesv, exps, n, gsize, (g - 1) as nat, shift, width),
            window_partial_g1(
                basesv,
                exps,
                ((g - 1) * gsize) as nat,
                if g * gsize <= n {
                    g * gsize
                } else {
                    n
                },
                shift,
                width,
            ),
        )
    }
}

/// The kernel accumulator after the first `i` windows, most significant
/// first: double by the window's width, then add every group's partial.
pub open spec fn kernel_acc_g1(
    basesv: Seq<Seq<u8>>,
    exps: Seq<Fr>,
    n: nat,
    w: nat,
    num_groups: nat,
    gsize: nat,
    i: nat,
) -> Seq<u8>
    decreases i,
{
    if i == 0 {
        g1_ident()
    } else {
        add_group_partials_g1(
            dbl_iter_g1(
                kernel_acc_g1(basesv, exps, n, w, num_groups, gsize, (i - 1) as nat),
                win_width(w, (i - 1) as nat),
            ),
            basesv,
            exps,
            n,
            gsize,
            num_groups,
            win_shift(w, (i - 1) as nat),
            win_width(w, (i - 1) as nat),
        )
    }
}

/// The result of the windowed kernel on one tile of `n` elements.
pub open spec fn kernel_msm_g1(
    basesv: Seq<Seq<u8>>,
    exps: Seq<Fr>,
    n: nat,
    w: nat,
    num_groups: nat,
) -> Seq<u8> {
    let num_windows = ((256 + w - 1) as nat) / w;
    let gsize = if num_groups == 0 {
        0nat
    } else {
        ((n + num_groups - 1) as nat) / num_groups
    };
    kernel_acc_g1(basesv, exps, n, w, num_groups, gsize, num_windows)
}

/// The partial sum of one window over the elements `[lo, hi)`: each base
/// times the window's bits of its scalar.
pub open spec fn window_partial_g2(
    basesv: Seq<Seq<u8>>,
    exps: Seq<Fr>,
    lo: nat,
    hi: nat,
    shift: nat,
    width: nat,
) -> Seq<u8>
    decreases hi,
{
    if hi <= lo {
        g2_ident()
    } else {
        g2_add_of(
            window_partial_g2(basesv, exps, lo, (hi - 1) as nat, shift, width),
            g2_mul_of(
                basesv[hi - 1],
                seq![
                    window_value_spec(exps[hi - 1], shift, width) as u64,
                    0u64,
                    0u64,
                    0u64,
                ],
            ),
        )
    }
}

/// A point doubled `n` times.
pub open spec fn dbl_iter_g2(p: Seq<u8>, n: nat) -> Seq<u8>
    decreases n,
{
    if n == 0 {
        p
    } else {
        crate::point::g2_double_of(dbl_iter_g2(p, (n - 1) as nat))
    }
}

/// The accumulator after adding the partial sums of the first `g` groups
/// of one window, each group covering `gsize` elements of the tile.
pub open spec fn add_group_partials_g2(
    p: Seq<u8>,
    basesv: Seq<Seq<u8>>,
    exps: Seq<Fr>,
    n: nat,
    gsize: nat,
    g: nat,
    shift: nat,
    width: nat,
) -> Seq<u8>
    decreases g,
{
    if g == 0 {
        p
    } else {
        g2_add_of(
            add_group_partials_g2(p, basesv, exps, n, gsize, (g - 1) as nat, shift, width),
            window_partial_g2(
                basesv,
                exps,
                ((g - 1) * gsize) as nat,
                if g * gsize <= n {
                    g * gsize
                } else {
                    n
                },
                shift,
                width,
            ),
        )
    }
}

/// The kernel accumulator after the first `i` windows, most significant
/// first: double by the window's width, then add every group's partial.
pub open spec fn kernel_acc_g2(
    basesv: Seq<Seq<u8>>,
    exps: Seq<Fr>,
    n: nat,
    w: nat,
    num_groups: nat,
    gsize: nat,
    i: nat,
) -> Seq<u8>
    decreases i,
{
    if i == 0 {
        g2_ident()
    } else {
        add_group_partials_g2(
            dbl_iter_g2(
                kernel_acc_g2(basesv, exps, n, w, num_groups, gsize, (i - 1) as nat),
                win_width(w, (i - 1) as nat),
            ),
            basesv,
            exps,
            n,
            gsize,
            num_groups,
            win_shift(w, (i - 1) as nat),
            win_width(w, (i - 1) as nat),
        )
    }
}

/// The result of the windowed kernel on one tile of `n` elements.
pub open spec fn kernel_msm_g2(
    basesv: Seq<Seq<u8>>,
    exps: Seq<Fr>,
    n: nat,
    w: nat,
    num_groups: nat,
) -> Seq<u8> {
    let num_windows = ((256 + w - 1) as nat) / w;
    let gsize = if num_groups == 0 {
        0nat
    } else {
        ((n + num_groups - 1) as nat) / num_groups
    };
    kernel_acc_g2(basesv, exps, n, w, num_groups, gsize, num_windows)
}

/// A multiexp kernel for a single device: it owns the device's core count,
/// the fixed tile size and the configured priority.
#[derive(Debug)]
pub struct SingleMultiexpKernel {
    pub core_count: usize,
    pub n: usize,
    pub priority: bool,
}

impl SingleMultiexpKernel {
    /// Set up the kernel for a device with the given core count.
    pub fn create(core_count: usize, priority: bool) -> (out: Result<
        SingleMultiexpKernel,
        GPUError,
    >)
        ensures
            out is Ok,
            out->Ok_0.core_count == core_count,
            out->Ok_0.priority == priority,
            out->Ok_0.n == CHUNK_SIZE,
    {
        Ok(SingleMultiexpKernel { core_count, n: CHUNK_SIZE, priority })
    }

    /// Windowed multi-scalar multiplication of one G1 tile. Checks the
    /// priority rule at entry, and only there: yields with `GPUTaken`
    /// exactly when a higher-priority job is waiting and this kernel is
    /// not high priority. Otherwise computes per-window partial sums over
    /// `num_groups` element ranges and accumulates them most significant
    /// window first, doubling by each window's width.
    #[verifier::rlimit(100)]
    pub fn multiexp_g1(
        &self,
        bases: &Vec<PointG1>,
        exps: &Vec<Fr>,
        n: usize,
        window_size: usize,
        higher_priority_waiting: bool,
    ) -> (out: Result<PointG1, GPUError>)
        requires
            n <= bases@.len(),
            n <= exps@.len(),
            1 <= window_size <= 63,
            2 * self.core_count <= usize::MAX,
            2 * self.core_count >= ((256 + window_size - 1) as nat) / (window_size as nat),
        ensures
            (out is Err) == (higher_priority_waiting && !self.priority),
            out is Err ==> out->Err_0 is GPUTaken,
            out is Ok ==> out->Ok_0@ == kernel_msm_g1(
                g1_views(bases@),
                exps@,
                n as nat,
                window_size as nat,
                (2 * (self.core_count as nat)) / (((256 + window_size - 1) as nat) / (
                window_size as nat)),
            ),
    {
        if crate::locks::should_break(self.priority, higher_priority_waiting) {
            return Err(GPUError::GPUTaken);
        }
        let num_windows: usize = (EXP_BITS + window_size - 1) / window_size;
        proof {
            assert(num_windows >= 1) by (nonlinear_arith)
                requires
                    num_windows as int == ((256 + window_size - 1) as int) / (window_size as int),
                    1 <= window_size <= 63,
            ;
        }
        let num_groups: usize = calc_num_groups(self.core_count, num_windows);
        proof {
            assert(num_groups >= 1) by (nonlinear_arith)
                requires
                    num_groups as int == 2 * (self.core_count as int) / (num_windows as int),
                    2 * (self.core_count as int) >= num_windows as int,
                    num_windows >= 1,
            ;
        }
        proof {
            assert(n % num_groups != 0 ==> n / num_groups < n) by (nonlinear_arith)
                requires
                    num_groups >= 1,
                    n >= 0,
            ;
        }
        let gsize: usize = n / num_groups + if n % num_groups != 0 {
            1
        } else {
            0
        };
        proof {
            assert(gsize as int == ((n + num_groups - 1) as int) / (num_groups as int))
                by (nonlinear_arith)
                requires
                    num_groups >= 1,
                    gsize as int == n as int / (num_groups as int) + if n % num_groups != 0 {
                        1int
                    } else {
                        0int
                    },
                    n >= 0,
            ;
        }
        let ghost bv = g1_views(bases@);
        let ghost ev = exps@;
        let mut acc = g1_zero();
        let mut bits: usize = 0;
        let mut i: usize = 0;
        while i < num_windows
            invariant
                i <= num_windows,
                n <= bases@.len(),
                n <= exps@.len(),
                bv == g1_views(bases@),
                ev == exps@,
                1 <= window_size <= 63,
                num_windows as int == ((256 + window_size - 1) as int) / (window_size as int),
                num_groups >= 1,
                gsize as int == ((n + num_groups - 1) as int) / (num_groups as int),
                bits == (if i * window_size <= 256 {
                    (i * window_size) as int
                } else {
                    256int
                }),
                acc@ == kernel_acc_g1(
                    bv,
                    ev,
                    n as nat,
                    window_size as nat,
                    num_groups as nat,
                    gsize as nat,
                    i as nat,
                ),
            decreases num_windows - i,
        {
            proof {
                assert(i * window_size < 256) by (nonlinear_arith)
                    requires
                        i < num_windows,
                        num_windows as int == ((256 + window_size - 1) as int) / (
                        window_size as int),
                        1 <= window_size <= 63,
                        i >= 0,
                ;
            }
            let w_i: usize = if window_size <= 256 - bits {
                window_size
            } else {
                256 - bits
            };
            proof {
                assert(w_i as nat == win_width(window_size as nat, i as nat));
                assert((256 - bits - w_i) as nat == win_shift(window_size as nat, i as nat));
            }
            let shift: usize = 256 - bits - w_i;
            let ghost before = acc@;
            let mut d: usize = 0;
            while d < w_i
                invariant
                    d <= w_i,
                    acc@ == dbl_iter_g1(before, d as nat),
                decreases w_i - d,
            {
                acc = crate::point::g1_double(&acc);
                d += 1;
            }
            let ghost dbl = acc@;
            let mut g: usize = 0;
            let mut lo: usize = 0;
            while g < num_groups
                invariant
                    g <= num_groups,
                    n <= bases@.len(),
                    n <= exps@.len(),
                    bv == g1_views(bases@),
                    ev == exps@,
                    1 <= w_i <= 63,
                    shift + w_i <= 256,
                    gsize >= 0,
                    lo as int == (if g * gsize <= n {
                        (g * gsize) as int
                    } else {
                        n as int
                    }),
                    acc@ == add_group_partials_g1(
                        dbl,
                        bv,
                        ev,
                        n as nat,
                        gsize as nat,
                        g as nat,
                        shift as nat,
                        w_i as nat,
                    ),
                decreases num_groups - g,
            {
                let hi: usize = if n - lo > gsize {
                    lo + gsize
                } else {
                    n
                };
                proof {
                    assert((g + 1) * gsize == g * gsize + gsize) by (nonlinear_arith);
                }
                let mut part = g1_zero();
                let bn = bases.len();
                let mut j: usize = lo;
                while j < hi
                    invariant
                        lo <= j <= hi <= n,
                        n <= bases@.len(),
                        n <= exps@.len(),
                        bn == bases@.len(),
                        bv == g1_views(bases@),
                        ev == exps@,
                        1 <= w_i <= 63,
                        shift + w_i <= 256,
                        part@ == window_partial_g1(
                            bv,
                            ev,
                            lo as nat,
                            j as nat,
                            shift as nat,
                            w_i as nat,
                        ),
                    decreases hi - j,
                {
                    let wv = window_value(&exps[j], shift, w_i);
                    let scalar = Fr { l0: wv, l1: 0, l2: 0, l3: 0 };
                    let t = g1_mul(&bases[j], &scalar);
                    part = g1_add(&part, &t);
                    j += 1;
                }
                acc = g1_add(&acc, &part);
                proof {
                    if (g * gsize) as int > n as int {
                        assert((g + 1) * gsize > n) by (nonlinear_arith)
                            requires
                                g * gsize > n,
                                gsize >= 0,
                        ;
                    }
                    assert(acc@ == add_group_partials_g1(
                        dbl,
                        bv,
                        ev,
                        n as nat,
                        gsize as nat,
                        (g + 1) as nat,
                        shift as nat,
                        w_i as nat,
                    ));
                }
                g += 1;
                lo = hi;
            }
            proof {
                assert(((i + 1) * window_size) as int == i * window_size + window_size)
                    by (nonlinear_arith);
            }
            bits = bits + w_i;
            i += 1;
        }
        Ok(acc)
    }
    /// Windowed multi-scalar multiplication of one G2 tile. Checks the
    /// priority rule at entry, and only there: yields with `GPUTaken`
    /// exactly when a higher-priority job is waiting and this kernel is
    /// not high priority. Otherwise computes per-window partial sums over
    /// `num_groups` element ranges and accumulates them most significant
    /// window first, doubling by each window's width.
    #[verifier::rlimit(100)]
    pub fn multiexp_g2(
        &self,
        bases: &Vec<PointG2>,
        exps: &Vec<Fr>,
        n: usize,
        window_size: usize,
        higher_priority_waiting: bool,
    ) -> (out: Result<PointG2, GPUError>)
        requires
            n <= bases@.len(),
            n <= exps@.len(),
            1 <= window_size <= 63,
            2 * self.core_count <= usize::MAX,
            2 * self.core_count >= ((256 + window_size - 1) as nat) / (window_size as nat),
        ensures
            (out is Err) == (higher_priority_waiting && !self.priority),
            out is Err ==> out->Err_0 is GPUTaken,
            out is Ok ==> out->Ok_0@ == kernel_msm_g2(
                g2_views(bases@),
                exps@,
                n as nat,
                window_size as nat,
                (2 * (self.core_count as nat)) / (((256 + window_size - 1) as nat) / (
                window_size as nat)),
            ),
    {
        if crate::locks::should_break(self.priority, higher_priority_waiting) {
            return Err(GPUError::GPUTaken);
        }
        let num_windows: usize = (EXP_BITS + window_size - 1) / window_size;
        proof {
            assert(num_windows >= 1) by (nonlinear_arith)
                requires
                    num_windows as int == ((256 + window_size - 1) as int) / (window_size as int),
                    1 <= window_size <= 63,
            ;
        }
        let num_groups: usize = calc_num_groups(self.core_count, num_windows);
        proof {
            assert(num_groups >= 1) by (nonlinear_arith)
                requires
                    num_groups as int == 2 * (self.core_count as int) / (num_windows as int),
                    2 * (self.core_count as int) >= num_windows as int,
                    num_windows >= 1,
            ;
        }
        proof {
            assert(n % num_groups != 0 ==> n / num_groups < n) by (nonlinear_arith)
                requires
                    num_groups >= 1,
                    n >= 0,
            ;
        }
        let gsize: usize = n / num_groups + if n % num_groups != 0 {
            1
        } else {
            0
        };
        proof {
            assert(gsize as int == ((n + num_groups - 1) as int) / (num_groups as int))
                by (nonlinear_arith)
                requires
                    num_groups >= 1,
                    gsize as int == n as int / (num_groups as int) + if n % num_groups != 0 {
                        1int
                    } else {
                        0int
                    },
                    n >= 0,
            ;
        }
        let ghost bv = g2_views(bases@);
        let ghost ev = exps@;
        let mut acc = g2_zero();
        let mut bits: usize = 0;
        let mut i: usize = 0;
        while i < num_windows
            invariant
                i <= num_windows,
                n <= bases@.len(),
                n <= exps@.len(),
                bv == g2_views(bases@),
                ev == exps@,
                1 <= window_size <= 63,
                num_windows as int == ((256 + window_size - 1) as int) / (window_size as int),
                num_groups >= 1,
                gsize as int == ((n + num_groups - 1) as int) / (num_groups as int),
                bits == (if i * window_size <= 256 {
                    (i * window_size) as int
                } else {
                    256int
                }),
                acc@ == kernel_acc_g2(
                    bv,
                    ev,
                    n as nat,
                    window_size as nat,
                    num_groups as nat,
                    gsize as nat,
                    i as nat,
                ),
            decreases num_windows - i,
        {
            proof {
                assert(i * window_size < 256) by (nonlinear_arith)
                    requires
                        i < num_windows,
                        num_windows as int == ((256 + window_size - 1) as int) / (
                        window_size as int),
                        1 <= window_size <= 63,
                        i >= 0,
                ;
            }
            let w_i: usize = if window_size <= 256 - bits {
                window_size
            } else {
                256 - bits
            };
            proof {
                assert(w_i as nat == win_width(window_size as nat, i as nat));
                assert((256 - bits - w_i) as nat == win_shift(window_size as nat, i as nat));
            }
            let shift: usize = 256 - bits - w_i;
            let ghost before = acc@;
            let mut d: usize = 0;
            while d < w_i
                invariant
                    d <= w_i,
                    acc@ == dbl_iter_g2(before, d as nat),
                decreases w_i - d,
            {
                acc = crate::point::g2_double(&acc);
                d += 1;
            }
            let ghost dbl = acc@;
            let mut g: usize = 0;
            let mut lo: usize = 0;
            while g < num_groups
                invariant
                    g <= num_groups,
                    n <= bases@.len(),
                    n <= exps@.len(),
                    bv == g2_views(bases@),
                    ev == exps@,
                    1 <= w_i <= 63,
                    shift + w_i <= 256,
                    gsize >= 0,
                    lo as int == (if g * gsize <= n {
                        (g * gsize) as int
                    } else {
                        n as int
                    }),
                    acc@ == add_group_partials_g2(
                        dbl,
                        bv,
                        ev,
                        n as nat,
                        gsize as nat,
                        g as nat,
                        shift as nat,
                        w_i as nat,
                    ),
                decreases num_groups - g,
            {
                let hi: usize = if n - lo > gsize {
                    lo + gsize
                } else {
                    n
                };
                proof {
                    assert((g + 1) * gsize == g * gsize + gsize) by (nonlinear_arith);
                }
                let mut part = g2_zero();
                let bn = bases.len();
                let mut j: usize = lo;
                while j < hi
                    invariant
                        lo <= j <= hi <= n,
                        n <= bases@.len(),
                        n <= exps@.len(),
                        bn == bases@.len(),
                        bv == g2_views(bases@),
                        ev == exps@,
                        1 <= w_i <= 63,
                        shift + w_i <= 256,
                        part@ == window_partial_g2(
                            bv,
                            ev,
                            lo as nat,
                            j as nat,
                            shift as nat,
                            w_i as nat,
                        ),
                    decreases hi - j,
                {
                    let wv = window_value(&exps[j], shift, w_i);
                    let scalar = Fr { l0: wv, l1: 0, l2: 0, l3: 0 };
                    let t = g2_mul(&bases[j], &scalar);
                    part = g2_add(&part, &t);
                    j += 1;
                }
                acc = g2_add(&acc, &part);
                proof {
                    if (g * gsize) as int > n as int {
                        assert((g + 1) * gsize > n) by (nonlinear_arith)
                            requires
                                g * gsize > n,
                                gsize >= 0,
                        ;
                    }
                    assert(acc@ == add_group_partials_g2(
                        dbl,
                        bv,
                        ev,
                        n as nat,
                        gsize as nat,
                        (g + 1) as nat,
                        shift as nat,
                        w_i as nat,
                    ));
                }
                g += 1;
                lo = hi;
            }
            proof {
                assert(((i + 1) * window_size) as int == i * window_size + window_size)
                    by (nonlinear_arith);
            }
            bits = bits + w_i;
            i += 1;
        }
        Ok(acc)
    }

}

/// Copy a range of G1 points.
fn slice_points_g1(v: &Vec<PointG1>, lo: usize, hi: usize) -> (r: Vec<PointG1>)
    requires
        lo <= hi <= v@.len(),
    ensures
        r@.len() == hi - lo,
        g1_views(r@) == g1_views(v@).subrange(lo as int, hi as int),
{
    let mut out: Vec<PointG1> = Vec::new();
    let mut j: usize = lo;
    while j < hi
        invariant
            lo <= j <= hi <= v@.len(),
            out@.len() == j - lo,
            forall|i: int| 0 <= i < out@.len() ==> (#[trigger] out@[i])@ == v@[lo + i]@,
        decreases hi - j,
    {
        let p = v[j].clone();
        out.push(p);
        j += 1;
    }
    proof {
        assert(g1_views(out@) =~= g1_views(v@).subrange(lo as int, hi as int));
    }
    out
}

/// Copy a range of G2 points.
fn slice_points_g2(v: &Vec<PointG2>, lo: usize, hi: usize) -> (r: Vec<PointG2>)
    requires
        lo <= hi <= v@.len(),
    ensures
        r@.len() == hi - lo,
        g2_views(r@) == g2_views(v@).subrange(lo as int, hi as int),
{
    let mut out: Vec<PointG2> = Vec::new();
    let mut j: usize = lo;
    while j < hi
        invariant
            lo <= j <= hi <= v@.len(),
            out@.len() == j - lo,
            forall|i: int| 0 <= i < out@.len() ==> (#[trigger] out@[i])@ == v@[lo + i]@,
        decreases hi - j,
    {
        let p = v[j].clone();
        out.push(p);
        j += 1;
    }
    proof {
        assert(g2_views(out@) =~= g2_views(v@).subrange(lo as int, hi as int));
    }
    out
}

/// Copy a range of scalars.
fn slice_frs(v: &Vec<Fr>, lo: usize, hi: usize) -> (r: Vec<Fr>)
    requires
        lo <= hi <= v@.len(),
    ensures
        r@ == v@.subrange(lo as int, hi as int),
{
    let mut out: Vec<Fr> = Vec::new();
    let mut j: usize = lo;
    while j < hi
        invariant
            lo <= j <= hi <= v@.len(),
            out@.len() == j - lo,
            forall|i: int| 0 <= i < out@.len() ==> out@[i] == v@[lo + i],
        decreases hi - j,
    {
        out.push(v[j]);
        j += 1;
    }
    proof {
        assert(out@ =~= v@.subrange(lo as int, hi as int));
    }
    out
}

/// The number of groups one device runs for a window size.
pub open spec fn groups_of(cc: nat, w: nat) -> nat {
    (2 * cc) / (((256 + w - 1) as nat) / w)
}

/// The number of tiles a chunk is cut into.
pub open spec fn num_tiles(len: nat) -> nat {
    if len == 0 {
        0
    } else {
        ((len + CHUNK_SIZE - 1) as nat) / (CHUNK_SIZE as nat)
    }
}

/// The accumulated kernel results of the first `t` tiles of the chunk
/// `[lo, hi)`, each tile holding `CHUNK_SIZE` elements but the last.
pub open spec fn tiles_result_g1(
    basesv: Seq<Seq<u8>>,
    exps: Seq<Fr>,
    skip: nat,
    lo: nat,
    hi: nat,
    w: nat,
    groups: nat,
    t: nat,
) -> Seq<u8>
    decreases t,
{
    if t == 0 {
        g1_ident()
    } else {
        let tlo = (lo + (t - 1) * CHUNK_SIZE) as nat;
        let thi = if tlo + CHUNK_SIZE <= hi {
            (tlo + CHUNK_SIZE) as nat
        } else {
            hi
        };
        g1_add_of(
            tiles_result_g1(basesv, exps, skip, lo, hi, w, groups, (t - 1) as nat),
            kernel_msm_g1(
                basesv.subrange((skip + tlo) as int, (skip + thi) as int),
                exps.subrange(tlo as int, thi as int),
                (thi - tlo) as nat,
                w,
                groups,
            ),
        )
    }
}

/// The accumulated chunk results of the first `d` devices, the elements
/// cut into `dchunk`-sized chunks in device order.
pub open spec fn devices_result_g1(
    basesv: Seq<Seq<u8>>,
    exps: Seq<Fr>,
    skip: nat,
    n: nat,
    dchunk: nat,
    kernels: Seq<SingleMultiexpKernel>,
    d: nat,
) -> Seq<u8>
    decreases d,
{
    if d == 0 {
        g1_ident()
    } else {
        let lo = if (d - 1) * dchunk <= n {
            ((d - 1) * dchunk) as nat
        } else {
            n
        };
        let hi = if d * dchunk <= n {
            (d * dchunk) as nat
        } else {
            n
        };
        g1_add_of(
            devices_result_g1(basesv, exps, skip, n, dchunk, kernels, (d - 1) as nat),
            tiles_result_g1(
                basesv,
                exps,
                skip,
                lo,
                hi,
                G1_WINDOW_SIZE as nat,
                groups_of(kernels[d - 1].core_count as nat, G1_WINDOW_SIZE as nat),
                num_tiles((hi - lo) as nat),
            ),
        )
    }
}

/// The accumulated kernel results of the first `t` tiles of the chunk
/// `[lo, hi)`, each tile holding `CHUNK_SIZE` elements but the last.
pub open spec fn tiles_result_g2(
    basesv: Seq<Seq<u8>>,
    exps: Seq<Fr>,
    skip: nat,
    lo: nat,
    hi: nat,
    w: nat,
    groups: nat,
    t: nat,
) -> Seq<u8>
    decreases t,
{
    if t == 0 {
        g2_ident()
    } else {
        let tlo = (lo + (t - 1) * CHUNK_SIZE) as nat;
        let thi = if tlo + CHUNK_SIZE <= hi {
            (tlo + CHUNK_SIZE) as nat
        } else {
            hi
        };
        g2_add_of(
            tiles_result_g2(basesv, exps, skip, lo, hi, w, groups, (t - 1) as nat),
            kernel_msm_g2(
                basesv.subrange((skip + tlo) as int, (skip + thi) as int),
                exps.subrange(tlo as int, thi as int),
                (thi - tlo) as nat,
                w,
                groups,
            ),
        )
    }
}

/// The accumulated chunk results of the first `d` devices, the elements
/// cut into `dchunk`-sized chunks in device order.
pub open spec fn devices_result_g2(
    basesv: Seq<Seq<u8>>,
    exps: Seq<Fr>,
    skip: nat,
    n: nat,
    dchunk: nat,
    kernels: Seq<SingleMultiexpKernel>,
    d: nat,
) -> Seq<u8>
    decreases d,
{
    if d == 0 {
        g2_ident()
    } else {
        let lo = if (d - 1) * dchunk <= n {
            ((d - 1) * dchunk) as nat
        } else {
            n
        };
        let hi = if d * dchunk <= n {
            (d * dchunk) as nat
        } else {
            n
        };
        g2_add_of(
            devices_result_g2(basesv, exps, skip, n, dchunk, kernels, (d - 1) as nat),
            tiles_result_g2(
                basesv,
                exps,
                skip,
                lo,
                hi,
                G2_WINDOW_SIZE as nat,
                groups_of(kernels[d - 1].core_count as nat, G2_WINDOW_SIZE as nat),
                num_tiles((hi - lo) as nat),
            ),
        )
    }
}

/// A driver holding one multiexp kernel per device.
#[derive(Debug)]
pub struct MultiexpKernel {
    pub kernels: Vec<SingleMultiexpKernel>,
}

impl MultiexpKernel {
    /// Build one kernel per device, given their core counts. Fails exactly
    /// when there is no device to drive.
    pub fn create(core_counts: &Vec<usize>, priority: bool) -> (out: Result<
        MultiexpKernel,
        GPUError,
    >)
        ensures
            (out is Ok) == (core_counts@.len() > 0),
            out is Err ==> out->Err_0 is Simple && out->Err_0->Simple_0@ == "No working GPUs found!"@,
            out is Ok ==> ({
                let ks = out->Ok_0.kernels@;
                ks.len() == core_counts@.len() && (forall|i: int|
                    0 <= i < ks.len() ==> (#[trigger] ks[i]).core_count == core_counts@[i]
                        && ks[i].priority == priority)
            }),
    {
        let mut kernels: Vec<SingleMultiexpKernel> = Vec::new();
        let mut i: usize = 0;
        while i < core_counts.len()
            invariant
                i <= core_counts@.len(),
                kernels@.len() == i,
                forall|k: int|
                    0 <= k < kernels@.len() ==> (#[trigger] kernels@[k]).core_count
                        == core_counts@[k] && kernels@[k].priority == priority,
            decreases core_counts@.len() - i,
        {
            match SingleMultiexpKernel::create(core_counts[i], priority) {
                Ok(k) => {
                    kernels.push(k);
                },
                Err(_) => {
                    proof {
                        assert(false);
                    }
                },
            }
            i += 1;
        }
        if kernels.len() == 0 {
            return Err(GPUError::Simple("No working GPUs found!"));
        }
        Ok(MultiexpKernel { kernels })
    }

    /// Drive a G1 multi-scalar multiplication across all devices: the
    /// elements after `skip` are cut into one chunk per device, each chunk
    /// is tiled by `CHUNK_SIZE`, and every tile runs the windowed kernel
    /// with the G1 window size. Fails exactly when the first tile observes
    /// the preemption rule.
    #[verifier::rlimit(100)]
    pub fn multiexp_g1(
        &self,
        bases: &Vec<PointG1>,
        exps: &Vec<Fr>,
        skip: usize,
        n: usize,
        higher_priority_waiting: bool,
    ) -> (out: Result<PointG1, GPUError>)
        requires
            skip + n <= bases@.len(),
            n <= exps@.len(),
            self.kernels@.len() >= 1,
            forall|k: int|
                0 <= k < self.kernels@.len() ==> 2 * (#[trigger] self.kernels@[k]).core_count
                    <= usize::MAX,
            forall|k: int|
                0 <= k < self.kernels@.len() ==> 2 * (#[trigger] self.kernels@[k]).core_count >= ((
                256 + G1_WINDOW_SIZE - 1) as nat) / (G1_WINDOW_SIZE as nat),
            forall|k: int|
                0 <= k < self.kernels@.len() ==> (#[trigger] self.kernels@[k]).priority
                    == self.kernels@[0].priority,
        ensures
            (out is Err) == (higher_priority_waiting && !self.kernels@[0].priority && n > 0),
            out is Err ==> out->Err_0 is GPUTaken,
            out is Ok ==> ({
                let dchunk = ((n + self.kernels@.len() - 1) as nat) / (self.kernels@.len() as nat);
                out->Ok_0@ == devices_result_g1(
                    g1_views(bases@),
                    exps@,
                    skip as nat,
                    n as nat,
                    dchunk,
                    self.kernels@,
                    self.kernels@.len() as nat,
                )
            }),
    {
        let num_devices = self.kernels.len();
        proof {
            assert(n % num_devices != 0 ==> n / num_devices < n) by (nonlinear_arith)
                requires
                    num_devices >= 1,
                    n >= 0,
            ;
        }
        let dchunk: usize = n / num_devices + if n % num_devices != 0 {
            1
        } else {
            0
        };
        proof {
            assert(dchunk as int == ((n + num_devices - 1) as int) / (num_devices as int))
                by (nonlinear_arith)
                requires
                    num_devices >= 1,
                    dchunk as int == n as int / (num_devices as int) + if n % num_devices != 0 {
                        1int
                    } else {
                        0int
                    },
                    n >= 0,
            ;
        }
        let ghost bv = g1_views(bases@);
        let ghost ev = exps@;
        let mut acc = g1_zero();
        let bn = bases.len();
        let mut d: usize = 0;
        let mut lo: usize = 0;
        while d < num_devices
            invariant
                d <= num_devices,
                num_devices == self.kernels@.len(),
                skip + n <= bases@.len(),
                n <= exps@.len(),
                bv == g1_views(bases@),
                ev == exps@,
                dchunk as int == ((n + num_devices - 1) as int) / (num_devices as int),
                forall|k: int|
                    0 <= k < self.kernels@.len() ==> 2 * (#[trigger] self.kernels@[k]).core_count
                        <= usize::MAX,
                forall|k: int|
                    0 <= k < self.kernels@.len() ==> 2 * (#[trigger] self.kernels@[k]).core_count
                        >= ((256 + G1_WINDOW_SIZE - 1) as nat) / (G1_WINDOW_SIZE as nat),
                forall|k: int|
                    0 <= k < self.kernels@.len() ==> (#[trigger] self.kernels@[k]).priority
                        == self.kernels@[0].priority,
                lo as int == (if d * dchunk <= n {
                    (d * dchunk) as int
                } else {
                    n as int
                }),
                bn == bases@.len(),
                d > 0 && n > 0 ==> !(higher_priority_waiting && !self.kernels@[0].priority),
                acc@ == devices_result_g1(
                    bv,
                    ev,
                    skip as nat,
                    n as nat,
                    dchunk as nat,
                    self.kernels@,
                    d as nat,
                ),
            decreases num_devices - d,
        {
            proof {
                assert((d + 1) * dchunk == d * dchunk + dchunk) by (nonlinear_arith);
            }
            let hi: usize = if n - lo > dchunk {
                lo + dchunk
            } else {
                n
            };
            let clen = hi - lo;
            let ghost tcount = num_tiles(clen as nat);
            let mut t: usize = 0;
            let mut tlo: usize = lo;
            let mut dev_acc = g1_zero();
            while tlo < hi
                invariant
                    d < num_devices,
                    num_devices == self.kernels@.len(),
                    skip + n <= bases@.len(),
                    n <= exps@.len(),
                    bv == g1_views(bases@),
                    ev == exps@,
                    lo <= hi <= n,
                    clen == hi - lo,
                    forall|k: int|
                        0 <= k < self.kernels@.len() ==> 2 * (#[trigger] self.kernels@[
                        k]).core_count <= usize::MAX,
                    forall|k: int|
                        0 <= k < self.kernels@.len() ==> 2 * (#[trigger] self.kernels@[
                        k]).core_count >= ((256 + G1_WINDOW_SIZE - 1) as nat) / (
                        G1_WINDOW_SIZE as nat),
                    forall|k: int|
                        0 <= k < self.kernels@.len() ==> (#[trigger] self.kernels@[k]).priority
                            == self.kernels@[0].priority,
                    tlo as int == (if lo + t * (CHUNK_SIZE as int) <= hi {
                        lo + t * (CHUNK_SIZE as int)
                    } else {
                        hi as int
                    }),
                    t == 0 || lo + (t - 1) * (CHUNK_SIZE as int) < hi,
                    bn == bases@.len(),
                    t > 0 ==> !(higher_priority_waiting && !self.kernels@[0].priority),
                    dev_acc@ == tiles_result_g1(
                        bv,
                        ev,
                        skip as nat,
                        lo as nat,
                        hi as nat,
                        G1_WINDOW_SIZE as nat,
                        groups_of(
                            self.kernels@[d as int].core_count as nat,
                            G1_WINDOW_SIZE as nat,
                        ),
                        t as nat,
                    ),
                decreases hi - tlo,
            {
                proof {
                    assert((t + 1) * (CHUNK_SIZE as int) == t * (CHUNK_SIZE as int)
                        + CHUNK_SIZE as int) by (nonlinear_arith);
                }
                let thi: usize = if hi - tlo > CHUNK_SIZE {
                    tlo + CHUNK_SIZE
                } else {
                    hi
                };
                let tile_bases = slice_points_g1(bases, skip + tlo, skip + thi);
                let tile_exps = slice_frs(exps, tlo, thi);
                let kern = &self.kernels[d];
                let res = match kern.multiexp_g1(
                    &tile_bases,
                    &tile_exps,
                    thi - tlo,
                    G1_WINDOW_SIZE,
                    higher_priority_waiting,
                ) {
                    Ok(p) => p,
                    Err(e) => {
                        return Err(e);
                    },
                };
                dev_acc = g1_add(&dev_acc, &res);
                t += 1;
                tlo = thi;
            }
            proof {
                assert(t as nat == num_tiles(clen as nat)) by (nonlinear_arith)
                    requires
                        clen == hi - lo,
                        tlo >= hi,
                        tlo as int == (if lo + t * (CHUNK_SIZE as int) <= hi {
                            lo + t * (CHUNK_SIZE as int)
                        } else {
                            hi as int
                        }),
                        t == 0 || lo + (t - 1) * (CHUNK_SIZE as int) < hi,
                        lo <= hi,
                        CHUNK_SIZE == 33554466,
                        t >= 0,
                ;
            }
            proof {
                if n > 0 && d == 0 {
                    assert(dchunk >= 1) by (nonlinear_arith)
                        requires
                            dchunk as int == ((n + num_devices - 1) as int) / (
                            num_devices as int),
                            n >= 1,
                            num_devices >= 1,
                    ;
                    assert(lo == 0);
                    assert(hi > lo);
                }
                if clen > 0 {
                    assert(t > 0);
                }
            }
            acc = g1_add(&acc, &dev_acc);
            d += 1;
            lo = hi;
        }
        Ok(acc)
    }
    /// Drive a G2 multi-scalar multiplication across all devices: the
    /// elements after `skip` are cut into one chunk per device, each chunk
    /// is tiled by `CHUNK_SIZE`, and every tile runs the windowed kernel
    /// with the G2 window size. Fails exactly when the first tile observes
    /// the preemption rule.
    #[verifier::rlimit(100)]
    pub fn multiexp_g2(
        &self,
        bases: &Vec<PointG2>,
        exps: &Vec<Fr>,
        skip: usize,
        n: usize,
        higher_priority_waiting: bool,
    ) -> (out: Result<PointG2, GPUError>)
        requires
            skip + n <= bases@.len(),
            n <= exps@.len(),
            self.kernels@.len() >= 1,
            forall|k: int|
                0 <= k < self.kernels@.len() ==> 2 * (#[trigger] self.kernels@[k]).core_count
                    <= usize::MAX,
            forall|k: int|
                0 <= k < self.kernels@.len() ==> 2 * (#[trigger] self.kernels@[k]).core_count >= ((
                256 + G2_WINDOW_SIZE - 1) as nat) / (G2_WINDOW_SIZE as nat),
            forall|k: int|
                0 <= k < self.kernels@.len() ==> (#[trigger] self.kernels@[k]).priority
                    == self.kernels@[0].priority,
        ensures
            (out is Err) == (higher_priority_waiting && !self.kernels@[0].priority && n > 0),
            out is Err ==> out->Err_0 is GPUTaken,
            out is Ok ==> ({
                let dchunk = ((n + self.kernels@.len() - 1) as nat) / (self.kernels@.len() as nat);
                out->Ok_0@ == devices_result_g2(
                    g2_views(bases@),
                    exps@,
                    skip as nat,
                    n as nat,
                    dchunk,
                    self.kernels@,
                    self.kernels@.len() as nat,
                )
            }),
    {
        let num_devices = self.kernels.len();
        proof {
            assert(n % num_devices != 0 ==> n / num_devices < n) by (nonlinear_arith)
                requires
                    num_devices >= 1,
                    n >= 0,
            ;
        }
        let dchunk: usize = n / num_devices + if n % num_devices != 0 {
            1
        } else {
            0
        };
        proof {
            assert(dchunk as int == ((n + num_devices - 1) as int) / (num_devices as int))
                by (nonlinear_arith)
                requires
                    num_devices >= 1,
                    dchunk as int == n as int / (num_devices as int) + if n % num_devices != 0 {
                        1int
                    } else {
                        0int
                    },
                    n >= 0,
            ;
        }
        let ghost bv = g2_views(bases@);
        let ghost ev = exps@;
        let mut acc = g2_zero();
        let bn = bases.len();
        let mut d: usize = 0;
        let mut lo: usize = 0;
        while d < num_devices
            invariant
                d <= num_devices,
                num_devices == self.kernels@.len(),
                skip + n <= bases@.len(),
                n <= exps@.len(),
                bv == g2_views(bases@),
                ev == exps@,
                dchunk as int == ((n + num_devices - 1) as int) / (num_devices as int),
                forall|k: int|
                    0 <= k < self.kernels@.len() ==> 2 * (#[trigger] self.kernels@[k]).core_count
                        <= usize::MAX,
                forall|k: int|
                    0 <= k < self.kernels@.len() ==> 2 * (#[trigger] self.kernels@[k]).core_count
                        >= ((256 + G2_WINDOW_SIZE - 1) as nat) / (G2_WINDOW_SIZE as nat),
                forall|k: int|
                    0 <= k < self.kernels@.len() ==> (#[trigger] self.kernels@[k]).priority
                        == self.kernels@[0].priority,
                lo as int == (if d * dchunk <= n {
                    (d * dchunk) as int
                } else {
                    n as int
                }),
                bn == bases@.len(),
                d > 0 && n > 0 ==> !(higher_priority_waiting && !self.kernels@[0].priority),
                acc@ == devices_result_g2(
                    bv,
                    ev,
                    skip as nat,
                    n as nat,
                    dchunk as nat,
                    self.kernels@,
                    d as nat,
                ),
            decreases num_devices - d,
        {
            proof {
                assert((d + 1) * dchunk == d * dchunk + dchunk) by (nonlinear_arith);
            }
            let hi: usize = if n - lo > dchunk {
                lo + dchunk
            } else {
                n
            };
            let clen = hi - lo;
            let ghost tcount = num_tiles(clen as nat);
            let mut t: usize = 0;
            let mut tlo: usize = lo;
            let mut dev_acc = g2_zero();
            while tlo < hi
                invariant
                    d < num_devices,
                    num_devices == self.kernels@.len(),
                    skip + n <= bases@.len(),
                    n <= exps@.len(),
                    bv == g2_views(bases@),
                    ev == exps@,
                    lo <= hi <= n,
                    clen == hi - lo,
                    forall|k: int|
                        0 <= k < self.kernels@.len() ==> 2 * (#[trigger] self.kernels@[
                        k]).core_count <= usize::MAX,
                    forall|k: int|
                        0 <= k < self.kernels@.len() ==> 2 * (#[trigger] self.kernels@[
                        k]).core_count >= ((256 + G2_WINDOW_SIZE - 1) as nat) / (
                        G2_WINDOW_SIZE as nat),
                    forall|k: int|
                        0 <= k < self.kernels@.len() ==> (#[trigger] self.kernels@[k]).priority
                            == self.kernels@[0].priority,
                    tlo as int == (if lo + t * (CHUNK_SIZE as int) <= hi {
                        lo + t * (CHUNK_SIZE as int)
                    } else {
                        hi as int
                    }),
                    t == 0 || lo + (t - 1) * (CHUNK_SIZE as int) < hi,
                    bn == bases@.len(),
                    t > 0 ==> !(higher_priority_waiting && !self.kernels@[0].priority),
                    dev_acc@ == tiles_result_g2(
                        bv,
                        ev,
                        skip as nat,
                        lo as nat,
                        hi as nat,
                        G2_WINDOW_SIZE as nat,
                        groups_of(
                            self.kernels@[d as int].core_count as nat,
                            G2_WINDOW_SIZE as nat,
                        ),
                        t as nat,
                    ),
                decreases hi - tlo,
            {
                proof {
                    assert((t + 1) * (CHUNK_SIZE as int) == t * (CHUNK_SIZE as int)
                        + CHUNK_SIZE as int) by (nonlinear_arith);
                }
                let thi: usize = if hi - tlo > CHUNK_SIZE {
                    tlo + CHUNK_SIZE
                } else {
                    hi
                };
                let tile_bases = slice_points_g2(bases, skip + tlo, skip + thi);
                let tile_exps = slice_frs(exps, tlo, thi);
                let kern = &self.kernels[d];
                let res = match kern.multiexp_g2(
                    &tile_bases,
                    &tile_exps,
                    thi - tlo,
                    G2_WINDOW_SIZE,
                    higher_priority_waiting,
                ) {
                    Ok(p) => p,
                    Err(e) => {
                        return Err(e);
                    },
                };
                dev_acc = g2_add(&dev_acc, &res);
                t += 1;
                tlo = thi;
            }
            proof {
                assert(t as nat == num_tiles(clen as nat)) by (nonlinear_arith)
                    requires
                        clen == hi - lo,
                        tlo >= hi,
                        tlo as int == (if lo + t * (CHUNK_SIZE as int) <= hi {
                            lo + t * (CHUNK_SIZE as int)
                        } else {
                            hi as int
                        }),
                        t == 0 || lo + (t - 1) * (CHUNK_SIZE as int) < hi,
                        lo <= hi,
                        CHUNK_SIZE == 33554466,
                        t >= 0,
                ;
            }
            proof {
                if n > 0 && d == 0 {
                    assert(dchunk >= 1) by (nonlinear_arith)
                        requires
                            dchunk as int == ((n + num_devices - 1) as int) / (
                            num_devices as int),
                            n >= 1,
                            num_devices >= 1,
                    ;
                    assert(lo == 0);
                    assert(hi > lo);
                }
                if clen > 0 {
                    assert(t > 0);
                }
            }
            acc = g2_add(&acc, &dev_acc);
            d += 1;
            lo = hi;
        }
        Ok(acc)
    }

}

} // verus!
