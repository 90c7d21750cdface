use vstd::arithmetic::div_mod::lemma_small_mod;
use vstd::prelude::*;

use crate::density::DensityTracker;
use crate::density::density_extended;
use crate::fr::Fr;
use crate::fr::fr_add;
use crate::fr::fr_mul;
use crate::fr::fr_nat;
use crate::fr::fr_one;
use crate::fr::fr_valid;
use crate::fr::r_modulus;

verus! {

/// An index into the input or the auxiliary variable assignment.
#[derive(Clone, Copy, PartialEq, Eq, Structural, Debug, Hash)]
pub enum Index {
    Input(usize),
    Aux(usize),
}

/// A variable of a rank-1 constraint system. Input 0 is always the constant
/// one.
#[derive(Clone, Copy, PartialEq, Eq, Structural, Debug, Hash)]
pub struct Variable(pub Index);

/// A linear combination of variables with scalar coefficients.
#[derive(Debug)]
pub struct LinearCombination {
    pub terms: Vec<(Variable, Fr)>,
}

impl LinearCombination {
    /// The empty linear combination.
    pub fn zero() -> (r: LinearCombination)
        ensures
            r.terms@ == Seq::<(Variable, Fr)>::empty(),
    {
        LinearCombination { terms: Vec::new() }
    }

    /// Append one term.
    pub fn add_term(&mut self, var: Variable, coeff: Fr)
        ensures
            final(self).terms@ == old(self).terms@.push((var, coeff)),
    {
        self.terms.push((var, coeff));
    }
}

/// Every scalar of a sequence is a canonical field element.
pub open spec fn frs_valid(s: Seq<Fr>) -> bool {
    forall|i: int| 0 <= i < s.len() ==> fr_valid(s[i])
}

/// A term is well formed for given assignment sizes: its coefficient is a
/// field element and its variable is in range.
pub open spec fn lc_term_ok(t: (Variable, Fr), n_inputs: nat, n_aux: nat) -> bool {
    fr_valid(t.1) && (match t.0.0 {
        Index::Input(i) => i < n_inputs,
        Index::Aux(i) => i < n_aux,
    })
}

/// A linear combination is well formed for given assignment sizes.
pub open spec fn lc_wf(terms: Seq<(Variable, Fr)>, n_inputs: nat, n_aux: nat) -> bool {
    forall|k: int| 0 <= k < terms.len() ==> lc_term_ok(terms[k], n_inputs, n_aux)
}

/// The value a term contributes: its coefficient times the assigned value of
/// its variable, reduced modulo the field order.
pub open spec fn term_value(t: (Variable, Fr), input: Seq<Fr>, aux: Seq<Fr>) -> nat {
    (fr_nat(t.1) * (match t.0.0 {
        Index::Input(i) => fr_nat(input[i as int]),
        Index::Aux(i) => fr_nat(aux[i as int]),
    })) % r_modulus()
}

/// The value of a linear combination under an assignment, folded term by
/// term with a reduction after each addition.
pub open spec fn eval_lc_nat(terms: Seq<(Variable, Fr)>, input: Seq<Fr>, aux: Seq<Fr>) -> nat
    decreases terms.len(),
{
    if terms.len() == 0 {
        0
    } else {
        (eval_lc_nat(terms.drop_last(), input, aux) + term_value(terms.last(), input, aux))
            % r_modulus()
    }
}

/// The density bits after walking the terms of a linear combination: on the
/// input side every input term marks its index, on the auxiliary side every
/// auxiliary term does.
pub open spec fn densities_after(d: Seq<bool>, terms: Seq<(Variable, Fr)>, input_side: bool) -> Seq<
    bool,
>
    decreases terms.len(),
{
    if terms.len() == 0 {
        d
    } else {
        let prev = densities_after(d, terms.drop_last(), input_side);
        match terms.last().0.0 {
            Index::Input(i) => if input_side {
                prev.update(i as int, true)
            } else {
                prev
            },
            Index::Aux(i) => if !input_side {
                prev.update(i as int, true)
            } else {
                prev
            },
        }
    }
}

/// Evaluate a linear combination under the given assignments, marking the
/// touched indices in the density trackers that are switched on.
pub fn eval(
    lc: &LinearCombination,
    track_input: bool,
    track_aux: bool,
    input_density: &mut DensityTracker,
    aux_density: &mut DensityTracker,
    input_assignment: &Vec<Fr>,
    aux_assignment: &Vec<Fr>,
) -> (r: Fr)
    requires
        lc_wf(lc.terms@, input_assignment@.len() as nat, aux_assignment@.len() as nat),
        frs_valid(input_assignment@),
        frs_valid(aux_assignment@),
        track_input ==> old(input_density)@.len() == input_assignment@.len(),
        track_aux ==> old(aux_density)@.len() == aux_assignment@.len(),
    ensures
        fr_valid(r),
        fr_nat(r) == eval_lc_nat(lc.terms@, input_assignment@, aux_assignment@),
        final(input_density)@ == (if track_input {
            densities_after(old(input_density)@, lc.terms@, true)
        } else {
            old(input_density)@
        }),
        final(aux_density)@ == (if track_aux {
            densities_after(old(aux_density)@, lc.terms@, false)
        } else {
            old(aux_density)@
        }),
{
    let mut acc = crate::fr::fr_zero();
    let one = fr_one();
    let mut k: usize = 0;
    while k < lc.terms.len()
        invariant
            k <= lc.terms@.len(),
            lc_wf(lc.terms@, input_assignment@.len() as nat, aux_assignment@.len() as nat),
            frs_valid(input_assignment@),
            frs_valid(aux_assignment@),
            fr_valid(one),
            fr_nat(one) == 1,
            fr_valid(acc),
            fr_nat(acc) == eval_lc_nat(
                lc.terms@.subrange(0, k as int),
                input_assignment@,
                aux_assignment@,
            ),
            track_input ==> input_density@.len() == input_assignment@.len(),
            track_aux ==> aux_density@.len() == aux_assignment@.len(),
            input_density@ == (if track_input {
                densities_after(old(input_density)@, lc.terms@.subrange(0, k as int), true)
            } else {
                old(input_density)@
            }),
            aux_density@ == (if track_aux {
                densities_after(old(aux_density)@, lc.terms@.subrange(0, k as int), false)
            } else {
                old(aux_density)@
            }),
        decreases lc.terms@.len() - k,
    {
        proof {
            assert(lc.terms@.subrange(0, k + 1).drop_last() =~= lc.terms@.subrange(0, k as int));
            assert(lc.terms@.subrange(0, k + 1).last() == lc.terms@[k as int]);
            assert(lc_term_ok(
                lc.terms@[k as int],
                input_assignment@.len() as nat,
                aux_assignment@.len() as nat,
            ));
        }
        let (var, coeff) = lc.terms[k];
        let value = match var.0 {
            Index::Input(i) => {
                if track_input {
                    input_density.inc(i);
                }
                input_assignment[i]
            },
            Index::Aux(i) => {
                if track_aux {
                    aux_density.inc(i);
                }
                aux_assignment[i]
            },
        };
        if coeff == one {
            proof {
                lemma_small_mod(fr_nat(value), r_modulus());
                assert((1 * fr_nat(value)) % r_modulus() == fr_nat(value) % r_modulus());
            }
            acc = fr_add(&acc, &value);
        } else {
            let t = fr_mul(&coeff, &value);
            acc = fr_add(&acc, &t);
        }
        k += 1;
    }
    proof {
        assert(lc.terms@.subrange(0, lc.terms@.len() as int) =~= lc.terms@);
    }
    acc
}

/// The mathematical content of a proving assignment: the three constraint
/// evaluations, the two variable assignments and the three density bit-sets.
pub struct AssignmentView {
    pub a_aux_density: Seq<bool>,
    pub b_input_density: Seq<bool>,
    pub b_aux_density: Seq<bool>,
    pub a: Seq<Fr>,
    pub b: Seq<Fr>,
    pub c: Seq<Fr>,
    pub input_assignment: Seq<Fr>,
    pub aux_assignment: Seq<Fr>,
}

/// A synthesized rank-1 constraint system: one evaluation of each of the
/// three constraint polynomials per constraint, the variable assignments,
/// and the density of the queries over them.
#[derive(Debug)]
pub struct ProvingAssignment {
    pub a_aux_density: DensityTracker,
    pub b_input_density: DensityTracker,
    pub b_aux_density: DensityTracker,
    pub a: Vec<Fr>,
    pub b: Vec<Fr>,
    pub c: Vec<Fr>,
    pub input_assignment: Vec<Fr>,
    pub aux_assignment: Vec<Fr>,
}

impl View for ProvingAssignment {
    type V = AssignmentView;

    open spec fn view(&self) -> AssignmentView {
        AssignmentView {
            a_aux_density: self.a_aux_density@,
            b_input_density: self.b_input_density@,
            b_aux_density: self.b_aux_density@,
            a: self.a@,
            b: self.b@,
            c: self.c@,
            input_assignment: self.input_assignment@,
            aux_assignment: self.aux_assignment@,
        }
    }
}

/// What extending one assignment by another yields: evaluations and
/// auxiliary data are concatenated; the first input of the extension, a
/// temporarily allocated constant one, is skipped.
pub open spec fn pa_extended(x: AssignmentView, y: AssignmentView) -> AssignmentView {
    AssignmentView {
        a_aux_density: density_extended(x.a_aux_density, y.a_aux_density, false),
        b_input_density: density_extended(x.b_input_density, y.b_input_density, true),
        b_aux_density: density_extended(x.b_aux_density, y.b_aux_density, false),
        a: x.a + y.a,
        b: x.b + y.b,
        c: x.c + y.c,
        input_assignment: x.input_assignment + y.input_assignment.subrange(
            1,
            y.input_assignment.len() as int,
        ),
        aux_assignment: x.aux_assignment + y.aux_assignment,
    }
}

/// One evaluation was appended: the new sequence extends the old one by a
/// valid scalar holding the given value.
pub open spec fn pushed_value(new: Seq<Fr>, prev: Seq<Fr>, v: nat) -> bool {
    new.len() == prev.len() + 1 && new.subrange(0, prev.len() as int) == prev && fr_valid(
        new.last(),
    ) && fr_nat(new.last()) == v
}

/// The density bits after a walk keep their length, as every index a
/// well-formed combination marks is in range.
pub proof fn lemma_densities_after_len(
    d: Seq<bool>,
    terms: Seq<(Variable, Fr)>,
    input_side: bool,
    n_inputs: nat,
    n_aux: nat,
)
    requires
        lc_wf(terms, n_inputs, n_aux),
        input_side ==> d.len() == n_inputs,
        !input_side ==> d.len() == n_aux,
    ensures
        densities_after(d, terms, input_side).len() == d.len(),
    decreases terms.len(),
{
    if terms.len() > 0 {
        assert(lc_wf(terms.drop_last(), n_inputs, n_aux)) by {
            assert(forall|k: int|
                0 <= k < terms.len() - 1 ==> terms.drop_last()[k] == terms[k]);
        }
        lemma_densities_after_len(d, terms.drop_last(), input_side, n_inputs, n_aux);
        assert(lc_term_ok(terms.last(), n_inputs, n_aux));
    }
}

impl ProvingAssignment {
    /// Well-formedness: the three evaluation vectors run in step, each
    /// density tracker covers its assignment, and every scalar is canonical.
    pub open spec fn wf(self) -> bool {
        self@.a.len() == self@.b.len() && self@.b.len() == self@.c.len() && self@.a_aux_density.len()
            == self@.aux_assignment.len() && self@.b_aux_density.len() == self@.aux_assignment.len()
            && self@.b_input_density.len() == self@.input_assignment.len() && frs_valid(self@.a)
            && frs_valid(self@.b) && frs_valid(self@.c) && frs_valid(self@.input_assignment)
            && frs_valid(self@.aux_assignment)
    }

    /// A fresh, empty assignment.
    pub fn new() -> (r: Self)
        ensures
            r.wf(),
            r@.a == Seq::<Fr>::empty(),
            r@.b == Seq::<Fr>::empty(),
            r@.c == Seq::<Fr>::empty(),
            r@.input_assignment == Seq::<Fr>::empty(),
            r@.aux_assignment == Seq::<Fr>::empty(),
            r@.a_aux_density == Seq::<bool>::empty(),
            r@.b_input_density == Seq::<bool>::empty(),
            r@.b_aux_density == Seq::<bool>::empty(),
    {
        ProvingAssignment {
            a_aux_density: DensityTracker::new(),
            b_input_density: DensityTracker::new(),
            b_aux_density: DensityTracker::new(),
            a: Vec::new(),
            b: Vec::new(),
            c: Vec::new(),
            input_assignment: Vec::new(),
            aux_assignment: Vec::new(),
        }
    }

    /// Allocate an auxiliary variable holding the given value.
    pub fn alloc_aux(&mut self, value: Fr) -> (v: Variable)
        requires
            old(self).wf(),
            fr_valid(value),
        ensures
            final(self).wf(),
            final(self)@ == (AssignmentView {
                a_aux_density: old(self)@.a_aux_density.push(false),
                b_aux_density: old(self)@.b_aux_density.push(false),
                aux_assignment: old(self)@.aux_assignment.push(value),
                ..old(self)@
            }),
            v == (Variable(Index::Aux(old(self)@.aux_assignment.len() as usize))),
    {
        self.aux_assignment.push(value);
        self.a_aux_density.add_element();
        self.b_aux_density.add_element();
        Variable(Index::Aux(self.aux_assignment.len() - 1))
    }

    /// Allocate a public input variable holding the given value.
    pub fn alloc_input(&mut self, value: Fr) -> (v: Variable)
        requires
            old(self).wf(),
            fr_valid(value),
        ensures
            final(self).wf(),
            final(self)@ == (AssignmentView {
                b_input_density: old(self)@.b_input_density.push(false),
                input_assignment: old(self)@.input_assignment.push(value),
                ..old(self)@
            }),
            v == (Variable(Index::Input(old(self)@.input_assignment.len() as usize))),
    {
        self.input_assignment.push(value);
        self.b_input_density.add_element();
        Variable(Index::Input(self.input_assignment.len() - 1))
    }

    /// Record one constraint: evaluate its three linear combinations under
    /// the current assignment and update the query densities. Inputs are not
    /// tracked in the A query, which has full density by construction.
    pub fn enforce(&mut self, a: &LinearCombination, b: &LinearCombination, c: &LinearCombination)
        requires
            old(self).wf(),
            lc_wf(
                a.terms@,
                old(self)@.input_assignment.len() as nat,
                old(self)@.aux_assignment.len() as nat,
            ),
            lc_wf(
                b.terms@,
                old(self)@.input_assignment.len() as nat,
                old(self)@.aux_assignment.len() as nat,
            ),
            lc_wf(
                c.terms@,
                old(self)@.input_assignment.len() as nat,
                old(self)@.aux_assignment.len() as nat,
            ),
        ensures
            final(self).wf(),
            final(self)@.input_assignment == old(self)@.input_assignment,
            final(self)@.aux_assignment == old(self)@.aux_assignment,
            pushed_value(
                final(self)@.a,
                old(self)@.a,
                eval_lc_nat(a.terms@, old(self)@.input_assignment, old(self)@.aux_assignment),
            ),
            pushed_value(
                final(self)@.b,
                old(self)@.b,
                eval_lc_nat(b.terms@, old(self)@.input_assignment, old(self)@.aux_assignment),
            ),
            pushed_value(
                final(self)@.c,
                old(self)@.c,
                eval_lc_nat(c.terms@, old(self)@.input_assignment, old(self)@.aux_assignment),
            ),
            final(self)@.a_aux_density == densities_after(old(self)@.a_aux_density, a.terms@, false),
            final(self)@.b_input_density == densities_after(
                old(self)@.b_input_density,
                b.terms@,
                true,
            ),
            final(self)@.b_aux_density == densities_after(old(self)@.b_aux_density, b.terms@, false),
    {
        proof {
            let nin = self@.input_assignment.len() as nat;
            let naux = self@.aux_assignment.len() as nat;
            lemma_densities_after_len(self@.a_aux_density, a.terms@, false, nin, naux);
            lemma_densities_after_len(self@.b_input_density, b.terms@, true, nin, naux);
            lemma_densities_after_len(self@.b_aux_density, b.terms@, false, nin, naux);
        }
        let av = eval(
            a,
            false,
            true,
            &mut self.b_input_density,
            &mut self.a_aux_density,
            &self.input_assignment,
            &self.aux_assignment,
        );
        let bv = eval(
            b,
            true,
            true,
            &mut self.b_input_density,
            &mut self.b_aux_density,
            &self.input_assignment,
            &self.aux_assignment,
        );
        let cv = eval(
            c,
            false,
            false,
            &mut self.b_input_density,
            &mut self.b_aux_density,
            &self.input_assignment,
            &self.aux_assignment,
        );
        let ghost pre_a = self.a@;
        let ghost pre_b = self.b@;
        let ghost pre_c = self.c@;
        self.a.push(av);
        self.b.push(bv);
        self.c.push(cv);
        proof {
            assert(self.a@.subrange(0, pre_a.len() as int) =~= pre_a);
            assert(self.b@.subrange(0, pre_b.len() as int) =~= pre_b);
            assert(self.c@.subrange(0, pre_c.len() as int) =~= pre_c);
        }
    }

    /// Namespaces are not tracked by a proving assignment.
    pub fn push_namespace(&mut self)
        ensures
            final(self)@ == old(self)@,
    {
    }

    /// Namespaces are not tracked by a proving assignment.
    pub fn pop_namespace(&mut self)
        ensures
            final(self)@ == old(self)@,
    {
    }

    /// Proving assignments can be merged with `extend`.
    pub fn is_extensible() -> (r: bool)
        ensures
            r,
    {
        true
    }

    /// Merge another assignment after this one. Both sides start with the
    /// temporarily allocated constant one input, so the extension's first
    /// input is skipped and the first input-density bits are shared. Both
    /// sides must therefore hold at least one input: without it, skipping
    /// the extension's first input would leave the input density one
    /// position longer than the input assignment.
    pub fn extend(&mut self, other: ProvingAssignment)
        requires
            old(self).wf(),
            other.wf(),
            old(self)@.input_assignment.len() >= 1,
            other@.input_assignment.len() >= 1,
        ensures
            final(self).wf(),
            final(self)@ == pa_extended(old(self)@, other@),
    {
        let ProvingAssignment {
            a_aux_density,
            b_input_density,
            b_aux_density,
            a,
            b,
            c,
            input_assignment,
            aux_assignment,
        } = other;
        self.a_aux_density.extend(a_aux_density, false);
        self.b_input_density.extend(b_input_density, true);
        self.b_aux_density.extend(b_aux_density, false);
        append_from(&mut self.a, &a, 0);
        append_from(&mut self.b, &b, 0);
        append_from(&mut self.c, &c, 0);
        append_from(&mut self.input_assignment, &input_assignment, 1);
        append_from(&mut self.aux_assignment, &aux_assignment, 0);
        proof {
            assert(a@.subrange(0, a@.len() as int) =~= a@);
            assert(b@.subrange(0, b@.len() as int) =~= b@);
            assert(c@.subrange(0, c@.len() as int) =~= c@);
            assert(aux_assignment@.subrange(0, aux_assignment@.len() as int) =~= aux_assignment@);
        }
    }
}

/// Append a suffix of one scalar vector to another.
fn append_from(dst: &mut Vec<Fr>, src: &Vec<Fr>, start: usize)
    requires
        start <= src@.len(),
    ensures
        final(dst)@ == old(dst)@ + src@.subrange(start as int, src@.len() as int),
{
    proof {
        assert(old(dst)@ + src@.subrange(start as int, start as int) =~= old(dst)@);
    }
    let mut j: usize = start;
    while j < src.len()
        invariant
            start <= j <= src@.len(),
            dst@ == old(dst)@ + src@.subrange(start as int, j as int),
        decreases src@.len() - j,
    {
        let ghost pre = dst@;
        dst.push(src[j]);
        proof {
            assert(pre.push(src@[j as int]) =~= old(dst)@ + src@.subrange(start as int, j + 1));
        }
        j += 1;
    }
}

/// Whether two scalar vectors hold the same values.
fn frs_eq(x: &Vec<Fr>, y: &Vec<Fr>) -> (r: bool)
    ensures
        r == (x@ == y@),
{
    if x.len() != y.len() {
        return false;
    }
    let mut i: usize = 0;
    while i < x.len()
        invariant
            i <= x@.len(),
            x@.len() == y@.len(),
            forall|j: int| 0 <= j < i ==> x@[j] == y@[j],
        decreases x@.len() - i,
    {
        if x[i] != y[i] {
            return false;
        }
        i += 1;
    }
    proof {
        assert(x@ =~= y@);
    }
    true
}

impl PartialEq for ProvingAssignment {
    /// Two assignments are equal when all their parts hold the same values.
    fn eq(&self, other: &ProvingAssignment) -> (r: bool) {
        self.a_aux_density.same_bits(&other.a_aux_density) && self.b_input_density.same_bits(
            &other.b_input_density,
        ) && self.b_aux_density.same_bits(&other.b_aux_density) && frs_eq(&self.a, &other.a)
            && frs_eq(&self.b, &other.b) && frs_eq(&self.c, &other.c) && frs_eq(
            &self.input_assignment,
            &other.input_assignment,
        ) && frs_eq(&self.aux_assignment, &other.aux_assignment)
    }
}

impl vstd::std_specs::cmp::PartialEqSpecImpl for ProvingAssignment {
    open spec fn obeys_eq_spec() -> bool {
        true
    }

    open spec fn eq_spec(&self, other: &ProvingAssignment) -> bool {
        self@ == other@
    }
}

/// Law: folding partial assignments with `extend` is associative, so a
/// stream of extensions yields the same assignment in whatever grouping it
/// is applied.
pub proof fn lemma_extend_associative(x: AssignmentView, y: AssignmentView, z: AssignmentView)
    requires
        y.input_assignment.len() >= 1,
        z.input_assignment.len() >= 1,
    ensures
        pa_extended(pa_extended(x, y), z) == pa_extended(x, pa_extended(y, z)),
{
    lemma_density_extend_associative(x.a_aux_density, y.a_aux_density, z.a_aux_density, false);
    lemma_density_extend_associative(
        x.b_input_density,
        y.b_input_density,
        z.b_input_density,
        true,
    );
    lemma_density_extend_associative(x.b_aux_density, y.b_aux_density, z.b_aux_density, false);
    assert((x.a + y.a) + z.a =~= x.a + (y.a + z.a));
    assert((x.b + y.b) + z.b =~= x.b + (y.b + z.b));
    assert((x.c + y.c) + z.c =~= x.c + (y.c + z.c));
    assert((x.aux_assignment + y.aux_assignment) + z.aux_assignment =~= x.aux_assignment + (
    y.aux_assignment + z.aux_assignment));
    let yi = y.input_assignment;
    let zi = z.input_assignment;
    assert((y.input_assignment + z.input_assignment.subrange(1, zi.len() as int)).subrange(
        1,
        (yi.len() + zi.len() - 1) as int,
    ) =~= yi.subrange(1, yi.len() as int) + zi.subrange(1, zi.len() as int));
    assert((x.input_assignment + yi.subrange(1, yi.len() as int)) + zi.subrange(
        1,
        zi.len() as int,
    ) =~= x.input_assignment + (yi.subrange(1, yi.len() as int) + zi.subrange(1, zi.len() as int)));
}

/// The view of a fresh partial assignment right after its temporarily
/// allocated constant input `o` and one auxiliary allocation `v`.
pub open spec fn single_aux_partial(o: Fr, v: Fr) -> AssignmentView {
    AssignmentView {
        a_aux_density: seq![false],
        b_input_density: seq![false],
        b_aux_density: seq![false],
        a: Seq::empty(),
        b: Seq::empty(),
        c: Seq::empty(),
        input_assignment: seq![o],
        aux_assignment: seq![v],
    }
}

/// The view of a fresh partial assignment holding its temporary constant
/// input `o` and one further input allocation `v`.
pub open spec fn single_input_partial(o: Fr, v: Fr) -> AssignmentView {
    AssignmentView {
        a_aux_density: Seq::empty(),
        b_input_density: seq![false, false],
        b_aux_density: Seq::empty(),
        a: Seq::empty(),
        b: Seq::empty(),
        c: Seq::empty(),
        input_assignment: seq![o, v],
        aux_assignment: Seq::empty(),
    }
}

/// Law: merging a partial assignment that holds one fresh auxiliary
/// allocation is the same as allocating that variable directly, so a
/// stream of allocations folded with `extend` replays direct synthesis.
pub proof fn lemma_extend_single_aux(x: AssignmentView, o: Fr, v: Fr)
    requires
        x.b_input_density.len() >= 1,
    ensures
        pa_extended(x, single_aux_partial(o, v)) == (AssignmentView {
            a_aux_density: x.a_aux_density.push(false),
            b_aux_density: x.b_aux_density.push(false),
            aux_assignment: x.aux_assignment.push(v),
            ..x
        }),
{
    let l = pa_extended(x, single_aux_partial(o, v));
    assert(l.a_aux_density =~= x.a_aux_density.push(false));
    assert(l.b_input_density =~= x.b_input_density) by {
        assert(seq![false][0int] == false);
        assert(x.b_input_density.update(0, x.b_input_density[0] || false) =~= x.b_input_density);
        assert(seq![false].subrange(1, 1) =~= Seq::<bool>::empty());
    }
    assert(l.b_aux_density =~= x.b_aux_density.push(false));
    assert(l.a =~= x.a);
    assert(l.b =~= x.b);
    assert(l.c =~= x.c);
    assert(l.input_assignment =~= x.input_assignment) by {
        assert(seq![o].subrange(1, 1) =~= Seq::<Fr>::empty());
    }
    assert(l.aux_assignment =~= x.aux_assignment.push(v));
}

/// Law: merging a partial assignment that holds one fresh input
/// allocation is the same as allocating that input directly.
pub proof fn lemma_extend_single_input(x: AssignmentView, o: Fr, v: Fr)
    requires
        x.b_input_density.len() >= 1,
    ensures
        pa_extended(x, single_input_partial(o, v)) == (AssignmentView {
            b_input_density: x.b_input_density.push(false),
            input_assignment: x.input_assignment.push(v),
            ..x
        }),
{
    let l = pa_extended(x, single_input_partial(o, v));
    assert(l.a_aux_density =~= x.a_aux_density);
    assert(l.b_input_density =~= x.b_input_density.push(false)) by {
        assert(seq![false, false][0int] == false);
        assert(x.b_input_density.update(0, x.b_input_density[0] || false) =~= x.b_input_density);
        assert(seq![false, false].subrange(1, 2) =~= seq![false]);
    }
    assert(l.b_aux_density =~= x.b_aux_density);
    assert(l.a =~= x.a);
    assert(l.b =~= x.b);
    assert(l.c =~= x.c);
    assert(l.input_assignment =~= x.input_assignment.push(v)) by {
        assert(seq![o, v].subrange(1, 2) =~= seq![v]);
    }
    assert(l.aux_assignment =~= x.aux_assignment);
}

/// One step of a synthesis stream: an allocation of an auxiliary or an
/// input variable with its value.
pub enum Allocation {
    AuxValue(Fr),
    InputValue(Fr),
}

/// The view after one allocation: the value is pushed on its side together
/// with one unset density bit, exactly as `alloc_aux` and `alloc_input`
/// ensure.
pub open spec fn apply_allocation(x: AssignmentView, e: Allocation) -> AssignmentView {
    match e {
        Allocation::AuxValue(v) => AssignmentView {
            a_aux_density: x.a_aux_density.push(false),
            b_aux_density: x.b_aux_density.push(false),
            aux_assignment: x.aux_assignment.push(v),
            ..x
        },
        Allocation::InputValue(v) => AssignmentView {
            b_input_density: x.b_input_density.push(false),
            input_assignment: x.input_assignment.push(v),
            ..x
        },
    }
}

/// The view after a stream of allocations, applied left to right.
pub open spec fn apply_stream(x: AssignmentView, s: Seq<Allocation>) -> AssignmentView
    decreases s.len(),
{
    if s.len() == 0 {
        x
    } else {
        apply_allocation(apply_stream(x, s.drop_last()), s.last())
    }
}

/// The view of a fresh assignment seeded with its temporarily allocated
/// constant input `o`: what `new` followed by `alloc_input` leaves.
pub open spec fn seeded_view(o: Fr) -> AssignmentView {
    AssignmentView {
        a_aux_density: Seq::empty(),
        b_input_density: seq![false],
        b_aux_density: Seq::empty(),
        a: Seq::empty(),
        b: Seq::empty(),
        c: Seq::empty(),
        input_assignment: seq![o],
        aux_assignment: Seq::empty(),
    }
}

/// Allocations never shrink the input side, and a seeded assignment keeps
/// at least its constant input.
pub proof fn lemma_stream_keeps_inputs(x: AssignmentView, s: Seq<Allocation>)
    ensures
        apply_stream(x, s).input_assignment.len() >= x.input_assignment.len(),
        apply_stream(x, s).b_input_density.len() >= x.b_input_density.len(),
    decreases s.len(),
{
    if s.len() > 0 {
        lemma_stream_keeps_inputs(x, s.drop_last());
    }
}

/// Applying a concatenation of streams is applying one after the other.
pub proof fn lemma_apply_stream_append(x: AssignmentView, s: Seq<Allocation>, t: Seq<Allocation>)
    ensures
        apply_stream(x, s + t) == apply_stream(apply_stream(x, s), t),
    decreases t.len(),
{
    if t.len() == 0 {
        assert(s + t =~= s);
    } else {
        lemma_apply_stream_append(x, s, t.drop_last());
        assert((s + t).drop_last() =~= s + t.drop_last());
        assert((s + t).last() == t.last());
    }
}

/// Merging commutes with one further allocation on the extension.
proof fn lemma_extend_allocation_commutes(x: AssignmentView, y: AssignmentView, e: Allocation)
    requires
        x.b_input_density.len() >= 1,
        y.b_input_density.len() >= 1,
        y.input_assignment.len() >= 1,
    ensures
        pa_extended(x, apply_allocation(y, e)) == apply_allocation(pa_extended(x, y), e),
{
    let l = pa_extended(x, apply_allocation(y, e));
    let r = apply_allocation(pa_extended(x, y), e);
    match e {
        Allocation::AuxValue(v) => {
            assert(l.a_aux_density =~= r.a_aux_density);
            assert(l.b_input_density =~= r.b_input_density);
            assert(l.b_aux_density =~= r.b_aux_density);
            assert(l.input_assignment =~= r.input_assignment);
            assert(l.aux_assignment =~= r.aux_assignment);
        },
        Allocation::InputValue(v) => {
            let yb = y.b_input_density;
            assert(yb.push(false)[0int] == yb[0int]);
            assert(yb.push(false).subrange(1, yb.len() as int + 1) =~= yb.subrange(
                1,
                yb.len() as int,
            ).push(false));
            assert(l.b_input_density =~= r.b_input_density);
            let yi = y.input_assignment;
            assert(yi.push(v).subrange(1, yi.len() as int + 1) =~= yi.subrange(
                1,
                yi.len() as int,
            ).push(v));
            assert(l.input_assignment =~= r.input_assignment);
            assert(l.a_aux_density =~= r.a_aux_density);
            assert(l.b_aux_density =~= r.b_aux_density);
            assert(l.aux_assignment =~= r.aux_assignment);
        },
    }
    assert(l.a =~= r.a);
    assert(l.b =~= r.b);
    assert(l.c =~= r.c);
}

/// Merging a freshly seeded, empty partial changes nothing.
proof fn lemma_extend_seeded(x: AssignmentView, o: Fr)
    requires
        x.b_input_density.len() >= 1,
    ensures
        pa_extended(x, seeded_view(o)) == x,
{
    let l = pa_extended(x, seeded_view(o));
    assert(l.b_input_density =~= x.b_input_density) by {
        assert(seq![false][0int] == false);
        assert(x.b_input_density.update(0, x.b_input_density[0] || false) =~= x.b_input_density);
        assert(seq![false].subrange(1, 1) =~= Seq::<bool>::empty());
    }
    assert(l.input_assignment =~= x.input_assignment) by {
        assert(seq![o].subrange(1, 1) =~= Seq::<Fr>::empty());
    }
    assert(l.a_aux_density =~= x.a_aux_density);
    assert(l.b_aux_density =~= x.b_aux_density);
    assert(l.a =~= x.a);
    assert(l.b =~= x.b);
    assert(l.c =~= x.c);
    assert(l.aux_assignment =~= x.aux_assignment);
}

/// Law: merging a partial assignment built by any allocation stream on a
/// fresh seed equals applying that stream directly to the receiver:
/// `extend` replays direct synthesis.
pub proof fn lemma_extend_replays_stream(x: AssignmentView, o: Fr, s: Seq<Allocation>)
    requires
        x.b_input_density.len() >= 1,
    ensures
        pa_extended(x, apply_stream(seeded_view(o), s)) == apply_stream(x, s),
    decreases s.len(),
{
    if s.len() == 0 {
        lemma_extend_seeded(x, o);
    } else {
        lemma_extend_replays_stream(x, o, s.drop_last());
        lemma_stream_keeps_inputs(seeded_view(o), s.drop_last());
        lemma_extend_allocation_commutes(
            x,
            apply_stream(seeded_view(o), s.drop_last()),
            s.last(),
        );
    }
}

/// The fold of `extend` over partial assignments built from the given
/// allocation streams, each on a fresh seed.
pub open spec fn fold_extends(
    x: AssignmentView,
    o: Fr,
    streams: Seq<Seq<Allocation>>,
) -> AssignmentView
    decreases streams.len(),
{
    if streams.len() == 0 {
        x
    } else {
        pa_extended(
            fold_extends(x, o, streams.drop_last()),
            apply_stream(seeded_view(o), streams.last()),
        )
    }
}

/// The concatenation of a sequence of allocation streams.
pub open spec fn concat_streams(streams: Seq<Seq<Allocation>>) -> Seq<Allocation>
    decreases streams.len(),
{
    if streams.len() == 0 {
        Seq::empty()
    } else {
        concat_streams(streams.drop_last()) + streams.last()
    }
}

/// Law: an allocation stream split at arbitrary boundaries into partial
/// assignments and folded back with `extend` equals direct synthesis with
/// the whole stream on one assignment.
pub proof fn lemma_extend_fold_replays(x: AssignmentView, o: Fr, streams: Seq<Seq<Allocation>>)
    requires
        x.b_input_density.len() >= 1,
    ensures
        fold_extends(x, o, streams) == apply_stream(x, concat_streams(streams)),
    decreases streams.len(),
{
    if streams.len() == 0 {
        assert(apply_stream(x, concat_streams(streams)) == x);
    } else {
        lemma_extend_fold_replays(x, o, streams.drop_last());
        lemma_stream_keeps_inputs(x, concat_streams(streams.drop_last()));
        lemma_extend_replays_stream(
            apply_stream(x, concat_streams(streams.drop_last())),
            o,
            streams.last(),
        );
        lemma_apply_stream_append(x, concat_streams(streams.drop_last()), streams.last());
    }
}

/// Law: extending density bit-sets is associative, on the auxiliary side as
/// plain concatenation and on the input side with the shared first position.
pub proof fn lemma_density_extend_associative(
    a: Seq<bool>,
    b: Seq<bool>,
    c: Seq<bool>,
    is_input: bool,
)
    ensures
        density_extended(density_extended(a, b, is_input), c, is_input) == density_extended(
            a,
            density_extended(b, c, is_input),
            is_input,
        ),
{
    if !is_input {
        assert((a + b) + c =~= a + (b + c));
    } else if a.len() == 0 {
        if b.len() == 0 {
        } else if c.len() == 0 {
        } else {
        }
    } else if b.len() == 0 {
    } else if c.len() == 0 {
    } else {
        let ab = a.update(0, a[0] || b[0]) + b.subrange(1, b.len() as int);
        let bc = b.update(0, b[0] || c[0]) + c.subrange(1, c.len() as int);
        assert(ab[0] == (a[0] || b[0]));
        assert(bc[0] == (b[0] || c[0]));
        assert(ab.update(0, ab[0] || c[0]) + c.subrange(1, c.len() as int) =~= a.update(
            0,
            a[0] || (b[0] || c[0]),
        ) + (bc.subrange(1, bc.len() as int)));
    }
}

} // verus!
