use vstd::prelude::*;

verus! {

/// The number of set bits in a bit sequence.
pub open spec fn popcount(s: Seq<bool>) -> nat
    decreases s.len(),
{
    if s.len() == 0 {
        0
    } else {
        popcount(s.drop_last()) + if s.last() {
            1nat
        } else {
            0nat
        }
    }
}

/// What extending one density bit-set by another yields: queries over
/// auxiliary variables are concatenated; queries over inputs share their
/// first position (the constant input), whose bits are merged.
pub open spec fn density_extended(a: Seq<bool>, b: Seq<bool>, is_input_density: bool) -> Seq<bool> {
    if !is_input_density {
        a + b
    } else if a.len() == 0 {
        b
    } else if b.len() == 0 {
        a
    } else {
        a.update(0, a[0] || b[0]) + b.subrange(1, b.len() as int)
    }
}

/// A bit-set over variable indices recording which positions carry a
/// non-zero coefficient in the corresponding query.
#[derive(Debug)]
pub struct DensityTracker {
    bv: Vec<bool>,
}

impl View for DensityTracker {
    type V = Seq<bool>;

    closed spec fn view(&self) -> Seq<bool> {
        self.bv@
    }
}

impl Clone for DensityTracker {
    fn clone(&self) -> (r: Self)
        ensures
            r@ == self@,
    {
        DensityTracker { bv: self.bv.clone() }
    }
}

impl DensityTracker {
    /// An empty tracker.
    pub fn new() -> (r: Self)
        ensures
            r@ == Seq::<bool>::empty(),
    {
        DensityTracker { bv: Vec::new() }
    }

    /// The number of tracked positions.
    pub fn len(&self) -> (r: usize)
        ensures
            r == self@.len(),
    {
        self.bv.len()
    }

    /// The bit at a position.
    pub fn get(&self, i: usize) -> (r: bool)
        requires
            i < self@.len(),
        ensures
            r == self@[i as int],
    {
        self.bv[i]
    }

    /// Track one more position, initially unset.
    pub fn add_element(&mut self)
        ensures
            final(self)@ == old(self)@.push(false),
    {
        self.bv.push(false);
    }

    /// Mark a position as carrying a non-zero coefficient.
    pub fn inc(&mut self, i: usize)
        requires
            i < old(self)@.len(),
        ensures
            final(self)@ == old(self)@.update(i as int, true),
    {
        self.bv.set(i, true);
    }

    /// The number of set positions.
    pub fn get_total_density(&self) -> (r: usize)
        ensures
            r == popcount(self@),
    {
        let mut cnt: usize = 0;
        let mut i: usize = 0;
        while i < self.bv.len()
            invariant
                i <= self@.len(),
                cnt <= i,
                cnt == popcount(self@.subrange(0, i as int)),
            decreases self@.len() - i,
        {
            proof {
                assert(self@.subrange(0, i + 1).drop_last() =~= self@.subrange(0, i as int));
                assert(self@.subrange(0, i + 1).last() == self@[i as int]);
            }
            if self.bv[i] {
                cnt += 1;
            }
            i += 1;
        }
        proof {
            assert(self@.subrange(0, self@.len() as int) =~= self@);
        }
        cnt
    }

    /// Whether two trackers hold the same bits.
    pub fn same_bits(&self, other: &DensityTracker) -> (r: bool)
        ensures
            r == (self@ == other@),
    {
        if self.bv.len() != other.bv.len() {
            return false;
        }
        let mut i: usize = 0;
        while i < self.bv.len()
            invariant
                i <= self@.len(),
                self@.len() == other@.len(),
                forall|j: int| 0 <= j < i ==> self@[j] == other@[j],
            decreases self@.len() - i,
        {
            if self.bv[i] != other.bv[i] {
                return false;
            }
            i += 1;
        }
        proof {
            assert(self@ =~= other@);
        }
        true
    }

    /// Merge the positions of another tracker after the positions of this
    /// one; for an input query the first position of each side is shared.
    pub fn extend(&mut self, other: DensityTracker, is_input_density: bool)
        ensures
            final(self)@ == density_extended(old(self)@, other@, is_input_density),
    {
        if !is_input_density {
            proof {
                assert(old(self)@ + other@.subrange(0, 0) =~= old(self)@);
            }
            let mut j: usize = 0;
            while j < other.bv.len()
                invariant
                    j <= other@.len(),
                    self@ == old(self)@ + other@.subrange(0, j as int),
                decreases other@.len() - j,
            {
                let ghost pre = self@;
                self.bv.push(other.bv[j]);
                proof {
                    assert(pre.push(other@[j as int]) =~= old(self)@ + other@.subrange(
                        0,
                        j + 1,
                    ));
                }
                j += 1;
            }
            proof {
                assert(other@.subrange(0, other@.len() as int) =~= other@);
            }
        } else if self.bv.len() == 0 {
            self.bv = other.bv;
        } else if other.bv.len() == 0 {
            proof {
                assert(density_extended(old(self)@, other@, true) == self@);
            }
        } else {
            let merged = self.bv[0] || other.bv[0];
            self.bv.set(0, merged);
            proof {
                assert(old(self)@.update(0, old(self)@[0] || other@[0]) + other@.subrange(1, 1)
                    =~= old(self)@.update(0, old(self)@[0] || other@[0]));
            }
            let mut j: usize = 1;
            while j < other.bv.len()
                invariant
                    1 <= j <= other@.len(),
                    self@ == old(self)@.update(0, old(self)@[0] || other@[0]) + other@.subrange(
                        1,
                        j as int,
                    ),
                decreases other@.len() - j,
            {
                let ghost pre = self@;
                self.bv.push(other.bv[j]);
                proof {
                    assert(pre.push(other@[j as int]) =~= old(self)@.update(
                        0,
                        old(self)@[0] || other@[0],
                    ) + other@.subrange(1, j + 1));
                }
                j += 1;
            }
            proof {
                assert(other@.subrange(1, other@.len() as int) =~= other@.subrange(
                    1,
                    other@.len() as int,
                ));
            }
        }
    }
}

} // verus!
