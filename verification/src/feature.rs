//! The sub-models of a feature set.
//!
//! Four categorical variants (plain, conditioned on one index, two-index
//! joint, two-index conditioned on one), an insertion model (length
//! distribution, first-base bias, base-transition chain), and a Poisson
//! error model. Each answers point likelihood queries, accumulates
//! weighted observation counts, renormalizes those counts into fresh
//! parameters (`cleanup`), and averages parameter values across instances.

use vstd::prelude::*;
use vstd::arithmetic::div_mod::{
    lemma_div_is_ordered, lemma_div_is_ordered_by_denominator, lemma_div_multiples_vanish,
    lemma_div_nonincreasing, lemma_div_pos_is_pos,
};
use crate::error::{ModelError, SubModel};
use crate::prob::{pmul, pmul_spec, SCALE};
use crate::table::ProbTable;
use crate::table::ACC_RENORM_MAX;

verus! {

/// The accumulator sequence `d` after adding weight `w` at index `idx`;
/// an out-of-range index leaves it unchanged.
pub open spec fn dirty_after(d: Seq<u128>, idx: int, w: int) -> Seq<u128> {
    if 0 <= idx < d.len() {
        d.update(idx, (d[idx] + w) as u128)
    } else {
        d
    }
}

/// A categorical distribution over one index.
pub struct CategoricalFeature1 {
    /// One conditioning slice holding the whole distribution.
    pub t: ProbTable,
    /// Which sub-model this table plays in a feature set.
    pub tag: SubModel,
}

impl CategoricalFeature1 {
    /// Table invariant: a single normalized slice.
    pub open spec fn wf(self) -> bool {
        &&& self.t.wf()
        &&& self.t.ngroups == 1
    }

    /// Probability of index `a`; zero out of range.
    pub open spec fn lik(self, a: int) -> int {
        self.t.at(a)
    }

    /// Validates and wraps a distribution over one index.
    pub fn new(probs: Vec<u64>, tag: SubModel) -> (r: Result<CategoricalFeature1, ModelError>)
        ensures
            r.is_ok() <==> (ProbTable::shape_ok(probs@, 1) && ProbTable::values_ok(probs@)
                && ProbTable::sums_ok(probs@, 1)),
            r.is_ok() ==> {
                let f = r.unwrap();
                &&& f.wf()
                &&& f.tag == tag
                &&& f.t.probs@ == probs@
                &&& forall|i: int| 0 <= i < f.t.dirty@.len() ==> f.t.dirty@[i] == 0
                &&& f.t.group_prob_sum(0) == SCALE
            },
            r matches Err(e) ==> (e == ModelError::BadShape(tag) || e == ModelError::ValueTooLarge(
                tag,
            ) || e == ModelError::BadGroupSum(tag)),
    {
        let t = ProbTable::new(probs, 1, tag)?;
        Ok(CategoricalFeature1 { t, tag })
    }

    /// Point likelihood of index `a`.
    pub fn likelihood(&self, a: usize) -> (r: u64)
        requires
            self.wf(),
        ensures
            r as int == self.lik(a as int),
            r <= SCALE,
    {
        self.t.get(a)
    }

    /// Adds weight `w` to the accumulator cell of index `a`; an
    /// out-of-range index accumulates nothing.
    pub fn dirty_update(&mut self, a: usize, w: u64)
        requires
            a < old(self).t.dirty@.len() ==> old(self).t.dirty@[a as int] + w <= u128::MAX,
        ensures
            final(self).t.dirty@ == dirty_after(old(self).t.dirty@, a as int, w as int),
            final(self).t.probs == old(self).t.probs,
            final(self).t.gsize == old(self).t.gsize,
            final(self).t.ngroups == old(self).t.ngroups,
            final(self).tag == old(self).tag,
    {
        if a < self.t.dirty.len() {
            self.t.add_dirty(a, w as u128);
        }
    }

    /// Renormalizes the accumulator into a fresh instance.
    pub fn cleanup(&self) -> (r: Result<CategoricalFeature1, ModelError>)
        requires
            self.wf(),
        ensures
            r.is_err() <==> exists|i: int|
                0 <= i < self.t.dirty@.len() && self.t.dirty@[i] > ACC_RENORM_MAX,
            r matches Err(e) ==> e == ModelError::AccumulatorOverflow(self.tag),
            r.is_ok() ==> {
                let f = r.unwrap();
                &&& f.wf()
                &&& f.tag == self.tag
                &&& f.t.same_shape(self.t)
                &&& forall|i: int| 0 <= i < f.t.dirty@.len() ==> f.t.dirty@[i] == 0
                &&& forall|i: int|
                    0 <= i < f.t.probs@.len() ==> f.t.probs@[i] as int == self.t.cleanup_cell(i)
            },
    {
        let t = self.t.cleanup(self.tag)?;
        Ok(CategoricalFeature1 { t, tag: self.tag })
    }

    /// Elementwise mean of the instances' parameter values.
    pub fn average(xs: &Vec<&CategoricalFeature1>) -> (r: Result<
        CategoricalFeature1,
        ModelError,
    >)
        requires
            forall|j: int| 0 <= j < xs@.len() ==> xs@[j].wf(),
        ensures
            r.is_ok() <==> (xs@.len() > 0 && forall|j: int|
                0 < j < xs@.len() ==> xs@[0].t.same_shape(#[trigger] xs@[j].t)),
            r.is_ok() ==> {
                let f = r.unwrap();
                &&& f.wf()
                &&& f.tag == xs@[0].tag
                &&& f.t.same_shape(xs@[0].t)
                &&& forall|i: int| 0 <= i < f.t.dirty@.len() ==> f.t.dirty@[i] == 0
                &&& forall|i: int|
                    0 <= i < f.t.probs@.len() ==> f.t.probs@[i] as int == ProbTable::col_sum(
                        xs@.map_values(|x: &CategoricalFeature1| &x.t),
                        i,
                    ) / (xs@.len() as int)
            },
            r matches Err(e) ==> (e is EmptyInput || e is ShapeMismatch),
    {
        let mut ts: Vec<&ProbTable> = Vec::new();
        let n: usize = xs.len();
        for j in 0..n
            invariant
                ts@ == xs@.take(j as int).map_values(|x: &CategoricalFeature1| &x.t),
        {
            proof {
                assert(xs@.take(j + 1).map_values(|x: &CategoricalFeature1| &x.t) =~= xs@.take(
                    j as int,
                ).map_values(|x: &CategoricalFeature1| &x.t).push(&xs@[j as int].t));
            }
            ts.push(&xs[j].t);
        }
        proof {
            assert(xs@.take(n as int) =~= xs@);
            assert forall|j: int| 0 <= j < ts@.len() implies ts@[j].wf() by {
                assert(ts@[j] == xs@[j].t);
            }
        }
        let tag: SubModel = if xs.len() > 0 {
            xs[0].tag
        } else {
            SubModel::VGene
        };
        proof {
            assert forall|j: int| 0 <= j < ts@.len() implies #[trigger] ts@[j] == &xs@[j].t by {}
            if forall|j: int| 0 < j < xs@.len() ==> xs@[0].t.same_shape(#[trigger] xs@[j].t) {
                assert forall|j: int|
                    0 < j < ts@.len() implies ts@[0].same_shape(*(#[trigger] ts@[j])) by {
                    assert(xs@[0].t.same_shape(xs@[j].t));
                }
            } else {
                let j0 = choose|j: int|
                    0 < j < xs@.len() && !xs@[0].t.same_shape(#[trigger] xs@[j].t);
                assert(!ts@[0].same_shape(*ts@[j0]));
            }
        }
        let t = ProbTable::average(&ts, tag)?;
        Ok(CategoricalFeature1 { t, tag })
    }
}

/// A categorical distribution over one index, conditioned on a second.
///
/// Cell layout: all probabilities sharing one conditioning index form one
/// contiguous normalized slice.
pub struct CategoricalFeature1g1 {
    /// One conditioning slice per value of the conditioning index.
    pub t: ProbTable,
    /// Which sub-model this table plays in a feature set.
    pub tag: SubModel,
}

impl CategoricalFeature1g1 {
    /// Table invariant.
    pub open spec fn wf(self) -> bool {
        self.t.wf()
    }

    /// Flat cell index of `(a | b)`.
    pub open spec fn idx(self, a: int, b: int) -> int {
        b * self.t.gsize + a
    }

    /// Probability of `a` given `b`; zero out of range.
    pub open spec fn lik(self, a: int, b: int) -> int {
        if 0 <= a < self.t.gsize && 0 <= b < self.t.ngroups {
            self.t.at(self.idx(a, b))
        } else {
            0
        }
    }

    /// Number of values the conditioned index ranges over.
    pub fn dim0(&self) -> (r: usize)
        ensures
            r == self.t.gsize,
    {
        self.t.gsize
    }

    /// Validates and wraps a conditioned distribution; `probs` holds
    /// `ngroups` contiguous slices.
    pub fn new(probs: Vec<u64>, ngroups: usize, tag: SubModel) -> (r: Result<
        CategoricalFeature1g1,
        ModelError,
    >)
        ensures
            r.is_ok() <==> (ProbTable::shape_ok(probs@, ngroups as int) && ProbTable::values_ok(
                probs@,
            ) && ProbTable::sums_ok(probs@, ngroups as int)),
            r.is_ok() ==> {
                let f = r.unwrap();
                &&& f.wf()
                &&& f.tag == tag
                &&& f.t.probs@ == probs@
                &&& f.t.ngroups == ngroups
                &&& forall|i: int| 0 <= i < f.t.dirty@.len() ==> f.t.dirty@[i] == 0
                &&& forall|g: int| 0 <= g < ngroups ==> f.t.group_prob_sum(g) == SCALE
            },
            r matches Err(e) ==> (e == ModelError::BadShape(tag) || e == ModelError::ValueTooLarge(
                tag,
            ) || e == ModelError::BadGroupSum(tag)),
    {
        let t = ProbTable::new(probs, ngroups, tag)?;
        Ok(CategoricalFeature1g1 { t, tag })
    }

    /// Point likelihood of `(a | b)`, the pair given as `(a, b)`.
    pub fn likelihood(&self, ab: (usize, usize)) -> (r: u64)
        requires
            self.wf(),
        ensures
            r as int == self.lik(ab.0 as int, ab.1 as int),
            r <= SCALE,
    {
        let (a, b) = ab;
        if a < self.t.gsize && b < self.t.ngroups {
            proof {
                assert((b as int) * (self.t.gsize as int) + (a as int) < (
                self.t.ngroups as int) * (self.t.gsize as int)) by (nonlinear_arith)
                    requires
                        a < self.t.gsize && b < self.t.ngroups && self.t.gsize >= 1,
                ;
            }
            let idx: u64 = (b as u64) * (self.t.gsize as u64) + (a as u64);
            self.t.get(idx as usize)
        } else {
            0
        }
    }

    /// Adds weight `w` to the accumulator cell of `(a | b)`; an
    /// out-of-range pair accumulates nothing.
    pub fn dirty_update(&mut self, ab: (usize, usize), w: u64)
        requires
            old(self).wf(),
            forall|i: int|
                0 <= i < old(self).t.dirty@.len() ==> #[trigger] old(self).t.dirty@[i] + w
                    <= u128::MAX,
        ensures
            final(self).t.dirty@ == (if 0 <= ab.0 < old(self).t.gsize && 0 <= ab.1 < old(
                self,
            ).t.ngroups {
                dirty_after(old(self).t.dirty@, old(self).idx(ab.0 as int, ab.1 as int), w as int)
            } else {
                old(self).t.dirty@
            }),
            final(self).t.probs == old(self).t.probs,
            final(self).t.gsize == old(self).t.gsize,
            final(self).t.ngroups == old(self).t.ngroups,
            final(self).tag == old(self).tag,
    {
        let (a, b) = ab;
        if a < self.t.gsize && b < self.t.ngroups {
            proof {
                assert((b as int) * (self.t.gsize as int) + (a as int) < (
                self.t.ngroups as int) * (self.t.gsize as int)) by (nonlinear_arith)
                    requires
                        a < self.t.gsize && b < self.t.ngroups && self.t.gsize >= 1,
                ;
            }
            let idx: u64 = (b as u64) * (self.t.gsize as u64) + (a as u64);
            self.t.add_dirty(idx as usize, w as u128);
        }
    }

    /// Renormalizes the accumulator into a fresh instance.
    pub fn cleanup(&self) -> (r: Result<CategoricalFeature1g1, ModelError>)
        requires
            self.wf(),
        ensures
            r.is_err() <==> exists|i: int|
                0 <= i < self.t.dirty@.len() && self.t.dirty@[i] > ACC_RENORM_MAX,
            r matches Err(e) ==> e == ModelError::AccumulatorOverflow(self.tag),
            r.is_ok() ==> {
                let f = r.unwrap();
                &&& f.wf()
                &&& f.tag == self.tag
                &&& f.t.same_shape(self.t)
                &&& forall|i: int| 0 <= i < f.t.dirty@.len() ==> f.t.dirty@[i] == 0
                &&& forall|i: int|
                    0 <= i < f.t.probs@.len() ==> f.t.probs@[i] as int == self.t.cleanup_cell(i)
            },
    {
        let t = self.t.cleanup(self.tag)?;
        Ok(CategoricalFeature1g1 { t, tag: self.tag })
    }

    /// Elementwise mean of the instances' parameter values.
    pub fn average(xs: &Vec<&CategoricalFeature1g1>) -> (r: Result<
        CategoricalFeature1g1,
        ModelError,
    >)
        requires
            forall|j: int| 0 <= j < xs@.len() ==> xs@[j].wf(),
        ensures
            r.is_ok() <==> (xs@.len() > 0 && forall|j: int|
                0 < j < xs@.len() ==> xs@[0].t.same_shape(#[trigger] xs@[j].t)),
            r.is_ok() ==> {
                let f = r.unwrap();
                &&& f.wf()
                &&& f.tag == xs@[0].tag
                &&& f.t.same_shape(xs@[0].t)
                &&& forall|i: int| 0 <= i < f.t.dirty@.len() ==> f.t.dirty@[i] == 0
                &&& forall|i: int|
                    0 <= i < f.t.probs@.len() ==> f.t.probs@[i] as int == ProbTable::col_sum(
                        xs@.map_values(|x: &CategoricalFeature1g1| &x.t),
                        i,
                    ) / (xs@.len() as int)
            },
            r matches Err(e) ==> (e is EmptyInput || e is ShapeMismatch),
    {
        let mut ts: Vec<&ProbTable> = Vec::new();
        let n: usize = xs.len();
        for j in 0..n
            invariant
                ts@ == xs@.take(j as int).map_values(|x: &CategoricalFeature1g1| &x.t),
        {
            proof {
                assert(xs@.take(j + 1).map_values(|x: &CategoricalFeature1g1| &x.t) =~= xs@.take(
                    j as int,
                ).map_values(|x: &CategoricalFeature1g1| &x.t).push(&xs@[j as int].t));
            }
            ts.push(&xs[j].t);
        }
        proof {
            assert(xs@.take(n as int) =~= xs@);
            assert forall|j: int| 0 <= j < ts@.len() implies ts@[j].wf() by {
                assert(ts@[j] == xs@[j].t);
            }
        }
        let tag: SubModel = if xs.len() > 0 {
            xs[0].tag
        } else {
            SubModel::DelV
        };
        proof {
            assert forall|j: int| 0 <= j < ts@.len() implies #[trigger] ts@[j] == &xs@[j].t by {}
            if forall|j: int| 0 < j < xs@.len() ==> xs@[0].t.same_shape(#[trigger] xs@[j].t) {
                assert forall|j: int|
                    0 < j < ts@.len() implies ts@[0].same_shape(*(#[trigger] ts@[j])) by {
                    assert(xs@[0].t.same_shape(xs@[j].t));
                }
            } else {
                let j0 = choose|j: int|
                    0 < j < xs@.len() && !xs@[0].t.same_shape(#[trigger] xs@[j].t);
                assert(!ts@[0].same_shape(*ts@[j0]));
            }
        }
        let t = ProbTable::average(&ts, tag)?;
        Ok(CategoricalFeature1g1 { t, tag })
    }
}

/// A joint categorical distribution over two indices, normalized as a
/// whole.
pub struct CategoricalFeature2 {
    /// One conditioning slice holding the whole joint table.
    pub t: ProbTable,
    /// Range of the first index.
    pub d0: usize,
    /// Range of the second index.
    pub d1: usize,
    /// Which sub-model this table plays in a feature set.
    pub tag: SubModel,
}

impl CategoricalFeature2 {
    /// Table invariant: one slice shaped `d0 x d1`.
    pub open spec fn wf(self) -> bool {
        &&& self.t.wf()
        &&& self.t.ngroups == 1
        &&& self.d0 >= 1
        &&& self.d1 >= 1
        &&& (self.d0 as int) * (self.d1 as int) == self.t.probs@.len()
    }

    /// Flat cell index of `(x, y)`.
    pub open spec fn idx(self, x: int, y: int) -> int {
        x * self.d1 + y
    }

    /// Probability of the pair `(x, y)`; zero out of range.
    pub open spec fn lik(self, x: int, y: int) -> int {
        if 0 <= x < self.d0 && 0 <= y < self.d1 {
            self.t.at(self.idx(x, y))
        } else {
            0
        }
    }

    /// Validates and wraps a joint distribution shaped `d0 x d1`.
    pub fn new(probs: Vec<u64>, d0: usize, d1: usize, tag: SubModel) -> (r: Result<
        CategoricalFeature2,
        ModelError,
    >)
        ensures
            r.is_ok() <==> (d0 >= 1 && d1 >= 1 && d0 <= crate::table::CELLS_MAX && d1
                <= crate::table::CELLS_MAX && (d0 as int) * (d1 as int) == probs@.len()
                && ProbTable::shape_ok(probs@, 1) && ProbTable::values_ok(probs@)
                && ProbTable::sums_ok(probs@, 1)),
            r.is_ok() ==> {
                let f = r.unwrap();
                &&& f.wf()
                &&& f.tag == tag
                &&& f.d0 == d0
                &&& f.d1 == d1
                &&& f.t.probs@ == probs@
                &&& forall|i: int| 0 <= i < f.t.dirty@.len() ==> f.t.dirty@[i] == 0
                &&& f.t.group_prob_sum(0) == SCALE
            },
            r matches Err(e) ==> (e == ModelError::BadShape(tag) || e == ModelError::ValueTooLarge(
                tag,
            ) || e == ModelError::BadGroupSum(tag)),
    {
        if d0 == 0 || d1 == 0 || d0 > crate::table::CELLS_MAX || d1 > crate::table::CELLS_MAX {
            return Err(ModelError::BadShape(tag));
        }
        proof {
            assert((d0 as int) * (d1 as int) <= (crate::table::CELLS_MAX as int) * (
            crate::table::CELLS_MAX as int) < u64::MAX) by (nonlinear_arith)
                requires d0 <= crate::table::CELLS_MAX && d1 <= crate::table::CELLS_MAX;
        }
        let prod: u64 = (d0 as u64) * (d1 as u64);
        if prod != probs.len() as u64 {
            return Err(ModelError::BadShape(tag));
        }
        let t = ProbTable::new(probs, 1, tag)?;
        Ok(CategoricalFeature2 { t, d0, d1, tag })
    }

    /// Point likelihood of the pair `(x, y)`.
    pub fn likelihood(&self, xy: (usize, usize)) -> (r: u64)
        requires
            self.wf(),
        ensures
            r as int == self.lik(xy.0 as int, xy.1 as int),
            r <= SCALE,
    {
        let (x, y) = xy;
        if x < self.d0 && y < self.d1 {
            proof {
                assert((x as int) * (self.d1 as int) + (y as int) < (self.d0 as int) * (
                self.d1 as int)) by (nonlinear_arith)
                    requires x < self.d0 && y < self.d1 && self.d1 >= 1;
            }
            let idx: u64 = (x as u64) * (self.d1 as u64) + (y as u64);
            self.t.get(idx as usize)
        } else {
            0
        }
    }

    /// Adds weight `w` to the accumulator cell of `(x, y)`; an
    /// out-of-range pair accumulates nothing.
    pub fn dirty_update(&mut self, xy: (usize, usize), w: u64)
        requires
            old(self).wf(),
            forall|i: int|
                0 <= i < old(self).t.dirty@.len() ==> #[trigger] old(self).t.dirty@[i] + w
                    <= u128::MAX,
        ensures
            final(self).t.dirty@ == (if 0 <= xy.0 < old(self).d0 && 0 <= xy.1 < old(self).d1 {
                dirty_after(old(self).t.dirty@, old(self).idx(xy.0 as int, xy.1 as int), w as int)
            } else {
                old(self).t.dirty@
            }),
            final(self).t.probs == old(self).t.probs,
            final(self).t.gsize == old(self).t.gsize,
            final(self).t.ngroups == old(self).t.ngroups,
            final(self).d0 == old(self).d0,
            final(self).d1 == old(self).d1,
            final(self).tag == old(self).tag,
    {
        let (x, y) = xy;
        if x < self.d0 && y < self.d1 {
            proof {
                assert((x as int) * (self.d1 as int) + (y as int) < (self.d0 as int) * (
                self.d1 as int)) by (nonlinear_arith)
                    requires x < self.d0 && y < self.d1 && self.d1 >= 1;
            }
            let idx: u64 = (x as u64) * (self.d1 as u64) + (y as u64);
            self.t.add_dirty(idx as usize, w as u128);
        }
    }

    /// Renormalizes the accumulator into a fresh instance.
    pub fn cleanup(&self) -> (r: Result<CategoricalFeature2, ModelError>)
        requires
            self.wf(),
        ensures
            r.is_err() <==> exists|i: int|
                0 <= i < self.t.dirty@.len() && self.t.dirty@[i] > ACC_RENORM_MAX,
            r matches Err(e) ==> e == ModelError::AccumulatorOverflow(self.tag),
            r.is_ok() ==> {
                let f = r.unwrap();
                &&& f.wf()
                &&& f.tag == self.tag
                &&& f.d0 == self.d0
                &&& f.d1 == self.d1
                &&& f.t.same_shape(self.t)
                &&& forall|i: int| 0 <= i < f.t.dirty@.len() ==> f.t.dirty@[i] == 0
                &&& forall|i: int|
                    0 <= i < f.t.probs@.len() ==> f.t.probs@[i] as int == self.t.cleanup_cell(i)
            },
    {
        let t = self.t.cleanup(self.tag)?;
        Ok(CategoricalFeature2 { t, d0: self.d0, d1: self.d1, tag: self.tag })
    }

    /// Elementwise mean of the instances' parameter values.
    pub fn average(xs: &Vec<&CategoricalFeature2>) -> (r: Result<CategoricalFeature2, ModelError>)
        requires
            forall|j: int| 0 <= j < xs@.len() ==> xs@[j].wf(),
        ensures
            r.is_ok() <==> (xs@.len() > 0 && forall|j: int|
                0 < j < xs@.len() ==> (xs@[0].t.same_shape(#[trigger] xs@[j].t) && xs@[0].d0
                    == xs@[j].d0 && xs@[0].d1 == xs@[j].d1)),
            r.is_ok() ==> {
                let f = r.unwrap();
                &&& f.wf()
                &&& f.tag == xs@[0].tag
                &&& f.d0 == xs@[0].d0
                &&& f.d1 == xs@[0].d1
                &&& f.t.same_shape(xs@[0].t)
                &&& forall|i: int| 0 <= i < f.t.dirty@.len() ==> f.t.dirty@[i] == 0
                &&& forall|i: int|
                    0 <= i < f.t.probs@.len() ==> f.t.probs@[i] as int == ProbTable::col_sum(
                        xs@.map_values(|x: &CategoricalFeature2| &x.t),
                        i,
                    ) / (xs@.len() as int)
            },
            r matches Err(e) ==> (e is EmptyInput || e is ShapeMismatch),
    {
        if xs.len() == 0 {
            return Err(ModelError::EmptyInput);
        }
        let n: usize = xs.len();
        for j in 1..n
            invariant
                forall|h: int|
                    0 < h < j ==> xs@[0].d0 == #[trigger] xs@[h].d0 && xs@[0].d1 == xs@[h].d1,
        {
            if xs[j].d0 != xs[0].d0 || xs[j].d1 != xs[0].d1 {
                proof {
                    assert(!(xs@[0].d0 == xs@[j as int].d0 && xs@[0].d1 == xs@[j as int].d1));
                }
                return Err(ModelError::ShapeMismatch(xs[0].tag));
            }
        }
        let mut ts: Vec<&ProbTable> = Vec::new();
        for j in 0..n
            invariant
                ts@ == xs@.take(j as int).map_values(|x: &CategoricalFeature2| &x.t),
        {
            proof {
                assert(xs@.take(j + 1).map_values(|x: &CategoricalFeature2| &x.t) =~= xs@.take(
                    j as int,
                ).map_values(|x: &CategoricalFeature2| &x.t).push(&xs@[j as int].t));
            }
            ts.push(&xs[j].t);
        }
        proof {
            assert(xs@.take(n as int) =~= xs@);
            assert forall|j: int| 0 <= j < ts@.len() implies ts@[j].wf() by {
                assert(ts@[j] == xs@[j].t);
            }
            assert forall|j: int| 0 <= j < ts@.len() implies #[trigger] ts@[j] == &xs@[j].t by {}
            if forall|j: int| 0 < j < xs@.len() ==> xs@[0].t.same_shape(#[trigger] xs@[j].t) {
                assert forall|j: int|
                    0 < j < ts@.len() implies ts@[0].same_shape(*(#[trigger] ts@[j])) by {
                    assert(xs@[0].t.same_shape(xs@[j].t));
                }
            } else {
                let j0 = choose|j: int|
                    0 < j < xs@.len() && !xs@[0].t.same_shape(#[trigger] xs@[j].t);
                assert(!ts@[0].same_shape(*ts@[j0]));
            }
        }
        let tag: SubModel = xs[0].tag;
        let t = ProbTable::average(&ts, tag)?;
        Ok(CategoricalFeature2 { t, d0: xs[0].d0, d1: xs[0].d1, tag })
    }
}

/// A joint categorical distribution over two indices, conditioned on a
/// third.
pub struct CategoricalFeature2g1 {
    /// One conditioning slice per value of the conditioning index; each
    /// slice is a joint table shaped `d0 x d1`.
    pub t: ProbTable,
    /// Range of the first conditioned index.
    pub d0: usize,
    /// Range of the second conditioned index.
    pub d1: usize,
    /// Which sub-model this table plays in a feature set.
    pub tag: SubModel,
}

impl CategoricalFeature2g1 {
    /// Table invariant: each slice is shaped `d0 x d1`.
    pub open spec fn wf(self) -> bool {
        &&& self.t.wf()
        &&& self.d0 >= 1
        &&& self.d1 >= 1
        &&& (self.d0 as int) * (self.d1 as int) == self.t.gsize
    }

    /// Flat cell index of `(x, y | z)`.
    pub open spec fn idx(self, x: int, y: int, z: int) -> int {
        z * self.t.gsize + x * self.d1 + y
    }

    /// Probability of `(x, y)` given `z`; zero out of range.
    pub open spec fn lik(self, x: int, y: int, z: int) -> int {
        if 0 <= x < self.d0 && 0 <= y < self.d1 && 0 <= z < self.t.ngroups {
            self.t.at(self.idx(x, y, z))
        } else {
            0
        }
    }

    /// Ranges of the two conditioned indices.
    pub fn dims(&self) -> (r: (usize, usize))
        ensures
            r.0 == self.d0,
            r.1 == self.d1,
    {
        (self.d0, self.d1)
    }

    /// Validates and wraps a conditioned joint distribution: `probs`
    /// holds `ngroups` slices shaped `d0 x d1`.
    pub fn new(probs: Vec<u64>, d0: usize, d1: usize, ngroups: usize, tag: SubModel) -> (r: Result<
        CategoricalFeature2g1,
        ModelError,
    >)
        ensures
            r.is_ok() <==> (d0 >= 1 && d1 >= 1 && d0 <= crate::table::CELLS_MAX && d1
                <= crate::table::CELLS_MAX && ngroups >= 1 && (probs@.len() as int) % (
            ngroups as int) == 0 && (d0 as int) * (d1 as int) == (probs@.len() as int) / (
            ngroups as int) && ProbTable::shape_ok(probs@, ngroups as int)
                && ProbTable::values_ok(probs@) && ProbTable::sums_ok(probs@, ngroups as int)),
            r.is_ok() ==> {
                let f = r.unwrap();
                &&& f.wf()
                &&& f.tag == tag
                &&& f.d0 == d0
                &&& f.d1 == d1
                &&& f.t.ngroups == ngroups
                &&& f.t.probs@ == probs@
                &&& forall|i: int| 0 <= i < f.t.dirty@.len() ==> f.t.dirty@[i] == 0
                &&& forall|g: int| 0 <= g < ngroups ==> f.t.group_prob_sum(g) == SCALE
            },
            r matches Err(e) ==> (e == ModelError::BadShape(tag) || e == ModelError::ValueTooLarge(
                tag,
            ) || e == ModelError::BadGroupSum(tag)),
    {
        if d0 == 0 || d1 == 0 || d0 > crate::table::CELLS_MAX || d1 > crate::table::CELLS_MAX {
            return Err(ModelError::BadShape(tag));
        }
        proof {
            assert((d0 as int) * (d1 as int) <= (crate::table::CELLS_MAX as int) * (
            crate::table::CELLS_MAX as int) < u64::MAX) by (nonlinear_arith)
                requires d0 <= crate::table::CELLS_MAX && d1 <= crate::table::CELLS_MAX;
        }
        let prod: u64 = (d0 as u64) * (d1 as u64);
        if ngroups == 0 || prod != (probs.len() as u64) / (ngroups as u64) || probs.len() as u64
            % (ngroups as u64) != 0 {
            return Err(ModelError::BadShape(tag));
        }
        let t = ProbTable::new(probs, ngroups, tag)?;
        proof {
            if t.wf() {
            }
        }
        let f = CategoricalFeature2g1 { t, d0, d1, tag };
        proof {
            assert((f.d0 as int) * (f.d1 as int) == f.t.gsize);
        }
        Ok(f)
    }

    /// Point likelihood of `(x, y | z)`, given as `(x, y, z)`.
    pub fn likelihood(&self, xyz: (usize, usize, usize)) -> (r: u64)
        requires
            self.wf(),
        ensures
            r as int == self.lik(xyz.0 as int, xyz.1 as int, xyz.2 as int),
            r <= SCALE,
    {
        let (x, y, z) = xyz;
        if x < self.d0 && y < self.d1 && z < self.t.ngroups {
            proof {
                assert((x as int) * (self.d1 as int) + (y as int) < self.t.gsize)
                    by (nonlinear_arith)
                    requires
                        x < self.d0 && y < self.d1 && self.d1 >= 1 && (self.d0 as int) * (
                        self.d1 as int) == self.t.gsize,
                ;
                assert((z as int) * (self.t.gsize as int) + self.t.gsize <= (
                self.t.ngroups as int) * (self.t.gsize as int)) by (nonlinear_arith)
                    requires z < self.t.ngroups && self.t.gsize >= 1;
            }
            let idx: u64 = (z as u64) * (self.t.gsize as u64) + (x as u64) * (self.d1 as u64) + (
            y as u64);
            self.t.get(idx as usize)
        } else {
            0
        }
    }

    /// Adds weight `w` to the accumulator cell of `(x, y | z)`; an
    /// out-of-range triple accumulates nothing.
    pub fn dirty_update(&mut self, xyz: (usize, usize, usize), w: u64)
        requires
            old(self).wf(),
            forall|i: int|
                0 <= i < old(self).t.dirty@.len() ==> #[trigger] old(self).t.dirty@[i] + w
                    <= u128::MAX,
        ensures
            final(self).t.dirty@ == (if 0 <= xyz.0 < old(self).d0 && 0 <= xyz.1 < old(self).d1
                && 0 <= xyz.2 < old(self).t.ngroups {
                dirty_after(
                    old(self).t.dirty@,
                    old(self).idx(xyz.0 as int, xyz.1 as int, xyz.2 as int),
                    w as int,
                )
            } else {
                old(self).t.dirty@
            }),
            final(self).t.probs == old(self).t.probs,
            final(self).t.gsize == old(self).t.gsize,
            final(self).t.ngroups == old(self).t.ngroups,
            final(self).d0 == old(self).d0,
            final(self).d1 == old(self).d1,
            final(self).tag == old(self).tag,
    {
        let (x, y, z) = xyz;
        if x < self.d0 && y < self.d1 && z < self.t.ngroups {
            proof {
                assert((x as int) * (self.d1 as int) + (y as int) < self.t.gsize)
                    by (nonlinear_arith)
                    requires
                        x < self.d0 && y < self.d1 && self.d1 >= 1 && (self.d0 as int) * (
                        self.d1 as int) == self.t.gsize,
                ;
                assert((z as int) * (self.t.gsize as int) + self.t.gsize <= (
                self.t.ngroups as int) * (self.t.gsize as int)) by (nonlinear_arith)
                    requires z < self.t.ngroups && self.t.gsize >= 1;
            }
            let idx: u64 = (z as u64) * (self.t.gsize as u64) + (x as u64) * (self.d1 as u64) + (
            y as u64);
            self.t.add_dirty(idx as usize, w as u128);
        }
    }

    /// Renormalizes the accumulator into a fresh instance.
    pub fn cleanup(&self) -> (r: Result<CategoricalFeature2g1, ModelError>)
        requires
            self.wf(),
        ensures
            r.is_err() <==> exists|i: int|
                0 <= i < self.t.dirty@.len() && self.t.dirty@[i] > ACC_RENORM_MAX,
            r matches Err(e) ==> e == ModelError::AccumulatorOverflow(self.tag),
            r.is_ok() ==> {
                let f = r.unwrap();
                &&& f.wf()
                &&& f.tag == self.tag
                &&& f.d0 == self.d0
                &&& f.d1 == self.d1
                &&& f.t.same_shape(self.t)
                &&& forall|i: int| 0 <= i < f.t.dirty@.len() ==> f.t.dirty@[i] == 0
                &&& forall|i: int|
                    0 <= i < f.t.probs@.len() ==> f.t.probs@[i] as int == self.t.cleanup_cell(i)
            },
    {
        let t = self.t.cleanup(self.tag)?;
        Ok(CategoricalFeature2g1 { t, d0: self.d0, d1: self.d1, tag: self.tag })
    }

    /// Elementwise mean of the instances' parameter values.
    pub fn average(xs: &Vec<&CategoricalFeature2g1>) -> (r: Result<
        CategoricalFeature2g1,
        ModelError,
    >)
        requires
            forall|j: int| 0 <= j < xs@.len() ==> xs@[j].wf(),
        ensures
            r.is_ok() <==> (xs@.len() > 0 && forall|j: int|
                0 < j < xs@.len() ==> (xs@[0].t.same_shape(#[trigger] xs@[j].t) && xs@[0].d0
                    == xs@[j].d0 && xs@[0].d1 == xs@[j].d1)),
            r.is_ok() ==> {
                let f = r.unwrap();
                &&& f.wf()
                &&& f.tag == xs@[0].tag
                &&& f.d0 == xs@[0].d0
                &&& f.d1 == xs@[0].d1
                &&& f.t.same_shape(xs@[0].t)
                &&& forall|i: int| 0 <= i < f.t.dirty@.len() ==> f.t.dirty@[i] == 0
                &&& forall|i: int|
                    0 <= i < f.t.probs@.len() ==> f.t.probs@[i] as int == ProbTable::col_sum(
                        xs@.map_values(|x: &CategoricalFeature2g1| &x.t),
                        i,
                    ) / (xs@.len() as int)
            },
            r matches Err(e) ==> (e is EmptyInput || e is ShapeMismatch),
    {
        if xs.len() == 0 {
            return Err(ModelError::EmptyInput);
        }
        let n: usize = xs.len();
        for j in 1..n
            invariant
                forall|h: int|
                    0 < h < j ==> xs@[0].d0 == #[trigger] xs@[h].d0 && xs@[0].d1 == xs@[h].d1,
        {
            if xs[j].d0 != xs[0].d0 || xs[j].d1 != xs[0].d1 {
                proof {
                    assert(!(xs@[0].d0 == xs@[j as int].d0 && xs@[0].d1 == xs@[j as int].d1));
                }
                return Err(ModelError::ShapeMismatch(xs[0].tag));
            }
        }
        let mut ts: Vec<&ProbTable> = Vec::new();
        for j in 0..n
            invariant
                ts@ == xs@.take(j as int).map_values(|x: &CategoricalFeature2g1| &x.t),
        {
            proof {
                assert(xs@.take(j + 1).map_values(|x: &CategoricalFeature2g1| &x.t) =~= xs@.take(
                    j as int,
                ).map_values(|x: &CategoricalFeature2g1| &x.t).push(&xs@[j as int].t));
            }
            ts.push(&xs[j].t);
        }
        proof {
            assert(xs@.take(n as int) =~= xs@);
            assert forall|j: int| 0 <= j < ts@.len() implies ts@[j].wf() by {
                assert(ts@[j] == xs@[j].t);
            }
            assert forall|j: int| 0 <= j < ts@.len() implies #[trigger] ts@[j] == &xs@[j].t by {}
            if forall|j: int| 0 < j < xs@.len() ==> xs@[0].t.same_shape(#[trigger] xs@[j].t) {
                assert forall|j: int|
                    0 < j < ts@.len() implies ts@[0].same_shape(*(#[trigger] ts@[j])) by {
                    assert(xs@[0].t.same_shape(xs@[j].t));
                }
            } else {
                let j0 = choose|j: int|
                    0 < j < xs@.len() && !xs@[0].t.same_shape(#[trigger] xs@[j].t);
                assert(!ts@[0].same_shape(*ts@[j0]));
            }
        }
        let tag: SubModel = xs[0].tag;
        let t = ProbTable::average(&ts, tag)?;
        Ok(CategoricalFeature2g1 { t, d0: xs[0].d0, d1: xs[0].d1, tag })
    }
}

/// Number of nucleotide symbols.
pub const NT: usize = 4;

/// How many pairs among consecutive bases of `bases` (both symbols below
/// `NT`) fall on transition cell `c`.
pub open spec fn pcount(bases: Seq<u8>, c: int) -> int
    decreases bases.len(),
{
    if bases.len() < 2 {
        0
    } else {
        let pb = bases[bases.len() - 2] as int;
        let cb = bases[bases.len() - 1] as int;
        pcount(bases.drop_last(), c) + if pb < NT && cb < NT && pb * (NT as int) + cb == c {
            1int
        } else {
            0int
        }
    }
}

/// The pair count is at most the number of consecutive pairs.
pub proof fn lemma_pcount_bound(bases: Seq<u8>, c: int)
    ensures
        0 <= pcount(bases, c) <= if bases.len() < 2 {
            0int
        } else {
            bases.len() - 1
        },
    decreases bases.len(),
{
    if bases.len() >= 2 {
        lemma_pcount_bound(bases.drop_last(), c);
    }
}

/// Models the junction insertion at one segment boundary: a length
/// distribution, a first-base bias over the four nucleotide symbols, and
/// a base-transition chain conditioned on the preceding symbol.
pub struct InsertionFeature {
    /// Distribution over the insertion's length.
    pub len_t: ProbTable,
    /// Distribution over the first inserted symbol.
    pub bias_t: ProbTable,
    /// One normalized slice of next-symbol probabilities per preceding
    /// symbol.
    pub markov_t: ProbTable,
    /// Which sub-model this plays in a feature set.
    pub tag: SubModel,
}

impl InsertionFeature {
    /// Invariant: the bias is one slice of four symbols, the chain four
    /// slices of four.
    pub open spec fn wf(self) -> bool {
        &&& self.len_t.wf()
        &&& self.len_t.ngroups == 1
        &&& self.bias_t.wf()
        &&& self.bias_t.ngroups == 1
        &&& self.bias_t.probs@.len() == NT
        &&& self.markov_t.wf()
        &&& self.markov_t.ngroups == NT
        &&& self.markov_t.gsize == NT
    }

    /// Marginal probability of an insertion of length `n`; zero outside
    /// the supported range.
    pub open spec fn len_lik(self, n: int) -> int {
        self.len_t.at(n)
    }

    /// Probability of first symbol `b`; zero for a non-symbol.
    pub open spec fn bias_lik(self, b: int) -> int {
        self.bias_t.at(b)
    }

    /// Probability of symbol `c` following symbol `p`; zero for a
    /// non-symbol.
    pub open spec fn trans_lik(self, p: int, c: int) -> int {
        if 0 <= p < NT && 0 <= c < NT {
            self.markov_t.at(p * (NT as int) + c)
        } else {
            0
        }
    }

    /// Joint probability of the first `n` symbols of `bases` (with the
    /// length factor for the whole insertion folded in at the start).
    pub open spec fn seq_lik_upto(self, bases: Seq<u8>, n: int) -> int
        decreases n,
    {
        if n <= 1 {
            pmul_spec(self.len_lik(bases.len() as int), self.bias_lik(bases[0] as int))
        } else {
            pmul_spec(
                self.seq_lik_upto(bases, n - 1),
                self.trans_lik(bases[n - 2] as int, bases[n - 1] as int),
            )
        }
    }

    /// Joint probability of a specific inserted sequence: its length
    /// probability times first-base bias times the chain of transition
    /// probabilities; the length probability alone for an empty one.
    pub open spec fn seq_lik(self, bases: Seq<u8>) -> int {
        if bases.len() == 0 {
            self.len_lik(0)
        } else {
            self.seq_lik_upto(bases, bases.len() as int)
        }
    }

    /// A sequence likelihood is a probability.
    pub proof fn lemma_seq_lik_upto_bound(self, bases: Seq<u8>, n: int)
        requires
            self.wf(),
        ensures
            0 <= self.seq_lik_upto(bases, n) <= SCALE,
        decreases n,
    {
        if n <= 1 {
            crate::prob::lemma_pmul_bounds(
                self.len_lik(bases.len() as int),
                self.bias_lik(bases[0] as int),
            );
        } else {
            self.lemma_seq_lik_upto_bound(bases, n - 1);
            crate::prob::lemma_pmul_bounds(
                self.seq_lik_upto(bases, n - 1),
                self.trans_lik(bases[n - 2] as int, bases[n - 1] as int),
            );
        }
    }

    /// A sequence likelihood is a probability.
    pub proof fn lemma_seq_lik_bound(self, bases: Seq<u8>)
        requires
            self.wf(),
        ensures
            0 <= self.seq_lik(bases) <= SCALE,
    {
        if bases.len() > 0 {
            self.lemma_seq_lik_upto_bound(bases, bases.len() as int);
        }
    }

    /// Validates and wraps an insertion model.
    pub fn new(p_len: Vec<u64>, bias: Vec<u64>, markov: Vec<u64>, tag: SubModel) -> (r: Result<
        InsertionFeature,
        ModelError,
    >)
        ensures
            r.is_ok() <==> (bias@.len() == NT && markov@.len() == NT * NT
                && ProbTable::shape_ok(p_len@, 1) && ProbTable::values_ok(p_len@)
                && ProbTable::sums_ok(p_len@, 1) && ProbTable::values_ok(bias@)
                && ProbTable::sums_ok(bias@, 1) && ProbTable::values_ok(markov@)
                && ProbTable::sums_ok(markov@, NT as int)),
            r.is_ok() ==> {
                let f = r.unwrap();
                &&& f.wf()
                &&& f.tag == tag
                &&& f.len_t.probs@ == p_len@
                &&& f.bias_t.probs@ == bias@
                &&& f.markov_t.probs@ == markov@
                &&& forall|i: int| 0 <= i < f.len_t.dirty@.len() ==> f.len_t.dirty@[i] == 0
                &&& forall|i: int| 0 <= i < f.bias_t.dirty@.len() ==> f.bias_t.dirty@[i] == 0
                &&& forall|i: int| 0 <= i < f.markov_t.dirty@.len() ==> f.markov_t.dirty@[i] == 0
            },
            r matches Err(e) ==> (e == ModelError::BadShape(tag) || e == ModelError::ValueTooLarge(
                tag,
            ) || e == ModelError::BadGroupSum(tag)),
    {
        if bias.len() != NT || markov.len() != NT * NT {
            return Err(ModelError::BadShape(tag));
        }
        let len_t = ProbTable::new(p_len, 1, tag)?;
        let bias_t = ProbTable::new(bias, 1, tag)?;
        let markov_t = ProbTable::new(markov, NT, tag)?;
        Ok(InsertionFeature { len_t, bias_t, markov_t, tag })
    }

    /// Marginal likelihood of an insertion of length `n`.
    pub fn likelihood_length(&self, n: usize) -> (r: u64)
        requires
            self.wf(),
        ensures
            r as int == self.len_lik(n as int),
            r <= SCALE,
    {
        self.len_t.get(n)
    }

    /// Exact likelihood of the specific inserted sequence `bases`.
    pub fn likelihood_sequence(&self, bases: &Vec<u8>) -> (r: u64)
        requires
            self.wf(),
        ensures
            r as int == self.seq_lik(bases@),
            r <= SCALE,
    {
        let n: usize = bases.len();
        let ll: u64 = self.len_t.get(n);
        if n == 0 {
            return ll;
        }
        let mut p: u64 = pmul(ll, self.bias_t.get(bases[0] as usize));
        let mut i: usize = 1;
        while i < n
            invariant
                1 <= i <= n,
                n == bases@.len(),
                p as int == self.seq_lik_upto(bases@, i as int),
                p <= SCALE,
            decreases n - i,
        {
            let pb: usize = bases[i - 1] as usize;
            let cb: usize = bases[i] as usize;
            let tr: u64 = if pb < NT && cb < NT {
                self.markov_t.get(pb * NT + cb)
            } else {
                0
            };
            p = pmul(p, tr);
            i = i + 1;
        }
        p
    }

    /// Accumulates weight `w` for this insertion: into the length cell of
    /// `len(bases)`, and for a non-empty insertion into the first-base
    /// cell and every observed transition cell. Out-of-range lengths and
    /// non-symbols accumulate nothing.
    pub fn dirty_update(&mut self, bases: &Vec<u8>, w: u64)
        requires
            old(self).wf(),
            forall|i: int|
                0 <= i < old(self).len_t.dirty@.len() ==> #[trigger] old(self).len_t.dirty@[i] + w
                    <= u128::MAX,
            forall|i: int|
                0 <= i < old(self).bias_t.dirty@.len() ==> #[trigger] old(self).bias_t.dirty@[i]
                    + w <= u128::MAX,
            forall|i: int|
                0 <= i < old(self).markov_t.dirty@.len() ==> #[trigger] old(
                    self,
                ).markov_t.dirty@[i] + w * bases@.len() <= u128::MAX,
        ensures
            final(self).len_t.dirty@ == dirty_after(
                old(self).len_t.dirty@,
                bases@.len() as int,
                w as int,
            ),
            final(self).bias_t.dirty@ == (if bases@.len() > 0 {
                dirty_after(old(self).bias_t.dirty@, bases@[0] as int, w as int)
            } else {
                old(self).bias_t.dirty@
            }),
            final(self).markov_t.dirty@.len() == old(self).markov_t.dirty@.len(),
            forall|c: int|
                0 <= c < old(self).markov_t.dirty@.len() ==> final(self).markov_t.dirty@[c]
                    == old(self).markov_t.dirty@[c] + w * pcount(bases@, c),
            final(self).len_t.probs == old(self).len_t.probs,
            final(self).bias_t.probs == old(self).bias_t.probs,
            final(self).markov_t.probs == old(self).markov_t.probs,
            final(self).len_t.gsize == old(self).len_t.gsize,
            final(self).len_t.ngroups == old(self).len_t.ngroups,
            final(self).bias_t.gsize == old(self).bias_t.gsize,
            final(self).bias_t.ngroups == old(self).bias_t.ngroups,
            final(self).markov_t.gsize == old(self).markov_t.gsize,
            final(self).markov_t.ngroups == old(self).markov_t.ngroups,
            final(self).tag == old(self).tag,
    {
        let n: usize = bases.len();
        if n < self.len_t.dirty.len() {
            self.len_t.add_dirty(n, w as u128);
        }
        if n == 0 {
            proof {
                assert((w as int) * 0 == 0) by (nonlinear_arith);
                assert forall|c: int|
                    0 <= c < self.markov_t.dirty@.len() implies self.markov_t.dirty@[c] == old(
                    self,
                ).markov_t.dirty@[c] + w * pcount(bases@, c) by {
                    assert(pcount(bases@, c) == 0);
                }
            }
            return ;
        }
        let b0: usize = bases[0] as usize;
        if b0 < self.bias_t.dirty.len() {
            self.bias_t.add_dirty(b0, w as u128);
        }
        let ghost md0 = self.markov_t.dirty@;
        let ghost lt0 = self.len_t;
        let ghost bt0 = self.bias_t;
        let mut k: usize = 1;
        proof {
            assert(bases@.take(1).len() < 2);
            assert forall|c: int| w * pcount(bases@.take(1), c) == 0 by {
                assert(pcount(bases@.take(1), c) == 0);
                assert((w as int) * 0 == 0) by (nonlinear_arith);
            }
        }
        while k < n
            invariant
                1 <= k <= n,
                n == bases@.len(),
                self.wf(),
                self.markov_t.dirty@.len() == md0.len(),
                forall|i: int|
                    0 <= i < md0.len() ==> #[trigger] md0[i] + w * bases@.len() <= u128::MAX,
                forall|c: int|
                    0 <= c < md0.len() ==> #[trigger] self.markov_t.dirty@[c] == md0[c] + w
                        * pcount(bases@.take(k as int), c),
                self.markov_t.probs == old(self).markov_t.probs,
                self.markov_t.gsize == old(self).markov_t.gsize,
                self.markov_t.ngroups == old(self).markov_t.ngroups,
                self.len_t == lt0,
                self.bias_t == bt0,
                self.tag == old(self).tag,
            decreases n - k,
        {
            let pb: usize = bases[k - 1] as usize;
            let cb: usize = bases[k] as usize;
            proof {
                assert(bases@.take(k + 1).drop_last() =~= bases@.take(k as int));
                lemma_pcount_bound(bases@.take(k as int), (pb as int) * (NT as int) + (cb as int));
                assert(w * (pcount(bases@.take(k as int), (pb as int) * (NT as int) + (
                cb as int)) + 1) <= w * bases@.len()) by (nonlinear_arith)
                    requires
                        pcount(bases@.take(k as int), (pb as int) * (NT as int) + (cb as int)) + 1
                            <= bases@.len(),
                ;
                assert forall|c: int| 0 <= c < md0.len() implies md0[c] + w * (pcount(
                    bases@.take(k as int),
                    c,
                ) + 1) <= u128::MAX by {
                    lemma_pcount_bound(bases@.take(k as int), c);
                    assert(w * (pcount(bases@.take(k as int), c) + 1) <= w * bases@.len())
                        by (nonlinear_arith)
                        requires
                            pcount(bases@.take(k as int), c) + 1 <= bases@.len(),
                    ;
                }
                assert forall|c: int| 0 <= c < md0.len() implies w * (pcount(
                    bases@.take(k as int),
                    c,
                ) + 1) == w * pcount(bases@.take(k as int), c) + w by {
                    assert(w * (pcount(bases@.take(k as int), c) + 1) == w * pcount(
                        bases@.take(k as int),
                        c,
                    ) + w) by (nonlinear_arith);
                }
            }
            if pb < NT && cb < NT {
                self.markov_t.add_dirty(pb * NT + cb, w as u128);
            }
            k = k + 1;
        }
        proof {
            assert(bases@.take(n as int) =~= bases@);
        }
    }

    /// Renormalizes all three accumulators into a fresh instance.
    pub fn cleanup(&self) -> (r: Result<InsertionFeature, ModelError>)
        requires
            self.wf(),
        ensures
            r.is_err() <==> (exists|i: int|
                0 <= i < self.len_t.dirty@.len() && self.len_t.dirty@[i] > ACC_RENORM_MAX) || (
            exists|i: int|
                0 <= i < self.bias_t.dirty@.len() && self.bias_t.dirty@[i] > ACC_RENORM_MAX) || (
            exists|i: int|
                0 <= i < self.markov_t.dirty@.len() && self.markov_t.dirty@[i] > ACC_RENORM_MAX),
            r matches Err(e) ==> e == ModelError::AccumulatorOverflow(self.tag),
            r.is_ok() ==> {
                let f = r.unwrap();
                &&& f.wf()
                &&& f.tag == self.tag
                &&& f.len_t.same_shape(self.len_t)
                &&& f.bias_t.same_shape(self.bias_t)
                &&& f.markov_t.same_shape(self.markov_t)
                &&& forall|i: int| 0 <= i < f.len_t.dirty@.len() ==> f.len_t.dirty@[i] == 0
                &&& forall|i: int| 0 <= i < f.bias_t.dirty@.len() ==> f.bias_t.dirty@[i] == 0
                &&& forall|i: int| 0 <= i < f.markov_t.dirty@.len() ==> f.markov_t.dirty@[i] == 0
                &&& forall|i: int|
                    0 <= i < f.len_t.probs@.len() ==> f.len_t.probs@[i] as int
                        == self.len_t.cleanup_cell(i)
                &&& forall|i: int|
                    0 <= i < f.bias_t.probs@.len() ==> f.bias_t.probs@[i] as int
                        == self.bias_t.cleanup_cell(i)
                &&& forall|i: int|
                    0 <= i < f.markov_t.probs@.len() ==> f.markov_t.probs@[i] as int
                        == self.markov_t.cleanup_cell(i)
            },
    {
        let len_t = self.len_t.cleanup(self.tag)?;
        let bias_t = self.bias_t.cleanup(self.tag)?;
        let markov_t = self.markov_t.cleanup(self.tag)?;
        Ok(InsertionFeature { len_t, bias_t, markov_t, tag: self.tag })
    }

    /// Elementwise mean of the instances' parameter values, taken
    /// independently over the length, bias and transition tables.
    pub fn average(xs: &Vec<&InsertionFeature>) -> (r: Result<InsertionFeature, ModelError>)
        requires
            forall|j: int| 0 <= j < xs@.len() ==> xs@[j].wf(),
        ensures
            r.is_ok() <==> (xs@.len() > 0 && forall|j: int|
                0 < j < xs@.len() ==> xs@[0].len_t.same_shape(#[trigger] xs@[j].len_t)),
            r.is_ok() ==> {
                let f = r.unwrap();
                &&& f.wf()
                &&& f.tag == xs@[0].tag
                &&& f.len_t.same_shape(xs@[0].len_t)
                &&& forall|i: int| 0 <= i < f.len_t.dirty@.len() ==> f.len_t.dirty@[i] == 0
                &&& forall|i: int| 0 <= i < f.bias_t.dirty@.len() ==> f.bias_t.dirty@[i] == 0
                &&& forall|i: int| 0 <= i < f.markov_t.dirty@.len() ==> f.markov_t.dirty@[i] == 0
                &&& forall|i: int|
                    0 <= i < f.len_t.probs@.len() ==> f.len_t.probs@[i] as int
                        == ProbTable::col_sum(
                        xs@.map_values(|x: &InsertionFeature| &x.len_t),
                        i,
                    ) / (xs@.len() as int)
                &&& forall|i: int|
                    0 <= i < f.bias_t.probs@.len() ==> f.bias_t.probs@[i] as int
                        == ProbTable::col_sum(
                        xs@.map_values(|x: &InsertionFeature| &x.bias_t),
                        i,
                    ) / (xs@.len() as int)
                &&& forall|i: int|
                    0 <= i < f.markov_t.probs@.len() ==> f.markov_t.probs@[i] as int
                        == ProbTable::col_sum(
                        xs@.map_values(|x: &InsertionFeature| &x.markov_t),
                        i,
                    ) / (xs@.len() as int)
            },
            r matches Err(e) ==> (e is EmptyInput || e is ShapeMismatch),
    {
        let n: usize = xs.len();
        let mut lts: Vec<&ProbTable> = Vec::new();
        let mut bts: Vec<&ProbTable> = Vec::new();
        let mut mts: Vec<&ProbTable> = Vec::new();
        for j in 0..n
            invariant
                lts@ == xs@.take(j as int).map_values(|x: &InsertionFeature| &x.len_t),
                bts@ == xs@.take(j as int).map_values(|x: &InsertionFeature| &x.bias_t),
                mts@ == xs@.take(j as int).map_values(|x: &InsertionFeature| &x.markov_t),
        {
            proof {
                assert(xs@.take(j + 1).map_values(|x: &InsertionFeature| &x.len_t) =~= xs@.take(
                    j as int,
                ).map_values(|x: &InsertionFeature| &x.len_t).push(&xs@[j as int].len_t));
                assert(xs@.take(j + 1).map_values(|x: &InsertionFeature| &x.bias_t) =~= xs@.take(
                    j as int,
                ).map_values(|x: &InsertionFeature| &x.bias_t).push(&xs@[j as int].bias_t));
                assert(xs@.take(j + 1).map_values(|x: &InsertionFeature| &x.markov_t) =~= xs@.take(
                    j as int,
                ).map_values(|x: &InsertionFeature| &x.markov_t).push(&xs@[j as int].markov_t));
            }
            lts.push(&xs[j].len_t);
            bts.push(&xs[j].bias_t);
            mts.push(&xs[j].markov_t);
        }
        proof {
            assert(xs@.take(n as int) =~= xs@);
            assert forall|j: int| 0 <= j < xs@.len() implies #[trigger] lts@[j] == &xs@[j].len_t
                && lts@[j].wf() && #[trigger] bts@[j] == &xs@[j].bias_t && bts@[j].wf()
                && #[trigger] mts@[j] == &xs@[j].markov_t && mts@[j].wf() by {}
            if forall|j: int|
                0 < j < xs@.len() ==> xs@[0].len_t.same_shape(#[trigger] xs@[j].len_t) {
                assert forall|j: int|
                    0 < j < lts@.len() implies lts@[0].same_shape(*(#[trigger] lts@[j])) by {
                    assert(xs@[0].len_t.same_shape(xs@[j].len_t));
                }
            } else {
                let j0 = choose|j: int|
                    0 < j < xs@.len() && !xs@[0].len_t.same_shape(#[trigger] xs@[j].len_t);
                assert(!lts@[0].same_shape(*lts@[j0]));
            }
            if xs@.len() > 0 {
                assert forall|j: int|
                    0 < j < bts@.len() implies bts@[0].same_shape(*(#[trigger] bts@[j])) by {
                    assert(xs@[j].wf() && xs@[0].wf());
                }
                assert forall|j: int|
                    0 < j < mts@.len() implies mts@[0].same_shape(*(#[trigger] mts@[j])) by {
                    assert(xs@[j].wf() && xs@[0].wf());
                }
            }
        }
        let tag: SubModel = if n > 0 {
            xs[0].tag
        } else {
            SubModel::InsVD
        };
        let len_t = ProbTable::average(&lts, tag)?;
        let bias_t = ProbTable::average(&bts, tag)?;
        let markov_t = ProbTable::average(&mts, tag)?;
        Ok(InsertionFeature { len_t, bias_t, markov_t, tag })
    }
}

/// Number of terms of the exponential series the error model evaluates.
pub const EXP_TERMS: usize = 16;

/// Term `i` of the fixed-point series for `exp(rate)`: one at `i = 0`,
/// then each term multiplied by the rate and divided by `i`.
pub open spec fn exp_term(rate: int, i: int) -> int
    decreases i,
{
    if i <= 0 {
        SCALE as int
    } else {
        pmul_spec(exp_term(rate, i - 1), rate) / i
    }
}

/// Sum of the first `n` series terms.
pub open spec fn exp_sum(rate: int, n: int) -> int
    decreases n,
{
    if n <= 0 {
        0
    } else {
        exp_sum(rate, n - 1) + exp_term(rate, n - 1)
    }
}

/// Fixed-point `exp(-rate)`: one probability unit squared over the
/// truncated series for `exp(rate)`.
pub open spec fn exp_neg(rate: int) -> int {
    ((SCALE as int) * (SCALE as int)) / exp_sum(rate, EXP_TERMS as int)
}

/// Fixed-point Poisson mass at count `k` for mean `rate`: `exp(-rate)`
/// at zero, then each mass multiplied by the rate and divided by `k`.
pub open spec fn pois_mass(rate: int, k: int) -> int
    decreases k,
{
    if k <= 0 {
        exp_neg(rate)
    } else {
        pmul_spec(pois_mass(rate, k - 1), rate) / k
    }
}

/// Every series term is a probability.
pub proof fn lemma_exp_term_bounds(rate: int, i: int)
    requires
        0 <= rate <= SCALE,
    ensures
        0 <= exp_term(rate, i) <= SCALE,
    decreases i,
{
    if i > 0 {
        lemma_exp_term_bounds(rate, i - 1);
        crate::prob::lemma_pmul_bounds(exp_term(rate, i - 1), rate);
        lemma_div_pos_is_pos(pmul_spec(exp_term(rate, i - 1), rate), i);
        lemma_div_nonincreasing(pmul_spec(exp_term(rate, i - 1), rate), i);
    }
}

/// The truncated series stays between one and `n` probability units.
pub proof fn lemma_exp_sum_bounds(rate: int, n: int)
    requires
        0 <= rate <= SCALE,
        1 <= n,
    ensures
        SCALE <= exp_sum(rate, n) <= n * (SCALE as int),
    decreases n,
{
    lemma_exp_term_bounds(rate, n - 1);
    if n == 1 {
        assert(exp_sum(rate, 0) == 0);
        assert(exp_sum(rate, 1) == exp_term(rate, 0));
        assert(1int * (SCALE as int) == SCALE) by (nonlinear_arith);
    } else {
        lemma_exp_sum_bounds(rate, n - 1);
        assert((n - 1) * (SCALE as int) + SCALE == n * (SCALE as int)) by (nonlinear_arith);
    }
}

/// The Poisson mass is a probability.
pub proof fn lemma_pois_mass_bounds(rate: int, k: int)
    requires
        0 <= rate <= SCALE,
    ensures
        0 <= pois_mass(rate, k) <= SCALE,
    decreases k,
{
    let s = SCALE as int;
    if k <= 0 {
        lemma_exp_sum_bounds(rate, EXP_TERMS as int);
        let es = exp_sum(rate, EXP_TERMS as int);
        lemma_div_is_ordered_by_denominator(s * s, s, es);
        lemma_div_multiples_vanish(s, s);
        assert(0 <= s * s) by (nonlinear_arith);
        lemma_div_pos_is_pos(s * s, es);
    } else {
        lemma_pois_mass_bounds(rate, k - 1);
        crate::prob::lemma_pmul_bounds(pois_mass(rate, k - 1), rate);
        lemma_div_pos_is_pos(pmul_spec(pois_mass(rate, k - 1), rate), k);
        lemma_div_nonincreasing(pmul_spec(pois_mass(rate, k - 1), rate), k);
    }
}

/// Poisson-distributed sequencing errors: a fixed-point mean and a
/// minimum-likelihood floor, with accumulators for weighted error counts
/// and total weight.
pub struct ErrorPoisson {
    /// Fixed-point Poisson mean, at most one probability unit.
    pub rate: u64,
    /// Likelihood floor: no error count is ever rated below this.
    pub floor: u64,
    /// Accumulated weighted error counts.
    pub dirty_err: u128,
    /// Accumulated total weight.
    pub dirty_weight: u128,
}

impl ErrorPoisson {
    /// Representation invariant.
    pub open spec fn wf(self) -> bool {
        &&& self.rate <= SCALE
        &&& self.floor <= SCALE
    }

    /// Likelihood of observing `k` errors: the Poisson mass at `k`,
    /// floored at the configured minimum.
    pub open spec fn lik(self, k: int) -> int {
        let p = pois_mass(self.rate as int, k);
        if p >= self.floor {
            p
        } else {
            self.floor as int
        }
    }

    /// What `cleanup` makes the new rate: exactly the accumulated
    /// weighted error count divided by the accumulated weight, and zero
    /// when nothing was accumulated. A ratio above one probability unit
    /// exceeds what this representation holds, and `cleanup` fails fast
    /// on it rather than substituting a value.
    pub open spec fn cleanup_rate(self) -> int {
        if self.dirty_weight == 0 {
            0
        } else {
            (self.dirty_err * SCALE) / (self.dirty_weight as int)
        }
    }

    /// Validates the rate and floor. This fixed-point representation
    /// supports Poisson means up to one probability unit.
    pub fn new(rate: u64, floor: u64) -> (r: Result<ErrorPoisson, ModelError>)
        ensures
            r.is_ok() <==> (rate <= SCALE && floor <= SCALE),
            r.is_err() ==> r == Err::<ErrorPoisson, ModelError>(
                ModelError::ValueTooLarge(SubModel::ErrorRate),
            ),
            r.is_ok() ==> {
                let f = r.unwrap();
                &&& f.wf()
                &&& f.rate == rate
                &&& f.floor == floor
                &&& f.dirty_err == 0
                &&& f.dirty_weight == 0
            },
    {
        if rate > SCALE || floor > SCALE {
            return Err(ModelError::ValueTooLarge(SubModel::ErrorRate));
        }
        Ok(ErrorPoisson { rate, floor, dirty_err: 0, dirty_weight: 0 })
    }

    /// Likelihood of observing `k` errors.
    pub fn likelihood(&self, k: u64) -> (r: u64)
        requires
            self.wf(),
        ensures
            r as int == self.lik(k as int),
            r <= SCALE,
    {
        let rate: u64 = self.rate;
        let mut term: u64 = SCALE;
        let mut es: u64 = SCALE;
        let mut i: usize = 1;
        proof {
            lemma_exp_sum_bounds(rate as int, 1);
            assert(1int * (SCALE as int) == SCALE) by (nonlinear_arith);
        }
        while i < EXP_TERMS
            invariant
                1 <= i <= EXP_TERMS,
                rate == self.rate,
                self.wf(),
                term as int == exp_term(rate as int, i - 1),
                es as int == exp_sum(rate as int, i as int),
                term <= SCALE,
                SCALE <= es,
                es as int <= (i as int) * (SCALE as int),
            decreases EXP_TERMS - i,
        {
            proof {
                assert((i as int) * (SCALE as int) + SCALE == ((i as int) + 1) * (SCALE as int))
                    by (nonlinear_arith);
                assert(((i as int) + 1) * (SCALE as int) <= (EXP_TERMS as int) * (SCALE as int))
                    by (nonlinear_arith)
                    requires i + 1 <= EXP_TERMS;
            }
            term = pmul(term, rate) / (i as u64);
            proof {
                lemma_div_pos_is_pos(
                    pmul_spec(exp_term(rate as int, i - 1), rate as int),
                    i as int,
                );
                lemma_div_nonincreasing(
                    pmul_spec(exp_term(rate as int, i - 1), rate as int),
                    i as int,
                );
            }
            es = es + term;
            i = i + 1;
        }
        let wide: u128 = ((SCALE as u128) * (SCALE as u128)) / (es as u128);
        proof {
            let s = SCALE as int;
            lemma_div_is_ordered_by_denominator(s * s, s, es as int);
            lemma_div_multiples_vanish(s, s);
            assert(0 <= s * s) by (nonlinear_arith);
            lemma_div_pos_is_pos(s * s, es as int);
        }
        let mut p: u64 = wide as u64;
        let mut j: u64 = 0;
        while j < k
            invariant
                0 <= j <= k,
                rate == self.rate,
                self.wf(),
                p as int == pois_mass(rate as int, j as int),
                p <= SCALE,
            decreases k - j,
        {
            j = j + 1;
            p = pmul(p, rate) / j;
            proof {
                lemma_div_pos_is_pos(
                    pmul_spec(pois_mass(rate as int, j - 1), rate as int),
                    j as int,
                );
                lemma_div_nonincreasing(
                    pmul_spec(pois_mass(rate as int, j - 1), rate as int),
                    j as int,
                );
            }
        }
        if p >= self.floor {
            p
        } else {
            self.floor
        }
    }

    /// Accumulates weight `w` for an observation of `k` errors: `w * k`
    /// into the error-count accumulator and `w` into the weight
    /// accumulator.
    pub fn dirty_update(&mut self, k: u64, w: u64)
        requires
            old(self).dirty_err + (w as int) * (k as int) <= u128::MAX,
            old(self).dirty_weight + w <= u128::MAX,
        ensures
            final(self).dirty_err == old(self).dirty_err + (w as int) * (k as int),
            final(self).dirty_weight == old(self).dirty_weight + w,
            final(self).rate == old(self).rate,
            final(self).floor == old(self).floor,
    {
        proof {
            assert(0 <= (w as int) * (k as int) <= (u64::MAX as int) * (u64::MAX as int))
                by (nonlinear_arith)
                requires w <= u64::MAX && k <= u64::MAX;
        }
        self.dirty_err = self.dirty_err + (w as u128) * (k as u128);
        self.dirty_weight = self.dirty_weight + (w as u128);
    }

    /// Turns the accumulators into a fresh instance: the new rate is
    /// exactly the accumulated weighted error count divided by the
    /// accumulated weight; the floor is kept and the accumulators
    /// reset. Fails fast, substituting nothing, when the accumulator is
    /// too large to renormalize or when the ratio exceeds the one
    /// probability unit this representation holds.
    pub fn cleanup(&self) -> (r: Result<ErrorPoisson, ModelError>)
        requires
            self.wf(),
        ensures
            r == Err::<ErrorPoisson, ModelError>(
                ModelError::AccumulatorOverflow(SubModel::ErrorRate),
            ) <==> self.dirty_err > ACC_RENORM_MAX,
            r == Err::<ErrorPoisson, ModelError>(
                ModelError::ValueTooLarge(SubModel::ErrorRate),
            ) <==> (self.dirty_err <= ACC_RENORM_MAX && self.cleanup_rate() > SCALE),
            r.is_ok() <==> (self.dirty_err <= ACC_RENORM_MAX && self.cleanup_rate() <= SCALE),
            r.is_ok() ==> {
                let f = r.unwrap();
                &&& f.wf()
                &&& f.rate as int == self.cleanup_rate()
                &&& f.floor == self.floor
                &&& f.dirty_err == 0
                &&& f.dirty_weight == 0
            },
    {
        if self.dirty_err > ACC_RENORM_MAX {
            return Err(ModelError::AccumulatorOverflow(SubModel::ErrorRate));
        }
        if self.dirty_weight == 0 {
            return Ok(ErrorPoisson { rate: 0, floor: self.floor, dirty_err: 0, dirty_weight: 0 });
        }
        proof {
            let d = self.dirty_err as int;
            let s = SCALE as int;
            assert(d * s <= (ACC_RENORM_MAX as int) * s) by (nonlinear_arith)
                requires d <= ACC_RENORM_MAX as int && s > 0;
            assert((ACC_RENORM_MAX as int) * s <= u128::MAX) by (nonlinear_arith)
                requires s == SCALE as int;
            assert(0 <= d * s) by (nonlinear_arith)
                requires 0 <= d && 0 <= s;
            lemma_div_pos_is_pos(d * s, self.dirty_weight as int);
        }
        let q: u128 = (self.dirty_err * (SCALE as u128)) / self.dirty_weight;
        if q > (SCALE as u128) {
            return Err(ModelError::ValueTooLarge(SubModel::ErrorRate));
        }
        Ok(ErrorPoisson { rate: q as u64, floor: self.floor, dirty_err: 0, dirty_weight: 0 })
    }

    /// Sum of the rates of a collection of instances.
    pub open spec fn rate_sum(xs: Seq<&ErrorPoisson>) -> int
        decreases xs.len(),
    {
        if xs.len() == 0 {
            0
        } else {
            Self::rate_sum(xs.drop_last()) + xs.last().rate
        }
    }

    /// A rate sum over valid instances stays within `[0, k * SCALE]`.
    pub proof fn lemma_rate_sum_bound(xs: Seq<&ErrorPoisson>)
        requires
            forall|j: int| 0 <= j < xs.len() ==> xs[j].wf(),
        ensures
            0 <= Self::rate_sum(xs) <= xs.len() * (SCALE as int),
        decreases xs.len(),
    {
        if xs.len() > 0 {
            assert forall|j: int| 0 <= j < xs.drop_last().len() implies xs.drop_last()[j].wf() by {
                assert(xs.drop_last()[j] == xs[j]);
            }
            Self::lemma_rate_sum_bound(xs.drop_last());
            assert(xs.last() == xs[xs.len() - 1]);
            assert((xs.len() - 1) * (SCALE as int) + SCALE == xs.len() * (SCALE as int))
                by (nonlinear_arith);
        } else {
            assert(xs.len() * (SCALE as int) == 0) by (nonlinear_arith)
                requires xs.len() == 0;
        }
    }

    /// Arithmetic mean of the instances' rates; the floor is taken from
    /// the first instance and the accumulators start at zero.
    pub fn average(xs: &Vec<&ErrorPoisson>) -> (r: Result<ErrorPoisson, ModelError>)
        requires
            forall|j: int| 0 <= j < xs@.len() ==> xs@[j].wf(),
        ensures
            r.is_ok() <==> xs@.len() > 0,
            r.is_err() ==> r == Err::<ErrorPoisson, ModelError>(ModelError::EmptyInput),
            r.is_ok() ==> {
                let f = r.unwrap();
                &&& f.wf()
                &&& f.rate as int == Self::rate_sum(xs@) / (xs@.len() as int)
                &&& f.floor == xs@[0].floor
                &&& f.dirty_err == 0
                &&& f.dirty_weight == 0
            },
    {
        if xs.len() == 0 {
            return Err(ModelError::EmptyInput);
        }
        let cnt: usize = xs.len();
        let mut s: u128 = 0;
        let mut j: usize = 0;
        proof {
            assert(0int * (SCALE as int) == 0) by (nonlinear_arith);
        }
        while j < cnt
            invariant
                j <= cnt,
                cnt == xs@.len(),
                s as int == Self::rate_sum(xs@.take(j as int)),
                s as int <= (j as int) * (SCALE as int),
            decreases cnt - j,
        {
            proof {
                assert(xs@.take(j + 1).drop_last() =~= xs@.take(j as int));
                assert(xs@.take(j + 1).last() == xs@[j as int]);
                assert(xs@[j as int].wf());
                assert((j as int) * (SCALE as int) + SCALE == ((j as int) + 1) * (SCALE as int))
                    by (nonlinear_arith);
                assert(((j as int) + 1) * (SCALE as int) <= (cnt as int) * (SCALE as int))
                    by (nonlinear_arith)
                    requires j + 1 <= cnt;
                assert((cnt as int) * (SCALE as int) < u128::MAX) by (nonlinear_arith)
                    requires cnt <= usize::MAX;
            }
            s = s + (xs[j].rate as u128);
            j = j + 1;
        }
        proof {
            assert(xs@.take(cnt as int) =~= xs@);
            Self::lemma_rate_sum_bound(xs@);
            let c = cnt as int;
            let sc = SCALE as int;
            lemma_div_is_ordered(0, s as int, c);
            lemma_div_is_ordered(s as int, c * sc, c);
            vstd::arithmetic::mul::lemma_mul_is_commutative(c, sc);
            lemma_div_multiples_vanish(sc, c);
        }
        let rate: u64 = (s / (cnt as u128)) as u64;
        Ok(ErrorPoisson { rate, floor: xs[0].floor, dirty_err: 0, dirty_weight: 0 })
    }
}

} // verus!
