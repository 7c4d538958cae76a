//! Dense probability tables with paired count accumulators.
//!
//! A `ProbTable` holds `ngroups` conditioning slices of `gsize` cells each,
//! stored contiguously (cell `i` belongs to slice `i / gsize`). A freshly
//! constructed table has every slice summing to exactly one probability
//! unit. The paired `dirty` accumulator gathers weighted observation
//! counts; `cleanup` renormalizes each slice of the accumulator into a new
//! table, and `average` takes the elementwise mean of several tables.

use vstd::prelude::*;
use vstd::arithmetic::div_mod::{
    lemma_div_is_ordered, lemma_div_multiples_vanish, lemma_fundamental_div_mod_converse,
};
use vstd::arithmetic::mul::{lemma_mul_inequality, lemma_mul_is_commutative};
use crate::error::{ModelError, SubModel};
use crate::prob::SCALE;

verus! {

/// Largest number of cells a table may hold. Keeps every index and every
/// boundary position comfortably inside machine integer ranges.
pub const CELLS_MAX: usize = 0x100_0000;

/// Largest accumulator cell value that `cleanup` can renormalize without
/// its 128-bit intermediate product overflowing.
pub const ACC_RENORM_MAX: u128 = 0x1_0000_0000_0000_0000_0000_0000;

/// Sum of the `u64` entries of `s` with indices in `[lo, hi)`.
pub open spec fn sum_range_u64(s: Seq<u64>, lo: int, hi: int) -> int
    decreases hi - lo,
{
    if hi <= lo {
        0
    } else {
        sum_range_u64(s, lo, hi - 1) + s[hi - 1]
    }
}

/// Sum of the `u128` entries of `s` with indices in `[lo, hi)`.
pub open spec fn sum_range_u128(s: Seq<u128>, lo: int, hi: int) -> int
    decreases hi - lo,
{
    if hi <= lo {
        0
    } else {
        sum_range_u128(s, lo, hi - 1) + s[hi - 1]
    }
}

/// A range sum of entries bounded by `b` is between 0 and `(hi - lo) * b`.
pub proof fn lemma_sum_range_u64_bound(s: Seq<u64>, lo: int, hi: int, b: int)
    requires
        0 <= lo <= hi <= s.len(),
        forall|i: int| lo <= i < hi ==> s[i] <= b,
    ensures
        0 <= sum_range_u64(s, lo, hi) <= (hi - lo) * b,
    decreases hi - lo,
{
    if hi > lo {
        lemma_sum_range_u64_bound(s, lo, hi - 1, b);
        assert(s[hi - 1] <= b);
        assert((hi - lo - 1) * b + b == (hi - lo) * b) by (nonlinear_arith);
    } else {
        assert((hi - lo) * b == 0) by (nonlinear_arith)
            requires hi - lo == 0;
    }
}

/// A range sum of entries bounded by `b` is between 0 and `(hi - lo) * b`.
pub proof fn lemma_sum_range_u128_bound(s: Seq<u128>, lo: int, hi: int, b: int)
    requires
        0 <= lo <= hi <= s.len(),
        forall|i: int| lo <= i < hi ==> s[i] <= b,
    ensures
        0 <= sum_range_u128(s, lo, hi) <= (hi - lo) * b,
    decreases hi - lo,
{
    if hi > lo {
        lemma_sum_range_u128_bound(s, lo, hi - 1, b);
        assert(s[hi - 1] <= b);
        assert((hi - lo - 1) * b + b == (hi - lo) * b) by (nonlinear_arith);
    } else {
        assert((hi - lo) * b == 0) by (nonlinear_arith)
            requires hi - lo == 0;
    }
}

/// Every entry of a range is at most the range's sum.
pub proof fn lemma_sum_range_u128_element(s: Seq<u128>, lo: int, hi: int, i: int)
    requires
        0 <= lo <= i < hi <= s.len(),
    ensures
        s[i] <= sum_range_u128(s, lo, hi),
    decreases hi - lo,
{
    lemma_sum_range_u128_bound(s, lo, i, u128::MAX as int);
    lemma_sum_range_u128_bound(s, i + 1, hi, u128::MAX as int);
    lemma_sum_split_u128(s, lo, i, hi);
    assert(sum_range_u128(s, lo, i + 1) == sum_range_u128(s, lo, i) + s[i]);
    lemma_sum_split_u128(s, lo, i + 1, hi);
}

/// A range sum splits at any midpoint.
pub proof fn lemma_sum_split_u128(s: Seq<u128>, lo: int, mid: int, hi: int)
    requires
        0 <= lo <= mid <= hi <= s.len(),
    ensures
        sum_range_u128(s, lo, hi) == sum_range_u128(s, lo, mid) + sum_range_u128(s, mid, hi),
    decreases hi - mid,
{
    if hi > mid {
        lemma_sum_split_u128(s, lo, mid, hi - 1);
    }
}

/// A probability table of `ngroups` conditioning slices, `gsize` cells
/// each, with its accumulator of weighted counts.
pub struct ProbTable {
    /// Probability cells, each in `[0, SCALE]`.
    pub probs: Vec<u64>,
    /// Weighted observation counts, same shape as `probs`.
    pub dirty: Vec<u128>,
    /// Cells per conditioning slice.
    pub gsize: usize,
    /// Number of conditioning slices.
    pub ngroups: usize,
}

impl ProbTable {
    /// Shape and range invariant: fixed at construction, preserved by
    /// every operation.
    pub open spec fn wf(self) -> bool {
        &&& 1 <= self.gsize
        &&& 1 <= self.ngroups
        &&& self.probs@.len() == self.ngroups * self.gsize
        &&& self.probs@.len() <= CELLS_MAX
        &&& self.dirty@.len() == self.probs@.len()
        &&& forall|i: int| 0 <= i < self.probs@.len() ==> self.probs@[i] <= SCALE
    }

    /// Two tables have the same shape.
    pub open spec fn same_shape(self, other: ProbTable) -> bool {
        &&& self.gsize == other.gsize
        &&& self.ngroups == other.ngroups
        &&& self.probs@.len() == other.probs@.len()
        &&& self.dirty@.len() == other.dirty@.len()
    }

    /// Probability of cell `i`; zero outside the table.
    pub open spec fn at(self, i: int) -> int {
        if 0 <= i < self.probs@.len() {
            self.probs@[i] as int
        } else {
            0
        }
    }

    /// Accumulated mass of conditioning slice `g`.
    pub open spec fn group_mass(self, g: int) -> int {
        sum_range_u128(self.dirty@, g * self.gsize, (g + 1) * self.gsize)
    }

    /// Probability sum of conditioning slice `g`.
    pub open spec fn group_prob_sum(self, g: int) -> int {
        sum_range_u64(self.probs@, g * self.gsize, (g + 1) * self.gsize)
    }

    /// The slice of a cell lies inside the table.
    pub proof fn lemma_cell_group(self, i: int)
        requires
            self.wf(),
            0 <= i < self.probs@.len(),
        ensures
            0 <= i / (self.gsize as int) < self.ngroups,
            (i / (self.gsize as int)) * self.gsize <= i
                < (i / (self.gsize as int) + 1) * self.gsize,
            (i / (self.gsize as int) + 1) * self.gsize <= self.probs@.len(),
    {
        let gs = self.gsize as int;
        let g = i / gs;
        vstd::arithmetic::div_mod::lemma_fundamental_div_mod(i, gs);
        vstd::arithmetic::div_mod::lemma_mod_bound(i, gs);
        assert(i == gs * g + i % gs);
        assert(g * gs <= i < (g + 1) * gs) by (nonlinear_arith)
            requires i == gs * g + i % gs && 0 <= i % gs < gs;
        vstd::arithmetic::div_mod::lemma_div_pos_is_pos(i, gs);
        assert(g < self.ngroups) by (nonlinear_arith)
            requires i < self.ngroups * gs && g * gs <= i < (g + 1) * gs && gs > 0;
        assert((g + 1) * gs <= (self.ngroups as int) * gs) by (nonlinear_arith)
            requires g + 1 <= self.ngroups && gs > 0;
    }

    /// A whole slice lies inside the table.
    pub proof fn lemma_group_bounds(self, g: int)
        requires
            self.wf(),
            0 <= g < self.ngroups,
        ensures
            0 <= g * self.gsize,
            g * self.gsize + self.gsize == (g + 1) * self.gsize,
            (g + 1) * self.gsize <= self.probs@.len(),
    {
        let gs = self.gsize as int;
        assert(0 <= g * gs && (g + 1) * gs <= (self.ngroups as int) * gs) by (nonlinear_arith)
            requires 0 <= g && g + 1 <= self.ngroups && gs >= 1;
        assert(g * gs + gs == (g + 1) * gs) by (nonlinear_arith);
    }

    /// Validates a table: the shape divides evenly into `ngroups`
    /// slices, every cell is a probability, and every slice sums to
    /// exactly one probability unit. Fails with an error naming `tag`.
    pub fn new(probs: Vec<u64>, ngroups: usize, tag: SubModel) -> (r: Result<ProbTable, ModelError>)
        ensures
            r == Err::<ProbTable, ModelError>(ModelError::BadShape(tag)) <==> !Self::shape_ok(
                probs@,
                ngroups as int,
            ),
            r == Err::<ProbTable, ModelError>(ModelError::ValueTooLarge(tag)) <==> (Self::shape_ok(
                probs@,
                ngroups as int,
            ) && !Self::values_ok(probs@)),
            r == Err::<ProbTable, ModelError>(ModelError::BadGroupSum(tag)) <==> (Self::shape_ok(
                probs@,
                ngroups as int,
            ) && Self::values_ok(probs@) && !Self::sums_ok(probs@, ngroups as int)),
            r.is_ok() <==> (Self::shape_ok(probs@, ngroups as int) && Self::values_ok(probs@)
                && Self::sums_ok(probs@, ngroups as int)),
            r.is_ok() ==> {
                let t = r.unwrap();
                &&& t.wf()
                &&& t.probs@ == probs@
                &&& t.ngroups == ngroups
                &&& t.gsize as int == (probs@.len() as int) / (ngroups as int)
                &&& t.dirty@.len() == probs@.len()
                &&& forall|i: int| 0 <= i < t.dirty@.len() ==> t.dirty@[i] == 0
                &&& forall|g: int| 0 <= g < t.ngroups ==> t.group_prob_sum(g) == SCALE
            },
    {
        if ngroups == 0 || probs.len() == 0 || probs.len() % ngroups != 0 || probs.len()
            > CELLS_MAX {
            return Err(ModelError::BadShape(tag));
        }
        let gsize: usize = probs.len() / ngroups;
        proof {
            vstd::arithmetic::div_mod::lemma_fundamental_div_mod(
                probs@.len() as int,
                ngroups as int,
            );
            assert(probs@.len() == (ngroups as int) * (gsize as int));
            assert(gsize >= 1) by (nonlinear_arith)
                requires
                    (ngroups as int) * (gsize as int) == probs@.len() && probs@.len() > 0,
            ;
        }
        let n: usize = probs.len();
        for i in 0..n
            invariant
                forall|k: int| 0 <= k < i ==> probs@[k] <= SCALE,
        {
            if probs[i] > SCALE {
                return Err(ModelError::ValueTooLarge(tag));
            }
        }
        let mut g: usize = 0;
        while g < ngroups
            invariant
                g <= ngroups,
                forall|h: int|
                    0 <= h < g ==> #[trigger] sum_range_u64(
                        probs@,
                        h * gsize,
                        (h + 1) * gsize,
                    ) == SCALE,
            decreases ngroups - g,
        {
            proof {
                assert(0 <= (g as int) * gsize && ((g as int) + 1) * gsize <= (ngroups as int)
                    * gsize && (g as int) * gsize + gsize == ((g as int) + 1) * gsize)
                    by (nonlinear_arith)
                    requires 0 <= g < ngroups && gsize >= 1;
            }
            let lo: usize = g * gsize;
            let mut s: u64 = 0;
            let mut k: usize = 0;
            while k < gsize
                invariant
                    k <= gsize,
                    lo == g * gsize,
                    lo + gsize <= n,
                    s as int == sum_range_u64(probs@, lo as int, lo + k),
                    s <= (k as int) * (SCALE as int),
                decreases gsize - k,
            {
                proof {
                    assert((k as int) * (SCALE as int) + SCALE == ((k as int) + 1) * (
                    SCALE as int)) by (nonlinear_arith);
                    assert(((k as int) + 1) * (SCALE as int) <= (gsize as int) * (SCALE as int))
                        by (nonlinear_arith)
                        requires k + 1 <= gsize;
                    assert((gsize as int) * (SCALE as int) < u64::MAX) by (nonlinear_arith)
                        requires gsize <= CELLS_MAX;
                }
                s = s + probs[lo + k];
                k = k + 1;
            }
            if s != SCALE {
                return Err(ModelError::BadGroupSum(tag));
            }
            g = g + 1;
        }
        let mut dirty: Vec<u128> = Vec::new();
        let mut z: usize = 0;
        while z < n
            invariant
                dirty@.len() == z,
                z <= n,
                forall|i: int| 0 <= i < z ==> dirty@[i] == 0,
            decreases n - z,
        {
            dirty.push(0);
            z = z + 1;
        }
        let t = ProbTable { probs, dirty, gsize, ngroups };
        proof {
            assert(Self::sums_ok(t.probs@, ngroups as int));
        }
        Ok(t)
    }

    /// The shape condition `new` checks.
    pub open spec fn shape_ok(probs: Seq<u64>, ngroups: int) -> bool {
        &&& ngroups >= 1
        &&& probs.len() >= 1
        &&& (probs.len() as int) % ngroups == 0
        &&& probs.len() <= CELLS_MAX
    }

    /// The value condition `new` checks.
    pub open spec fn values_ok(probs: Seq<u64>) -> bool {
        forall|i: int| 0 <= i < probs.len() ==> probs[i] <= SCALE
    }

    /// The slice-sum condition `new` checks.
    pub open spec fn sums_ok(probs: Seq<u64>, ngroups: int) -> bool {
        forall|g: int|
            0 <= g < ngroups ==> #[trigger] sum_range_u64(
                probs,
                g * ((probs.len() as int) / ngroups),
                (g + 1) * ((probs.len() as int) / ngroups),
            ) == SCALE
    }

    /// Point probability lookup; zero for an out-of-range index.
    pub fn get(&self, i: usize) -> (r: u64)
        ensures
            r as int == self.at(i as int),
            r <= SCALE || !self.wf(),
    {
        if i < self.probs.len() {
            self.probs[i]
        } else {
            0
        }
    }

    /// Adds weight `w` to accumulator cell `i`.
    pub fn add_dirty(&mut self, i: usize, w: u128)
        requires
            i < old(self).dirty@.len(),
            old(self).dirty@[i as int] + w <= u128::MAX,
        ensures
            final(self).dirty@ == old(self).dirty@.update(
                i as int,
                (old(self).dirty@[i as int] + w) as u128,
            ),
            final(self).probs == old(self).probs,
            final(self).gsize == old(self).gsize,
            final(self).ngroups == old(self).ngroups,
    {
        let v: u128 = self.dirty[i] + w;
        self.dirty.set(i, v);
    }

    /// What `cleanup` puts in cell `i`: the accumulator renormalized over
    /// the cell's conditioning slice, or zero when the whole slice
    /// accumulated no mass.
    pub open spec fn cleanup_cell(self, i: int) -> int {
        let g = i / (self.gsize as int);
        let m = self.group_mass(g);
        if m == 0 {
            0
        } else {
            (self.dirty@[i] * SCALE) / m
        }
    }

    /// Renormalizes the accumulator into a fresh table: each cell becomes
    /// its accumulated weight divided by its conditioning slice's total
    /// mass; a slice with no mass at all becomes all zeros. The new
    /// table's accumulator starts at zero; this table is left untouched.
    pub fn cleanup(&self, tag: SubModel) -> (r: Result<ProbTable, ModelError>)
        requires
            self.wf(),
        ensures
            r.is_err() <==> exists|i: int|
                0 <= i < self.dirty@.len() && self.dirty@[i] > ACC_RENORM_MAX,
            r.is_err() ==> r == Err::<ProbTable, ModelError>(
                ModelError::AccumulatorOverflow(tag),
            ),
            r.is_ok() ==> {
                let t = r.unwrap();
                &&& t.wf()
                &&& t.same_shape(*self)
                &&& forall|i: int| 0 <= i < t.dirty@.len() ==> t.dirty@[i] == 0
                &&& forall|i: int|
                    0 <= i < t.probs@.len() ==> t.probs@[i] as int == self.cleanup_cell(i)
            },
    {
        let n: usize = self.probs.len();
        for i in 0..n
            invariant
                forall|k: int| 0 <= k < i ==> self.dirty@[k] <= ACC_RENORM_MAX,
        {
            if self.dirty[i] > ACC_RENORM_MAX {
                return Err(ModelError::AccumulatorOverflow(tag));
            }
        }
        let mut probs: Vec<u64> = Vec::new();
        let mut dirty: Vec<u128> = Vec::new();
        let mut g: usize = 0;
        while g < self.ngroups
            invariant
                g <= self.ngroups,
                probs@.len() == (g as int) * self.gsize,
                dirty@.len() == probs@.len(),
                forall|k: int| 0 <= k < dirty@.len() ==> dirty@[k] == 0,
                forall|i: int|
                    0 <= i < probs@.len() ==> probs@[i] as int == self.cleanup_cell(i)
                        && probs@[i] <= SCALE,
            decreases self.ngroups - g,
        {
            proof {
                self.lemma_group_bounds(g as int);
            }
            let lo: usize = g * self.gsize;
            let mut m: u128 = 0;
            let mut k: usize = 0;
            while k < self.gsize
                invariant
                    k <= self.gsize,
                    lo == (g as int) * self.gsize,
                    lo + self.gsize <= self.dirty@.len(),
                    forall|i: int| 0 <= i < self.dirty@.len() ==> self.dirty@[i] <= ACC_RENORM_MAX,
                    m as int == sum_range_u128(self.dirty@, lo as int, lo + k),
                    m as int <= (k as int) * (ACC_RENORM_MAX as int),
                decreases self.gsize - k,
            {
                proof {
                    assert((k as int) * (ACC_RENORM_MAX as int) + ACC_RENORM_MAX == ((
                    k as int) + 1) * (ACC_RENORM_MAX as int)) by (nonlinear_arith);
                    assert(((k as int) + 1) * (ACC_RENORM_MAX as int) <= (
                    CELLS_MAX as int) * (ACC_RENORM_MAX as int)) by (nonlinear_arith)
                        requires k + 1 <= CELLS_MAX;
                    assert((CELLS_MAX as int) * (ACC_RENORM_MAX as int) < u128::MAX)
                        by (nonlinear_arith);
                }
                m = m + self.dirty[lo + k];
                k = k + 1;
            }
            assert(m as int == self.group_mass(g as int));
            let mut k2: usize = 0;
            while k2 < self.gsize
                invariant
                    k2 <= self.gsize,
                    lo == (g as int) * self.gsize,
                    lo + self.gsize <= self.dirty@.len(),
                    m as int == self.group_mass(g as int),
                    probs@.len() == lo + k2,
                    dirty@.len() == probs@.len(),
                    forall|k: int| 0 <= k < dirty@.len() ==> dirty@[k] == 0,
                    forall|i: int| 0 <= i < self.dirty@.len() ==> self.dirty@[i] <= ACC_RENORM_MAX,
                    forall|i: int|
                        0 <= i < probs@.len() ==> probs@[i] as int == self.cleanup_cell(i)
                            && probs@[i] <= SCALE,
                decreases self.gsize - k2,
            {
                let i: usize = lo + k2;
                proof {
                    lemma_fundamental_div_mod_converse(
                        i as int,
                        self.gsize as int,
                        g as int,
                        k2 as int,
                    );
                }
                let cell: u64 = if m == 0 {
                    0u64
                } else {
                    proof {
                        lemma_sum_range_u128_element(
                            self.dirty@,
                            lo as int,
                            lo + self.gsize,
                            i as int,
                        );
                        let d = self.dirty@[i as int] as int;
                        let mi = m as int;
                        let s = SCALE as int;
                        lemma_mul_inequality(d, mi, s);
                        lemma_mul_is_commutative(d, s);
                        lemma_mul_is_commutative(mi, s);
                        lemma_div_is_ordered(d * s, mi * s, mi);
                        lemma_div_multiples_vanish(s, mi);
                        assert(d * s <= ACC_RENORM_MAX as int * s) by (nonlinear_arith)
                            requires d <= ACC_RENORM_MAX as int && s > 0;
                        assert(ACC_RENORM_MAX as int * s <= u128::MAX) by (nonlinear_arith)
                            requires s == SCALE as int;
                        lemma_div_is_ordered(0, d * s, mi);
                        assert(0 <= d * s) by (nonlinear_arith)
                            requires 0 <= d && 0 <= s;
                    }
                    ((self.dirty[i] * (SCALE as u128)) / m) as u64
                };
                probs.push(cell);
                dirty.push(0);
                k2 = k2 + 1;
            }
            g = g + 1;
        }
        let t = ProbTable { probs, dirty, gsize: self.gsize, ngroups: self.ngroups };
        proof {
            assert forall|i: int| 0 <= i < t.probs@.len() implies t.probs@[i] <= SCALE by {
                assert(probs@[i] as int == self.cleanup_cell(i) && probs@[i] <= SCALE);
            }
        }
        Ok(t)
    }

    /// Column sum over a collection of tables: the sum of cell `i` across
    /// all of them.
    pub open spec fn col_sum(ts: Seq<&ProbTable>, i: int) -> int
        decreases ts.len(),
    {
        if ts.len() == 0 {
            0
        } else {
            Self::col_sum(ts.drop_last(), i) + ts.last().at(i)
        }
    }

    /// A column sum over tables with probability cells stays within
    /// `[0, k * SCALE]`.
    pub proof fn lemma_col_sum_bound(ts: Seq<&ProbTable>, i: int)
        requires
            forall|j: int| 0 <= j < ts.len() ==> ts[j].wf(),
        ensures
            0 <= Self::col_sum(ts, i) <= ts.len() * (SCALE as int),
        decreases ts.len(),
    {
        if ts.len() > 0 {
            assert forall|j: int| 0 <= j < ts.drop_last().len() implies ts.drop_last()[j].wf() by {
                assert(ts.drop_last()[j] == ts[j]);
            }
            Self::lemma_col_sum_bound(ts.drop_last(), i);
            assert(ts.last() == ts[ts.len() - 1]);
            assert(ts.last().wf());
            assert(0 <= ts.last().at(i) <= SCALE);
            assert((ts.len() - 1) * (SCALE as int) + SCALE == ts.len() * (SCALE as int))
                by (nonlinear_arith);
        } else {
            assert(ts.len() * (SCALE as int) == 0) by (nonlinear_arith)
                requires ts.len() == 0;
        }
    }

    /// Elementwise arithmetic mean of the tables in `ts`. Fails on an
    /// empty collection or when shapes differ. The result's accumulator
    /// starts at zero.
    pub fn average(ts: &Vec<&ProbTable>, tag: SubModel) -> (r: Result<ProbTable, ModelError>)
        requires
            forall|j: int| 0 <= j < ts@.len() ==> ts@[j].wf(),
        ensures
            r == Err::<ProbTable, ModelError>(ModelError::EmptyInput) <==> ts@.len() == 0,
            ts@.len() > 0 ==> (r == Err::<ProbTable, ModelError>(ModelError::ShapeMismatch(tag))
                <==> exists|j: int| 0 < j < ts@.len() && !ts@[0].same_shape(*ts@[j])),
            r.is_ok() <==> (ts@.len() > 0 && forall|j: int|
                0 < j < ts@.len() ==> ts@[0].same_shape(*ts@[j])),
            r.is_ok() ==> {
                let t = r.unwrap();
                &&& t.wf()
                &&& t.same_shape(*ts@[0])
                &&& forall|i: int| 0 <= i < t.dirty@.len() ==> t.dirty@[i] == 0
                &&& forall|i: int|
                    0 <= i < t.probs@.len() ==> t.probs@[i] as int == Self::col_sum(ts@, i) / (
                    ts@.len() as int)
            },
    {
        if ts.len() == 0 {
            return Err(ModelError::EmptyInput);
        }
        let first: &ProbTable = ts[0];
        let n: usize = first.probs.len();
        let cnt: usize = ts.len();
        for j in 1..cnt
            invariant
                forall|h: int| 0 < h < j ==> ts@[0].same_shape(*ts@[h]),
        {
            let t: &ProbTable = ts[j];
            if t.gsize != first.gsize || t.ngroups != first.ngroups || t.probs.len() != n
                || t.dirty.len() != first.dirty.len() {
                proof {
                    assert(!ts@[0].same_shape(*ts@[j as int]));
                }
                return Err(ModelError::ShapeMismatch(tag));
            }
        }
        let mut probs: Vec<u64> = Vec::new();
        let mut dirty: Vec<u128> = Vec::new();
        for i in 0..n
            invariant
                probs@.len() == i,
                dirty@.len() == i,
                forall|h: int| 0 < h < ts@.len() ==> ts@[0].same_shape(*ts@[h]),
                n == ts@[0].probs@.len(),
                cnt == ts@.len(),
                forall|k: int| 0 <= k < i ==> dirty@[k] == 0,
                forall|k: int|
                    0 <= k < i ==> probs@[k] as int == Self::col_sum(ts@, k) / (ts@.len() as int)
                        && probs@[k] <= SCALE,
        {
            proof {
                assert forall|h: int|
                    0 <= h < ts@.len() implies 0 <= (i as int) < #[trigger] ts@[h].probs@.len() by {
                    if h > 0 {
                        assert(ts@[0].same_shape(*ts@[h]));
                    }
                }
                assert(0int * (SCALE as int) == 0) by (nonlinear_arith);
            }
            let mut s: u128 = 0;
            let mut j: usize = 0;
            while j < cnt
                invariant
                    j <= cnt,
                    i < n,
                    n == ts@[0].probs@.len(),
                    cnt == ts@.len(),
                    forall|h: int| 0 < h < ts@.len() ==> ts@[0].same_shape(*ts@[h]),
                    forall|h: int| 0 <= h < ts@.len() ==> 0 <= (i as int) < #[trigger] ts@[h].probs@.len(),
                    s as int == Self::col_sum(ts@.take(j as int), i as int),
                    s as int <= (j as int) * (SCALE as int),
                decreases cnt - j,
            {
                proof {
                    assert(ts@.take(j + 1).drop_last() =~= ts@.take(j as int));
                    assert(ts@.take(j + 1).last() == ts@[j as int]);
                    assert(ts@[j as int].probs@[i as int] <= SCALE) by {
                        assert(ts@[j as int].wf());
                    }
                    assert((j as int) * (SCALE as int) + SCALE == ((j as int) + 1) * (
                    SCALE as int)) by (nonlinear_arith);
                    assert(((j as int) + 1) * (SCALE as int) <= (cnt as int) * (SCALE as int))
                        by (nonlinear_arith)
                        requires j + 1 <= cnt;
                    assert((cnt as int) * (SCALE as int) < u128::MAX) by (nonlinear_arith)
                        requires cnt <= usize::MAX;
                }
                s = s + (ts[j].probs[i] as u128);
                j = j + 1;
            }
            proof {
                assert(ts@.take(cnt as int) =~= ts@);
                assert forall|j: int|
                    0 <= j < ts@.len() implies 0 <= (i as int) < #[trigger] ts@[j].probs@.len() by {
                    if j > 0 {
                        assert(ts@[0].same_shape(*ts@[j]));
                    }
                }
                Self::lemma_col_sum_bound(ts@, i as int);
                let c = cnt as int;
                let sc = SCALE as int;
                lemma_div_is_ordered(0, s as int, c);
                lemma_div_is_ordered(s as int, c * sc, c);
                lemma_mul_is_commutative(c, sc);
                lemma_div_multiples_vanish(sc, c);
            }
            let cell: u64 = (s / (cnt as u128)) as u64;
            probs.push(cell);
            dirty.push(0);
        }
        let t = ProbTable { probs, dirty, gsize: first.gsize, ngroups: first.ngroups };
        Ok(t)
    }
}

} // verus!
