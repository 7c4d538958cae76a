//! Global properties of the training transforms and of the inference
//! engine, stated and proved once and for all inputs.

use vstd::prelude::*;
use vstd::arithmetic::div_mod::{
    lemma_div_multiples_vanish, lemma_fundamental_div_mod, lemma_mod_bound,
};
use crate::feature::ErrorPoisson;
use crate::inference::{
    enum_d, enum_d3, enum_d5, enum_delv, enum_dj, enum_j, enum_v, entry_seq_parts, gen_prob_spec,
    l_total_parts, lemma_l_parts_bounds, lik_dj_parts, nd3_dim, nd5_dim, ndj_dim, ndv_dim,
    sum_l, Features,
};
use crate::prob::{pmul_spec, SCALE};
use crate::sequence::{DAlignment, Sequence, VJAlignment};
use crate::table::{sum_range_u128, sum_range_u64, ProbTable};

verus! {

/// Quotients are superadditive, and miss additivity by at most one.
proof fn lemma_div_add_bounds(a: int, b: int, d: int)
    requires
        0 <= a,
        0 <= b,
        0 < d,
    ensures
        a / d + b / d <= (a + b) / d <= a / d + b / d + 1,
{
    lemma_fundamental_div_mod(a, d);
    lemma_fundamental_div_mod(b, d);
    lemma_fundamental_div_mod(a + b, d);
    lemma_mod_bound(a, d);
    lemma_mod_bound(b, d);
    lemma_mod_bound(a + b, d);
    let qa = a / d;
    let qb = b / d;
    let qs = (a + b) / d;
    assert(d * qs - d * qa - d * qb == a % d + b % d - (a + b) % d);
    assert(d * (qs - qa - qb) == d * qs - d * qa - d * qb) by (nonlinear_arith);
    assert(0 <= qs - qa - qb <= 1) by (nonlinear_arith)
        requires
            d * (qs - qa - qb) == a % d + b % d - (a + b) % d && 0 <= a % d < d && 0 <= b % d < d
                && 0 <= (a + b) % d < d && 0 < d,
    ;
}

/// A renormalized range of cells sums to the renormalized range total,
/// up to one unit of rounding per cell.
proof fn lemma_norm_range_sum(cp: Seq<u64>, td: Seq<u128>, lo: int, hi: int, t: int)
    requires
        0 <= lo <= hi <= cp.len(),
        hi <= td.len(),
        0 < t,
        forall|i: int| lo <= i < hi ==> (#[trigger] cp[i]) as int == (td[i] * SCALE) / t,
    ensures
        (sum_range_u128(td, lo, hi) * SCALE) / t - (hi - lo) <= sum_range_u64(cp, lo, hi) <= (
        sum_range_u128(td, lo, hi) * SCALE) / t,
    decreases hi - lo,
{
    if hi <= lo {
        assert(sum_range_u128(td, lo, hi) == 0);
        assert((0int * SCALE) / t == 0) by (nonlinear_arith)
            requires t > 0;
    } else {
        lemma_norm_range_sum(cp, td, lo, hi - 1, t);
        let x = sum_range_u128(td, lo, hi - 1);
        let y = td[hi - 1] as int;
        let sc = SCALE as int;
        crate::table::lemma_sum_range_u128_bound(td, lo, hi - 1, u128::MAX as int);
        assert(0 <= x * sc && 0 <= y * sc) by (nonlinear_arith)
            requires
                0 <= x && 0 <= y && 0 <= sc,
        ;
        lemma_div_add_bounds(x * sc, y * sc, t);
        assert(x * sc + y * sc == (x + y) * sc) by (nonlinear_arith);
        assert(sum_range_u128(td, lo, hi) == x + y);
        assert(cp[hi - 1] as int == (y * sc) / t);
    }
}

/// After `cleanup`, every conditioning slice that accumulated any mass
/// is normalized back to one probability unit, up to one unit of
/// rounding per cell; a slice that accumulated nothing is all zeros.
/// This holds for the table of every categorical sub-model and for each
/// component table of the insertion models.
pub proof fn lemma_cleanup_slice_sums(t: ProbTable, c: ProbTable, g: int)
    requires
        t.wf(),
        c.same_shape(t),
        forall|i: int| 0 <= i < c.probs@.len() ==> (#[trigger] c.probs@[i]) as int
            == t.cleanup_cell(i),
        0 <= g < t.ngroups,
    ensures
        t.group_mass(g) == 0 ==> c.group_prob_sum(g) == 0,
        t.group_mass(g) > 0 ==> (SCALE as int) - t.gsize <= c.group_prob_sum(g) <= SCALE,
{
    t.lemma_group_bounds(g);
    let lo = g * (t.gsize as int);
    let hi = (g + 1) * (t.gsize as int);
    assert forall|i: int| lo <= i < hi implies #[trigger] (i / (t.gsize as int)) == g by {
        vstd::arithmetic::div_mod::lemma_fundamental_div_mod_converse(
            i,
            t.gsize as int,
            g,
            i - lo,
        );
    }
    let m = t.group_mass(g);
    if m == 0 {
        assert forall|i: int| lo <= i < hi implies c.probs@[i] <= 0 by {
            assert(c.probs@[i] as int == t.cleanup_cell(i));
        }
        crate::table::lemma_sum_range_u64_bound(c.probs@, lo, hi, 0);
    } else {
        crate::table::lemma_sum_range_u128_bound(t.dirty@, lo, hi, u128::MAX as int);
        assert forall|i: int| lo <= i < hi implies (#[trigger] c.probs@[i]) as int == (
        t.dirty@[i] * SCALE) / m by {
            assert(c.probs@[i] as int == t.cleanup_cell(i));
        }
        lemma_norm_range_sum(c.probs@, t.dirty@, lo, hi, m);
        assert((m * SCALE) / m == SCALE) by {
            vstd::arithmetic::mul::lemma_mul_is_commutative(m, SCALE as int);
            lemma_div_multiples_vanish(SCALE as int, m);
        }
    }
}

/// The column sum over a pair of one table is twice its cell.
proof fn lemma_col_sum_pair(a: &ProbTable, i: int)
    ensures
        ProbTable::col_sum(seq![a, a], i) == 2 * a.at(i),
{
    reveal_with_fuel(ProbTable::col_sum, 3);
    let s = seq![a, a];
    assert(s.drop_last() =~= seq![a]);
    assert(s.last() == a);
    assert(seq![a].drop_last() =~= Seq::<&ProbTable>::empty());
    assert(seq![a].last() == a);
    assert(ProbTable::col_sum(Seq::<&ProbTable>::empty(), i) == 0);
}

/// The column sums of a pair of one feature set halve back to the
/// original cells.
proof fn lemma_pair_avg(ts: Seq<&ProbTable>, t: &ProbTable)
    requires
        ts == seq![t, t],
        t.wf(),
    ensures
        forall|i: int|
            0 <= i < t.probs@.len() ==> #[trigger] (ProbTable::col_sum(ts, i) / 2) == t.probs@[i],
{
    assert forall|i: int|
        0 <= i < t.probs@.len() implies #[trigger] (ProbTable::col_sum(ts, i) / 2)
        == t.probs@[i] by {
        lemma_col_sum_pair(t, i);
        assert(t.at(i) == t.probs@[i]);
        lemma_div_multiples_vanish(t.probs@[i] as int, 2);
    }
}

/// Averaging two identical feature sets leaves every parameter value
/// unchanged: each averaged cell of every sub-model's table equals the
/// original cell, and the averaged error rate equals the original rate.
/// Together with the contract of `Features::average`, the average of a
/// feature set with itself has exactly its own parameters.
pub proof fn lemma_average_pair_identity(f: Features)
    requires
        f.wf(),
    ensures
        forall|i: int|
            0 <= i < f.v.t.probs@.len() ==> (ProbTable::col_sum(
                seq![f, f].map_values(|x: Features| &x.v.t),
                i,
            ) / 2) == #[trigger] f.v.t.probs@[i],
        forall|i: int|
            0 <= i < f.dj.t.probs@.len() ==> (ProbTable::col_sum(
                seq![f, f].map_values(|x: Features| &x.dj.t),
                i,
            ) / 2) == #[trigger] f.dj.t.probs@[i],
        forall|i: int|
            0 <= i < f.delv.t.probs@.len() ==> (ProbTable::col_sum(
                seq![f, f].map_values(|x: Features| &x.delv.t),
                i,
            ) / 2) == #[trigger] f.delv.t.probs@[i],
        forall|i: int|
            0 <= i < f.delj.t.probs@.len() ==> (ProbTable::col_sum(
                seq![f, f].map_values(|x: Features| &x.delj.t),
                i,
            ) / 2) == #[trigger] f.delj.t.probs@[i],
        forall|i: int|
            0 <= i < f.deld.t.probs@.len() ==> (ProbTable::col_sum(
                seq![f, f].map_values(|x: Features| &x.deld.t),
                i,
            ) / 2) == #[trigger] f.deld.t.probs@[i],
        forall|i: int|
            0 <= i < f.insvd.len_t.probs@.len() ==> (ProbTable::col_sum(
                seq![f, f].map_values(|x: Features| &x.insvd.len_t),
                i,
            ) / 2) == #[trigger] f.insvd.len_t.probs@[i],
        forall|i: int|
            0 <= i < f.insvd.bias_t.probs@.len() ==> (ProbTable::col_sum(
                seq![f, f].map_values(|x: Features| &x.insvd.bias_t),
                i,
            ) / 2) == #[trigger] f.insvd.bias_t.probs@[i],
        forall|i: int|
            0 <= i < f.insvd.markov_t.probs@.len() ==> (ProbTable::col_sum(
                seq![f, f].map_values(|x: Features| &x.insvd.markov_t),
                i,
            ) / 2) == #[trigger] f.insvd.markov_t.probs@[i],
        forall|i: int|
            0 <= i < f.insdj.len_t.probs@.len() ==> (ProbTable::col_sum(
                seq![f, f].map_values(|x: Features| &x.insdj.len_t),
                i,
            ) / 2) == #[trigger] f.insdj.len_t.probs@[i],
        forall|i: int|
            0 <= i < f.insdj.bias_t.probs@.len() ==> (ProbTable::col_sum(
                seq![f, f].map_values(|x: Features| &x.insdj.bias_t),
                i,
            ) / 2) == #[trigger] f.insdj.bias_t.probs@[i],
        forall|i: int|
            0 <= i < f.insdj.markov_t.probs@.len() ==> (ProbTable::col_sum(
                seq![f, f].map_values(|x: Features| &x.insdj.markov_t),
                i,
            ) / 2) == #[trigger] f.insdj.markov_t.probs@[i],
        ErrorPoisson::rate_sum(seq![f, f].map_values(|x: Features| &x.error)) / 2
            == f.error.rate,
{
    assert(seq![f, f].map_values(|x: Features| &x.v.t) =~= seq![&f.v.t, &f.v.t]);
    lemma_pair_avg(seq![f, f].map_values(|x: Features| &x.v.t), &f.v.t);
    assert(seq![f, f].map_values(|x: Features| &x.dj.t) =~= seq![&f.dj.t, &f.dj.t]);
    lemma_pair_avg(seq![f, f].map_values(|x: Features| &x.dj.t), &f.dj.t);
    assert(seq![f, f].map_values(|x: Features| &x.delv.t) =~= seq![&f.delv.t, &f.delv.t]);
    lemma_pair_avg(seq![f, f].map_values(|x: Features| &x.delv.t), &f.delv.t);
    assert(seq![f, f].map_values(|x: Features| &x.delj.t) =~= seq![&f.delj.t, &f.delj.t]);
    lemma_pair_avg(seq![f, f].map_values(|x: Features| &x.delj.t), &f.delj.t);
    assert(seq![f, f].map_values(|x: Features| &x.deld.t) =~= seq![&f.deld.t, &f.deld.t]);
    lemma_pair_avg(seq![f, f].map_values(|x: Features| &x.deld.t), &f.deld.t);
    assert(seq![f, f].map_values(|x: Features| &x.insvd.len_t) =~= seq![
        &f.insvd.len_t,
        &f.insvd.len_t,
    ]);
    lemma_pair_avg(seq![f, f].map_values(|x: Features| &x.insvd.len_t), &f.insvd.len_t);
    assert(seq![f, f].map_values(|x: Features| &x.insvd.bias_t) =~= seq![
        &f.insvd.bias_t,
        &f.insvd.bias_t,
    ]);
    lemma_pair_avg(seq![f, f].map_values(|x: Features| &x.insvd.bias_t), &f.insvd.bias_t);
    assert(seq![f, f].map_values(|x: Features| &x.insvd.markov_t) =~= seq![
        &f.insvd.markov_t,
        &f.insvd.markov_t,
    ]);
    lemma_pair_avg(seq![f, f].map_values(|x: Features| &x.insvd.markov_t), &f.insvd.markov_t);
    assert(seq![f, f].map_values(|x: Features| &x.insdj.len_t) =~= seq![
        &f.insdj.len_t,
        &f.insdj.len_t,
    ]);
    lemma_pair_avg(seq![f, f].map_values(|x: Features| &x.insdj.len_t), &f.insdj.len_t);
    assert(seq![f, f].map_values(|x: Features| &x.insdj.bias_t) =~= seq![
        &f.insdj.bias_t,
        &f.insdj.bias_t,
    ]);
    lemma_pair_avg(seq![f, f].map_values(|x: Features| &x.insdj.bias_t), &f.insdj.bias_t);
    assert(seq![f, f].map_values(|x: Features| &x.insdj.markov_t) =~= seq![
        &f.insdj.markov_t,
        &f.insdj.markov_t,
    ]);
    lemma_pair_avg(seq![f, f].map_values(|x: Features| &x.insdj.markov_t), &f.insdj.markov_t);
    assert(seq![f, f].map_values(|x: Features| &x.error) =~= seq![&f.error, &f.error]);
    assert(ErrorPoisson::rate_sum(seq![&f.error, &f.error]) == 2 * (f.error.rate as int)) by {
        reveal_with_fuel(ErrorPoisson::rate_sum, 3);
        assert(seq![&f.error, &f.error].drop_last() =~= seq![&f.error]);
        assert(seq![&f.error, &f.error].last() == &f.error);
        assert(seq![&f.error].last() == &f.error);
        assert(seq![&f.error].drop_last() =~= Seq::<&ErrorPoisson>::empty());
    }
    lemma_div_multiples_vanish(f.error.rate as int, 2);
}

/// `cleanup` is deterministic: two tables renormalized from the same
/// unmodified accumulator state are cell-for-cell identical. Applied to
/// every sub-model's table, two `cleanup` calls on one unmodified
/// feature set yield the same parameters twice.
pub proof fn lemma_cleanup_deterministic(t: ProbTable, c1: ProbTable, c2: ProbTable)
    requires
        c1.same_shape(t),
        c2.same_shape(t),
        forall|i: int|
            0 <= i < c1.probs@.len() ==> (#[trigger] c1.probs@[i]) as int == t.cleanup_cell(i),
        forall|i: int|
            0 <= i < c2.probs@.len() ==> (#[trigger] c2.probs@[i]) as int == t.cleanup_cell(i),
    ensures
        c1.probs@ == c2.probs@,
{
    assert(c1.probs@ =~= c2.probs@);
}

/// Geometric infeasibility contributes exactly nothing: when the kept V
/// part, D window and J part overlap or cross, the event's likelihood
/// is exactly zero, so it adds nothing to the generation probability and
/// never enters the survivor list (hence never the ranked events).
pub proof fn lemma_infeasible_zero(
    f: Features,
    nt: Seq<u8>,
    v: VJAlignment,
    delv: int,
    j: VJAlignment,
    delj: int,
    d: DAlignment,
    deld5: int,
    deld3: int,
    min_l: int,
)
    requires
        f.wf(),
        v.end_seq - delv > d.pos + deld5 || d.pos + deld5 > d.pos + d.dlen - deld3 || d.pos
            + d.dlen - deld3 > j.start_seq + delj,
    ensures
        lik_dj_parts(f, v, delv, j, delj, d, deld5, deld3) == 0,
        l_total_parts(f, nt, v, delv, j, delj, d, deld5, deld3) == 0,
        entry_seq_parts(f, nt, v, delv, j, delj, d, deld5, deld3, min_l) == Seq::<
            crate::inference::EntryV,
        >::empty(),
{
    lemma_l_parts_bounds(f, nt, v, delv, j, delj, d, deld5, deld3);
    let lv = crate::inference::lik_v_parts(f, v, delv);
    let svd = f.insvd.seq_lik(crate::inference::ins_vd_parts(nt, v, delv, d, deld5));
    let sdj = f.insdj.seq_lik(crate::inference::ins_dj_parts(nt, j, delj, d, deld3));
    vstd::arithmetic::div_mod::lemma_div_of0(SCALE as int);
    assert(lv * 0 == 0) by (nonlinear_arith);
    assert(pmul_spec(lv, 0) == 0);
    assert(0int * svd == 0) by (nonlinear_arith);
    assert(pmul_spec(0, svd) == 0);
    assert(0int * sdj == 0) by (nonlinear_arith);
    assert(pmul_spec(0, sdj) == 0);
}

/// Concatenating two survivor lists adds their likelihood sums.
proof fn lemma_sum_l_concat(a: Seq<crate::inference::EntryV>, b: Seq<crate::inference::EntryV>)
    ensures
        sum_l(a + b) == sum_l(a) + sum_l(b),
    decreases b.len(),
{
    if b.len() == 0 {
        assert(a + b =~= a);
    } else {
        assert((a + b).drop_last() =~= a + b.drop_last());
        assert((a + b).last() == b.last());
        lemma_sum_l_concat(a, b.drop_last());
    }
}

/// Removing one table from a collection removes exactly its cell from
/// the column sum.
proof fn lemma_col_sum_remove(ts: Seq<&ProbTable>, k: int, i: int)
    requires
        0 <= k < ts.len(),
    ensures
        ProbTable::col_sum(ts, i) == ProbTable::col_sum(ts.remove(k), i) + ts[k].at(i),
    decreases ts.len(),
{
    if k == ts.len() - 1 {
        assert(ts.remove(k) =~= ts.drop_last());
    } else {
        lemma_col_sum_remove(ts.drop_last(), k, i);
        assert(ts.drop_last()[k] == ts[k]);
        assert(ts.remove(k).drop_last() =~= ts.drop_last().remove(k));
        assert(ts.remove(k).last() == ts.last());
    }
}

/// The column sum over a collection of tables does not depend on their
/// order: any rearrangement gives the same sum. With the contract of
/// `Features::average`, averaging a rearranged collection yields the
/// same parameter values.
pub proof fn lemma_col_sum_permutation(a: Seq<&ProbTable>, b: Seq<&ProbTable>, i: int)
    requires
        a.to_multiset() == b.to_multiset(),
    ensures
        ProbTable::col_sum(a, i) == ProbTable::col_sum(b, i),
    decreases a.len(),
{
    a.to_multiset_ensures();
    b.to_multiset_ensures();
    if a.len() == 0 {
        assert(b.to_multiset().len() == 0);
        assert(b.len() == 0);
    } else {
        let x = a.last();
        assert(a.contains(x));
        assert(b.to_multiset().count(x) > 0);
        assert(b.contains(x));
        let k = choose|k: int| 0 <= k < b.len() && b[k] == x;
        lemma_col_sum_remove(b, k, i);
        assert(a.drop_last() =~= a.remove(a.len() - 1));
        assert(a.remove(a.len() - 1).to_multiset() =~= a.to_multiset().remove(x));
        assert(b.remove(k).to_multiset() =~= b.to_multiset().remove(x));
        lemma_col_sum_permutation(a.drop_last(), b.remove(k), i);
    }
}

/// Removing one instance from a collection removes exactly its rate
/// from the rate sum.
proof fn lemma_rate_sum_remove(xs: Seq<&ErrorPoisson>, k: int)
    requires
        0 <= k < xs.len(),
    ensures
        ErrorPoisson::rate_sum(xs) == ErrorPoisson::rate_sum(xs.remove(k)) + xs[k].rate,
    decreases xs.len(),
{
    if k == xs.len() - 1 {
        assert(xs.remove(k) =~= xs.drop_last());
    } else {
        lemma_rate_sum_remove(xs.drop_last(), k);
        assert(xs.drop_last()[k] == xs[k]);
        assert(xs.remove(k).drop_last() =~= xs.drop_last().remove(k));
        assert(xs.remove(k).last() == xs.last());
    }
}

/// The rate sum over a collection of error models does not depend on
/// their order. With the contract of `Features::average`, averaging a
/// rearranged collection yields the same error rate.
pub proof fn lemma_rate_sum_permutation(a: Seq<&ErrorPoisson>, b: Seq<&ErrorPoisson>)
    requires
        a.to_multiset() == b.to_multiset(),
    ensures
        ErrorPoisson::rate_sum(a) == ErrorPoisson::rate_sum(b),
    decreases a.len(),
{
    a.to_multiset_ensures();
    b.to_multiset_ensures();
    if a.len() == 0 {
        assert(b.to_multiset().len() == 0);
        assert(b.len() == 0);
    } else {
        let x = a.last();
        assert(a.contains(x));
        assert(b.to_multiset().count(x) > 0);
        assert(b.contains(x));
        let k = choose|k: int| 0 <= k < b.len() && b[k] == x;
        lemma_rate_sum_remove(b, k);
        assert(a.drop_last() =~= a.remove(a.len() - 1));
        assert(a.remove(a.len() - 1).to_multiset() =~= a.to_multiset().remove(x));
        assert(b.remove(k).to_multiset() =~= b.to_multiset().remove(x));
        lemma_rate_sum_permutation(a.drop_last(), b.remove(k));
    }
}

/// Mapping two rearrangements of the same collection gives
/// rearrangements of the same collection.
proof fn lemma_map_values_multiset<A, B>(a: Seq<A>, b: Seq<A>, f: spec_fn(A) -> B)
    requires
        a.to_multiset() == b.to_multiset(),
    ensures
        a.map_values(f).to_multiset() == b.map_values(f).to_multiset(),
    decreases a.len(),
{
    a.to_multiset_ensures();
    b.to_multiset_ensures();
    a.map_values(f).to_multiset_ensures();
    b.map_values(f).to_multiset_ensures();
    if a.len() == 0 {
        assert(b.to_multiset().len() == 0);
        assert(b.len() == 0);
        assert(a.map_values(f) =~= b.map_values(f));
    } else {
        let x = a.last();
        assert(a.contains(x));
        assert(b.to_multiset().count(x) > 0);
        assert(b.contains(x));
        let k = choose|k: int| 0 <= k < b.len() && b[k] == x;
        assert(a.drop_last() =~= a.remove(a.len() - 1));
        assert(a.remove(a.len() - 1).to_multiset() =~= a.to_multiset().remove(x));
        assert(b.remove(k).to_multiset() =~= b.to_multiset().remove(x));
        lemma_map_values_multiset(a.drop_last(), b.remove(k), f);
        let am = a.map_values(f);
        let bm = b.map_values(f);
        a.drop_last().map_values(f).to_multiset_ensures();
        assert(am =~= a.drop_last().map_values(f).push(f(x)));
        assert(am.to_multiset() =~= a.drop_last().map_values(f).to_multiset().insert(f(x)));
        assert(bm.remove(k) =~= b.remove(k).map_values(f));
        assert(bm[k] == f(x));
        assert(bm.remove(k).to_multiset() =~= bm.to_multiset().remove(f(x)));
        assert(bm.contains(f(x)));
        assert(bm.to_multiset().count(f(x)) > 0);
        assert(bm.to_multiset().remove(f(x)).insert(f(x)) =~= bm.to_multiset());
    }
}

/// The elementwise mean is symmetric in its inputs: for two
/// rearrangements of one collection of feature sets, every column sum
/// and the rate sum that `Features::average`'s contract divides by the
/// count are equal, so both averages carry the same parameter values.
pub proof fn lemma_average_permutation_invariant(fs1: Seq<Features>, fs2: Seq<Features>, i: int)
    requires
        fs1.to_multiset() == fs2.to_multiset(),
    ensures
        fs1.len() == fs2.len(),
        ProbTable::col_sum(fs1.map_values(|x: Features| &x.v.t), i) == ProbTable::col_sum(
            fs2.map_values(|x: Features| &x.v.t),
            i,
        ),
        ProbTable::col_sum(fs1.map_values(|x: Features| &x.dj.t), i) == ProbTable::col_sum(
            fs2.map_values(|x: Features| &x.dj.t),
            i,
        ),
        ProbTable::col_sum(fs1.map_values(|x: Features| &x.delv.t), i) == ProbTable::col_sum(
            fs2.map_values(|x: Features| &x.delv.t),
            i,
        ),
        ProbTable::col_sum(fs1.map_values(|x: Features| &x.delj.t), i) == ProbTable::col_sum(
            fs2.map_values(|x: Features| &x.delj.t),
            i,
        ),
        ProbTable::col_sum(fs1.map_values(|x: Features| &x.deld.t), i) == ProbTable::col_sum(
            fs2.map_values(|x: Features| &x.deld.t),
            i,
        ),
        ProbTable::col_sum(fs1.map_values(|x: Features| &x.insvd.len_t), i)
            == ProbTable::col_sum(fs2.map_values(|x: Features| &x.insvd.len_t), i),
        ProbTable::col_sum(fs1.map_values(|x: Features| &x.insvd.bias_t), i)
            == ProbTable::col_sum(fs2.map_values(|x: Features| &x.insvd.bias_t), i),
        ProbTable::col_sum(fs1.map_values(|x: Features| &x.insvd.markov_t), i)
            == ProbTable::col_sum(fs2.map_values(|x: Features| &x.insvd.markov_t), i),
        ProbTable::col_sum(fs1.map_values(|x: Features| &x.insdj.len_t), i)
            == ProbTable::col_sum(fs2.map_values(|x: Features| &x.insdj.len_t), i),
        ProbTable::col_sum(fs1.map_values(|x: Features| &x.insdj.bias_t), i)
            == ProbTable::col_sum(fs2.map_values(|x: Features| &x.insdj.bias_t), i),
        ProbTable::col_sum(fs1.map_values(|x: Features| &x.insdj.markov_t), i)
            == ProbTable::col_sum(fs2.map_values(|x: Features| &x.insdj.markov_t), i),
        ErrorPoisson::rate_sum(fs1.map_values(|x: Features| &x.error)) == ErrorPoisson::rate_sum(
            fs2.map_values(|x: Features| &x.error),
        ),
{
    fs1.to_multiset_ensures();
    fs2.to_multiset_ensures();
    lemma_map_values_multiset(fs1, fs2, |x: Features| &x.v.t);
    lemma_col_sum_permutation(
        fs1.map_values(|x: Features| &x.v.t),
        fs2.map_values(|x: Features| &x.v.t),
        i,
    );
    lemma_map_values_multiset(fs1, fs2, |x: Features| &x.dj.t);
    lemma_col_sum_permutation(
        fs1.map_values(|x: Features| &x.dj.t),
        fs2.map_values(|x: Features| &x.dj.t),
        i,
    );
    lemma_map_values_multiset(fs1, fs2, |x: Features| &x.delv.t);
    lemma_col_sum_permutation(
        fs1.map_values(|x: Features| &x.delv.t),
        fs2.map_values(|x: Features| &x.delv.t),
        i,
    );
    lemma_map_values_multiset(fs1, fs2, |x: Features| &x.delj.t);
    lemma_col_sum_permutation(
        fs1.map_values(|x: Features| &x.delj.t),
        fs2.map_values(|x: Features| &x.delj.t),
        i,
    );
    lemma_map_values_multiset(fs1, fs2, |x: Features| &x.deld.t);
    lemma_col_sum_permutation(
        fs1.map_values(|x: Features| &x.deld.t),
        fs2.map_values(|x: Features| &x.deld.t),
        i,
    );
    lemma_map_values_multiset(fs1, fs2, |x: Features| &x.insvd.len_t);
    lemma_col_sum_permutation(
        fs1.map_values(|x: Features| &x.insvd.len_t),
        fs2.map_values(|x: Features| &x.insvd.len_t),
        i,
    );
    lemma_map_values_multiset(fs1, fs2, |x: Features| &x.insvd.bias_t);
    lemma_col_sum_permutation(
        fs1.map_values(|x: Features| &x.insvd.bias_t),
        fs2.map_values(|x: Features| &x.insvd.bias_t),
        i,
    );
    lemma_map_values_multiset(fs1, fs2, |x: Features| &x.insvd.markov_t);
    lemma_col_sum_permutation(
        fs1.map_values(|x: Features| &x.insvd.markov_t),
        fs2.map_values(|x: Features| &x.insvd.markov_t),
        i,
    );
    lemma_map_values_multiset(fs1, fs2, |x: Features| &x.insdj.len_t);
    lemma_col_sum_permutation(
        fs1.map_values(|x: Features| &x.insdj.len_t),
        fs2.map_values(|x: Features| &x.insdj.len_t),
        i,
    );
    lemma_map_values_multiset(fs1, fs2, |x: Features| &x.insdj.bias_t);
    lemma_col_sum_permutation(
        fs1.map_values(|x: Features| &x.insdj.bias_t),
        fs2.map_values(|x: Features| &x.insdj.bias_t),
        i,
    );
    lemma_map_values_multiset(fs1, fs2, |x: Features| &x.insdj.markov_t);
    lemma_col_sum_permutation(
        fs1.map_values(|x: Features| &x.insdj.markov_t),
        fs2.map_values(|x: Features| &x.insdj.markov_t),
        i,
    );
    lemma_map_values_multiset(fs1, fs2, |x: Features| &x.error);
    lemma_rate_sum_permutation(
        fs1.map_values(|x: Features| &x.error),
        fs2.map_values(|x: Features| &x.error),
    );
}

/// Lowering the threshold never loses mass at the innermost level.
proof fn lemma_mono_d3(
    f: Features,
    nt: Seq<u8>,
    v: VJAlignment,
    delv: int,
    j: VJAlignment,
    delj: int,
    d: DAlignment,
    deld5: int,
    min1: int,
    min2: int,
    n3: int,
)
    requires
        f.wf(),
        min2 <= min1,
    ensures
        sum_l(enum_d3(f, nt, v, delv, j, delj, d, deld5, min2, n3)) >= sum_l(
            enum_d3(f, nt, v, delv, j, delj, d, deld5, min1, n3),
        ),
    decreases n3,
{
    if n3 > 0 {
        lemma_mono_d3(f, nt, v, delv, j, delj, d, deld5, min1, min2, n3 - 1);
        lemma_l_parts_bounds(f, nt, v, delv, j, delj, d, deld5, n3 - 1);
        let e = crate::inference::entry_parts(f, nt, v, delv, j, delj, d, deld5, n3 - 1);
        assert(seq![e].drop_last() =~= Seq::<crate::inference::EntryV>::empty());
        assert(seq![e].last() == e);
        assert(sum_l(Seq::<crate::inference::EntryV>::empty()) == 0);
        assert(sum_l(seq![e]) == e.l);
        lemma_sum_l_concat(
            enum_d3(f, nt, v, delv, j, delj, d, deld5, min2, n3 - 1),
            entry_seq_parts(f, nt, v, delv, j, delj, d, deld5, n3 - 1, min2),
        );
        lemma_sum_l_concat(
            enum_d3(f, nt, v, delv, j, delj, d, deld5, min1, n3 - 1),
            entry_seq_parts(f, nt, v, delv, j, delj, d, deld5, n3 - 1, min1),
        );
    }
}

/// Lowering the threshold never loses mass.
proof fn lemma_mono_d5(
    f: Features,
    nt: Seq<u8>,
    v: VJAlignment,
    delv: int,
    j: VJAlignment,
    delj: int,
    d: DAlignment,
    min1: int,
    min2: int,
    n5: int,
)
    requires
        f.wf(),
        min2 <= min1,
    ensures
        sum_l(enum_d5(f, nt, v, delv, j, delj, d, min2, n5)) >= sum_l(
            enum_d5(f, nt, v, delv, j, delj, d, min1, n5),
        ),
    decreases n5,
{
    if n5 > 0 {
        lemma_mono_d5(f, nt, v, delv, j, delj, d, min1, min2, n5 - 1);
        lemma_mono_d3(f, nt, v, delv, j, delj, d, n5 - 1, min1, min2, nd3_dim(f));
        lemma_sum_l_concat(
            enum_d5(f, nt, v, delv, j, delj, d, min2, n5 - 1),
            enum_d3(f, nt, v, delv, j, delj, d, n5 - 1, min2, nd3_dim(f)),
        );
        lemma_sum_l_concat(
            enum_d5(f, nt, v, delv, j, delj, d, min1, n5 - 1),
            enum_d3(f, nt, v, delv, j, delj, d, n5 - 1, min1, nd3_dim(f)),
        );
    }
}

/// Lowering the threshold never loses mass.
proof fn lemma_mono_d(
    f: Features,
    nt: Seq<u8>,
    v: VJAlignment,
    delv: int,
    j: VJAlignment,
    delj: int,
    ds: Seq<DAlignment>,
    min1: int,
    min2: int,
    nd: int,
)
    requires
        f.wf(),
        min2 <= min1,
    ensures
        sum_l(enum_d(f, nt, v, delv, j, delj, ds, min2, nd)) >= sum_l(
            enum_d(f, nt, v, delv, j, delj, ds, min1, nd),
        ),
    decreases nd,
{
    if nd > 0 {
        lemma_mono_d(f, nt, v, delv, j, delj, ds, min1, min2, nd - 1);
        lemma_mono_d5(f, nt, v, delv, j, delj, ds[nd - 1], min1, min2, nd5_dim(f));
        lemma_sum_l_concat(
            enum_d(f, nt, v, delv, j, delj, ds, min2, nd - 1),
            enum_d5(f, nt, v, delv, j, delj, ds[nd - 1], min2, nd5_dim(f)),
        );
        lemma_sum_l_concat(
            enum_d(f, nt, v, delv, j, delj, ds, min1, nd - 1),
            enum_d5(f, nt, v, delv, j, delj, ds[nd - 1], min1, nd5_dim(f)),
        );
    }
}

/// Lowering the threshold never loses mass.
proof fn lemma_mono_dj(
    f: Features,
    nt: Seq<u8>,
    v: VJAlignment,
    delv: int,
    j: VJAlignment,
    ds: Seq<DAlignment>,
    min1: int,
    min2: int,
    ndj: int,
)
    requires
        f.wf(),
        min2 <= min1,
    ensures
        sum_l(enum_dj(f, nt, v, delv, j, ds, min2, ndj)) >= sum_l(
            enum_dj(f, nt, v, delv, j, ds, min1, ndj),
        ),
    decreases ndj,
{
    if ndj > 0 {
        lemma_mono_dj(f, nt, v, delv, j, ds, min1, min2, ndj - 1);
        lemma_mono_d(f, nt, v, delv, j, ndj - 1, ds, min1, min2, ds.len() as int);
        lemma_sum_l_concat(
            enum_dj(f, nt, v, delv, j, ds, min2, ndj - 1),
            enum_d(f, nt, v, delv, j, ndj - 1, ds, min2, ds.len() as int),
        );
        lemma_sum_l_concat(
            enum_dj(f, nt, v, delv, j, ds, min1, ndj - 1),
            enum_d(f, nt, v, delv, j, ndj - 1, ds, min1, ds.len() as int),
        );
    }
}

/// Lowering the threshold never loses mass.
proof fn lemma_mono_j(
    f: Features,
    nt: Seq<u8>,
    v: VJAlignment,
    delv: int,
    js: Seq<VJAlignment>,
    ds: Seq<DAlignment>,
    min1: int,
    min2: int,
    nj: int,
)
    requires
        f.wf(),
        min2 <= min1,
    ensures
        sum_l(enum_j(f, nt, v, delv, js, ds, min2, nj)) >= sum_l(
            enum_j(f, nt, v, delv, js, ds, min1, nj),
        ),
    decreases nj,
{
    if nj > 0 {
        lemma_mono_j(f, nt, v, delv, js, ds, min1, min2, nj - 1);
        lemma_mono_dj(f, nt, v, delv, js[nj - 1], ds, min1, min2, ndj_dim(f));
        lemma_sum_l_concat(
            enum_j(f, nt, v, delv, js, ds, min2, nj - 1),
            enum_dj(f, nt, v, delv, js[nj - 1], ds, min2, ndj_dim(f)),
        );
        lemma_sum_l_concat(
            enum_j(f, nt, v, delv, js, ds, min1, nj - 1),
            enum_dj(f, nt, v, delv, js[nj - 1], ds, min1, ndj_dim(f)),
        );
    }
}

/// Lowering the threshold never loses mass.
proof fn lemma_mono_delv(
    f: Features,
    nt: Seq<u8>,
    v: VJAlignment,
    js: Seq<VJAlignment>,
    ds: Seq<DAlignment>,
    min1: int,
    min2: int,
    ndv: int,
)
    requires
        f.wf(),
        min2 <= min1,
    ensures
        sum_l(enum_delv(f, nt, v, js, ds, min2, ndv)) >= sum_l(
            enum_delv(f, nt, v, js, ds, min1, ndv),
        ),
    decreases ndv,
{
    if ndv > 0 {
        lemma_mono_delv(f, nt, v, js, ds, min1, min2, ndv - 1);
        lemma_mono_j(f, nt, v, ndv - 1, js, ds, min1, min2, js.len() as int);
        lemma_sum_l_concat(
            enum_delv(f, nt, v, js, ds, min2, ndv - 1),
            enum_j(f, nt, v, ndv - 1, js, ds, min2, js.len() as int),
        );
        lemma_sum_l_concat(
            enum_delv(f, nt, v, js, ds, min1, ndv - 1),
            enum_j(f, nt, v, ndv - 1, js, ds, min1, js.len() as int),
        );
    }
}

/// Lowering the threshold never loses mass across the V candidates.
proof fn lemma_mono_v(
    f: Features,
    nt: Seq<u8>,
    vs: Seq<VJAlignment>,
    js: Seq<VJAlignment>,
    ds: Seq<DAlignment>,
    min1: int,
    min2: int,
    nv: int,
)
    requires
        f.wf(),
        min2 <= min1,
    ensures
        sum_l(enum_v(f, nt, vs, js, ds, min2, nv)) >= sum_l(enum_v(f, nt, vs, js, ds, min1, nv)),
    decreases nv,
{
    if nv > 0 {
        lemma_mono_v(f, nt, vs, js, ds, min1, min2, nv - 1);
        lemma_mono_delv(f, nt, vs[nv - 1], js, ds, min1, min2, ndv_dim(f));
        lemma_sum_l_concat(
            enum_v(f, nt, vs, js, ds, min2, nv - 1),
            enum_delv(f, nt, vs[nv - 1], js, ds, min2, ndv_dim(f)),
        );
        lemma_sum_l_concat(
            enum_v(f, nt, vs, js, ds, min1, nv - 1),
            enum_delv(f, nt, vs[nv - 1], js, ds, min1, ndv_dim(f)),
        );
    }
}

/// Pruning is monotone: lowering the threshold (in particular, all the
/// way to zero) never decreases a read's generation probability, because
/// pruning only removes event mass that falls below the threshold.
pub proof fn lemma_gen_prob_monotone(f: Features, s: Sequence, min1: int, min2: int)
    requires
        f.wf(),
        min2 <= min1,
    ensures
        gen_prob_spec(f, s, min2) >= gen_prob_spec(f, s, min1),
{
    lemma_mono_v(
        f,
        s.seq@,
        s.v_genes@,
        s.j_genes@,
        s.d_genes@,
        min1,
        min2,
        s.v_genes@.len() as int,
    );
}

/// A prefix of a concatenated D-candidate list enumerates as the first
/// list alone.
proof fn lemma_enum_d_prefix(
    f: Features,
    nt: Seq<u8>,
    v: VJAlignment,
    delv: int,
    j: VJAlignment,
    delj: int,
    ds1: Seq<DAlignment>,
    ds2: Seq<DAlignment>,
    min_l: int,
    k: int,
)
    requires
        0 <= k <= ds1.len(),
    ensures
        enum_d(f, nt, v, delv, j, delj, ds1 + ds2, min_l, k) == enum_d(
            f,
            nt,
            v,
            delv,
            j,
            delj,
            ds1,
            min_l,
            k,
        ),
    decreases k,
{
    if k > 0 {
        lemma_enum_d_prefix(f, nt, v, delv, j, delj, ds1, ds2, min_l, k - 1);
        assert((ds1 + ds2)[k - 1] == ds1[k - 1]);
    }
}

/// The D level is additive over a concatenated candidate list.
proof fn lemma_split_d(
    f: Features,
    nt: Seq<u8>,
    v: VJAlignment,
    delv: int,
    j: VJAlignment,
    delj: int,
    ds1: Seq<DAlignment>,
    ds2: Seq<DAlignment>,
    min_l: int,
    k: int,
)
    requires
        0 <= k <= ds2.len(),
    ensures
        sum_l(enum_d(f, nt, v, delv, j, delj, ds1 + ds2, min_l, ds1.len() + k)) == sum_l(
            enum_d(f, nt, v, delv, j, delj, ds1, min_l, ds1.len() as int),
        ) + sum_l(enum_d(f, nt, v, delv, j, delj, ds2, min_l, k)),
    decreases k,
{
    if k == 0 {
        lemma_enum_d_prefix(f, nt, v, delv, j, delj, ds1, ds2, min_l, ds1.len() as int);
    } else {
        lemma_split_d(f, nt, v, delv, j, delj, ds1, ds2, min_l, k - 1);
        assert((ds1 + ds2)[ds1.len() + k - 1] == ds2[k - 1]);
        lemma_sum_l_concat(
            enum_d(f, nt, v, delv, j, delj, ds1 + ds2, min_l, ds1.len() + k - 1),
            enum_d5(f, nt, v, delv, j, delj, (ds1 + ds2)[ds1.len() + k - 1], min_l, nd5_dim(f)),
        );
        lemma_sum_l_concat(
            enum_d(f, nt, v, delv, j, delj, ds2, min_l, k - 1),
            enum_d5(f, nt, v, delv, j, delj, ds2[k - 1], min_l, nd5_dim(f)),
        );
    }
}

/// The J-deletion level is additive over a concatenated candidate list.
proof fn lemma_split_dj(
    f: Features,
    nt: Seq<u8>,
    v: VJAlignment,
    delv: int,
    j: VJAlignment,
    ds1: Seq<DAlignment>,
    ds2: Seq<DAlignment>,
    min_l: int,
    ndj: int,
)
    requires
        ndj >= 0,
    ensures
        sum_l(enum_dj(f, nt, v, delv, j, ds1 + ds2, min_l, ndj)) == sum_l(
            enum_dj(f, nt, v, delv, j, ds1, min_l, ndj),
        ) + sum_l(enum_dj(f, nt, v, delv, j, ds2, min_l, ndj)),
    decreases ndj,
{
    if ndj > 0 {
        lemma_split_dj(f, nt, v, delv, j, ds1, ds2, min_l, ndj - 1);
        lemma_split_d(f, nt, v, delv, j, ndj - 1, ds1, ds2, min_l, ds2.len() as int);
        lemma_sum_l_concat(
            enum_dj(f, nt, v, delv, j, ds1 + ds2, min_l, ndj - 1),
            enum_d(f, nt, v, delv, j, ndj - 1, ds1 + ds2, min_l, (ds1 + ds2).len() as int),
        );
        lemma_sum_l_concat(
            enum_dj(f, nt, v, delv, j, ds1, min_l, ndj - 1),
            enum_d(f, nt, v, delv, j, ndj - 1, ds1, min_l, ds1.len() as int),
        );
        lemma_sum_l_concat(
            enum_dj(f, nt, v, delv, j, ds2, min_l, ndj - 1),
            enum_d(f, nt, v, delv, j, ndj - 1, ds2, min_l, ds2.len() as int),
        );
        assert((ds1 + ds2).len() == ds1.len() + ds2.len());
    }
}

/// The J level is additive over a concatenated candidate list.
proof fn lemma_split_j(
    f: Features,
    nt: Seq<u8>,
    v: VJAlignment,
    delv: int,
    js: Seq<VJAlignment>,
    ds1: Seq<DAlignment>,
    ds2: Seq<DAlignment>,
    min_l: int,
    nj: int,
)
    requires
        nj >= 0,
    ensures
        sum_l(enum_j(f, nt, v, delv, js, ds1 + ds2, min_l, nj)) == sum_l(
            enum_j(f, nt, v, delv, js, ds1, min_l, nj),
        ) + sum_l(enum_j(f, nt, v, delv, js, ds2, min_l, nj)),
    decreases nj,
{
    if nj > 0 {
        lemma_split_j(f, nt, v, delv, js, ds1, ds2, min_l, nj - 1);
        lemma_split_dj(f, nt, v, delv, js[nj - 1], ds1, ds2, min_l, ndj_dim(f));
        lemma_sum_l_concat(
            enum_j(f, nt, v, delv, js, ds1 + ds2, min_l, nj - 1),
            enum_dj(f, nt, v, delv, js[nj - 1], ds1 + ds2, min_l, ndj_dim(f)),
        );
        lemma_sum_l_concat(
            enum_j(f, nt, v, delv, js, ds1, min_l, nj - 1),
            enum_dj(f, nt, v, delv, js[nj - 1], ds1, min_l, ndj_dim(f)),
        );
        lemma_sum_l_concat(
            enum_j(f, nt, v, delv, js, ds2, min_l, nj - 1),
            enum_dj(f, nt, v, delv, js[nj - 1], ds2, min_l, ndj_dim(f)),
        );
    }
}

/// The V-deletion level is additive over a concatenated candidate list.
proof fn lemma_split_delv(
    f: Features,
    nt: Seq<u8>,
    v: VJAlignment,
    js: Seq<VJAlignment>,
    ds1: Seq<DAlignment>,
    ds2: Seq<DAlignment>,
    min_l: int,
    ndv: int,
)
    requires
        ndv >= 0,
    ensures
        sum_l(enum_delv(f, nt, v, js, ds1 + ds2, min_l, ndv)) == sum_l(
            enum_delv(f, nt, v, js, ds1, min_l, ndv),
        ) + sum_l(enum_delv(f, nt, v, js, ds2, min_l, ndv)),
    decreases ndv,
{
    if ndv > 0 {
        lemma_split_delv(f, nt, v, js, ds1, ds2, min_l, ndv - 1);
        lemma_split_j(f, nt, v, ndv - 1, js, ds1, ds2, min_l, js.len() as int);
        lemma_sum_l_concat(
            enum_delv(f, nt, v, js, ds1 + ds2, min_l, ndv - 1),
            enum_j(f, nt, v, ndv - 1, js, ds1 + ds2, min_l, js.len() as int),
        );
        lemma_sum_l_concat(
            enum_delv(f, nt, v, js, ds1, min_l, ndv - 1),
            enum_j(f, nt, v, ndv - 1, js, ds1, min_l, js.len() as int),
        );
        lemma_sum_l_concat(
            enum_delv(f, nt, v, js, ds2, min_l, ndv - 1),
            enum_j(f, nt, v, ndv - 1, js, ds2, min_l, js.len() as int),
        );
    }
}

/// The V level is additive over a concatenated candidate list.
proof fn lemma_split_v(
    f: Features,
    nt: Seq<u8>,
    vs: Seq<VJAlignment>,
    js: Seq<VJAlignment>,
    ds1: Seq<DAlignment>,
    ds2: Seq<DAlignment>,
    min_l: int,
    nv: int,
)
    requires
        nv >= 0,
    ensures
        sum_l(enum_v(f, nt, vs, js, ds1 + ds2, min_l, nv)) == sum_l(
            enum_v(f, nt, vs, js, ds1, min_l, nv),
        ) + sum_l(enum_v(f, nt, vs, js, ds2, min_l, nv)),
    decreases nv,
{
    if nv > 0 {
        lemma_split_v(f, nt, vs, js, ds1, ds2, min_l, nv - 1);
        lemma_split_delv(f, nt, vs[nv - 1], js, ds1, ds2, min_l, ndv_dim(f));
        lemma_sum_l_concat(
            enum_v(f, nt, vs, js, ds1 + ds2, min_l, nv - 1),
            enum_delv(f, nt, vs[nv - 1], js, ds1 + ds2, min_l, ndv_dim(f)),
        );
        lemma_sum_l_concat(
            enum_v(f, nt, vs, js, ds1, min_l, nv - 1),
            enum_delv(f, nt, vs[nv - 1], js, ds1, min_l, ndv_dim(f)),
        );
        lemma_sum_l_concat(
            enum_v(f, nt, vs, js, ds2, min_l, nv - 1),
            enum_delv(f, nt, vs[nv - 1], js, ds2, min_l, ndv_dim(f)),
        );
    }
}

/// The generation probability is additive over the candidate D list: a
/// read whose D candidates are the concatenation of two lists has
/// exactly the sum of the two reads' generation probabilities. In
/// particular, duplicating one D candidate adds exactly that
/// candidate's own contribution and changes no other event's
/// contribution; the engine does not deduplicate.
pub proof fn lemma_gen_prob_d_split(
    f: Features,
    s1: Sequence,
    s2: Sequence,
    s12: Sequence,
    min_l: int,
)
    requires
        f.wf(),
        s12.seq@ == s1.seq@,
        s2.seq@ == s1.seq@,
        s12.v_genes@ == s1.v_genes@,
        s2.v_genes@ == s1.v_genes@,
        s12.j_genes@ == s1.j_genes@,
        s2.j_genes@ == s1.j_genes@,
        s12.d_genes@ == s1.d_genes@ + s2.d_genes@,
    ensures
        gen_prob_spec(f, s12, min_l) == gen_prob_spec(f, s1, min_l) + gen_prob_spec(
            f,
            s2,
            min_l,
        ),
{
    lemma_split_v(
        f,
        s1.seq@,
        s1.v_genes@,
        s1.j_genes@,
        s1.d_genes@,
        s2.d_genes@,
        min_l,
        s1.v_genes@.len() as int,
    );
}

} // verus!
