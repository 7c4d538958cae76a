use ihor::error::{ModelError, SubModel};
use ihor::feature::{
    CategoricalFeature1, CategoricalFeature1g1, CategoricalFeature2, ErrorPoisson,
    InsertionFeature,
};
use ihor::prob::SCALE;
use ihor::table::ProbTable;

#[test]
fn table_rejects_bad_slice_sums() {
    let r = ProbTable::new(vec![SCALE / 2, SCALE / 2 + 1], 1, SubModel::VGene);
    assert_eq!(r.err(), Some(ModelError::BadGroupSum(SubModel::VGene)));
    assert!(ProbTable::new(vec![SCALE / 2, SCALE / 2], 1, SubModel::VGene).is_ok());
    assert_eq!(
        ProbTable::new(vec![], 1, SubModel::VGene).err(),
        Some(ModelError::BadShape(SubModel::VGene))
    );
}

#[test]
fn categorical_lookup_is_zero_out_of_range() {
    let f = CategoricalFeature1::new(vec![SCALE / 2, SCALE / 2], SubModel::VGene).unwrap();
    assert_eq!(f.likelihood(0), SCALE / 2);
    assert_eq!(f.likelihood(1), SCALE / 2);
    assert_eq!(f.likelihood(2), 0);
}

#[test]
fn conditioned_lookup_selects_its_slice() {
    // Two conditioning values, two conditioned values each.
    let probs = vec![SCALE, 0, SCALE / 4, 3 * (SCALE / 4)];
    let f = CategoricalFeature1g1::new(probs, 2, SubModel::DelV).unwrap();
    assert_eq!(f.likelihood((0, 0)), SCALE);
    assert_eq!(f.likelihood((1, 0)), 0);
    assert_eq!(f.likelihood((0, 1)), SCALE / 4);
    assert_eq!(f.likelihood((1, 1)), 3 * (SCALE / 4));
    assert_eq!(f.likelihood((2, 0)), 0);
    assert_eq!(f.likelihood((0, 2)), 0);
}

#[test]
fn joint_lookup_uses_row_major_cells() {
    let probs = vec![SCALE / 4, SCALE / 4, SCALE / 4, SCALE / 4];
    let f = CategoricalFeature2::new(probs, 2, 2, SubModel::DJoint).unwrap();
    assert_eq!(f.likelihood((1, 0)), SCALE / 4);
    assert_eq!(f.likelihood((2, 0)), 0);
}

#[test]
fn dirty_update_and_cleanup_on_one_table() {
    let mut f = CategoricalFeature1::new(vec![SCALE / 2, SCALE / 2], SubModel::VGene).unwrap();
    f.dirty_update(0, 300);
    f.dirty_update(1, 100);
    f.dirty_update(7, 999);
    let c = f.cleanup().unwrap();
    assert_eq!(c.t.probs, vec![3 * (SCALE / 4), SCALE / 4]);
    // The source accumulator is untouched by cleanup.
    let c2 = f.cleanup().unwrap();
    assert_eq!(c2.t.probs, vec![3 * (SCALE / 4), SCALE / 4]);
}

#[test]
fn cleanup_leaves_zero_mass_slices_at_zero() {
    let probs = vec![SCALE, 0, SCALE / 4, 3 * (SCALE / 4)];
    let mut f = CategoricalFeature1g1::new(probs, 2, SubModel::DelV).unwrap();
    f.dirty_update((0, 1), 10);
    let c = f.cleanup().unwrap();
    assert_eq!(c.t.probs, vec![0, 0, SCALE, 0]);
}

#[test]
fn insertion_sequence_likelihood_composes_its_factors() {
    let f = InsertionFeature::new(
        vec![SCALE / 2, SCALE / 4, SCALE / 4],
        vec![SCALE, 0, 0, 0],
        vec![
            0, SCALE, 0, 0, 0, 0, SCALE, 0, 0, 0, 0, SCALE, SCALE, 0, 0, 0,
        ],
        SubModel::InsVD,
    )
    .unwrap();
    assert_eq!(f.likelihood_length(0), SCALE / 2);
    assert_eq!(f.likelihood_length(1), SCALE / 4);
    assert_eq!(f.likelihood_length(7), 0);
    // Empty insertion: the length probability alone.
    assert_eq!(f.likelihood_sequence(&vec![]), SCALE / 2);
    // One base: length times first-base bias.
    assert_eq!(f.likelihood_sequence(&vec![0]), SCALE / 4);
    assert_eq!(f.likelihood_sequence(&vec![1]), 0);
    // Two bases: length, bias, then one certain transition factor.
    assert_eq!(f.likelihood_sequence(&vec![0, 1]), SCALE / 4);
    assert_eq!(f.likelihood_sequence(&vec![0, 2]), 0);
}

#[test]
fn insertion_dirty_update_counts_transitions() {
    let q = SCALE / 4;
    let mut f = InsertionFeature::new(
        vec![SCALE / 2, SCALE / 2, 0, 0],
        vec![q, q, q, q],
        vec![q; 16],
        SubModel::InsVD,
    )
    .unwrap();
    f.dirty_update(&vec![0, 1, 1], 50);
    let c = f.cleanup().unwrap();
    assert_eq!(c.len_t.probs, vec![0, 0, 0, SCALE]);
    assert_eq!(c.bias_t.probs, vec![SCALE, 0, 0, 0]);
    // One step 0 -> 1 and one step 1 -> 1.
    assert_eq!(c.markov_t.probs[1], SCALE);
    assert_eq!(c.markov_t.probs[5], SCALE);
}

#[test]
fn poisson_error_model_floors_and_peaks() {
    let e = ErrorPoisson::new(0, 12345).unwrap();
    // With a zero rate, zero errors are certain.
    assert_eq!(e.likelihood(0), SCALE);
    // Any positive count falls to the configured floor.
    assert_eq!(e.likelihood(1), 12345);
    assert_eq!(e.likelihood(40), 12345);
    assert_eq!(ErrorPoisson::new(SCALE + 1, 0).err(),
        Some(ModelError::ValueTooLarge(SubModel::ErrorRate)));
}

#[test]
fn poisson_error_accumulators_drive_the_new_rate() {
    let mut e = ErrorPoisson::new(0, 0).unwrap();
    e.dirty_update(2, 100);
    e.dirty_update(0, 300);
    // 200 weighted errors over 400 total weight: rate one half.
    let c = e.cleanup().unwrap();
    assert_eq!(c.rate, SCALE / 2);
    assert_eq!(c.floor, 0);
}

#[test]
fn cleanup_rejects_a_rate_beyond_one_unit() {
    let mut e = ErrorPoisson::new(0, 0).unwrap();
    // 200 weighted errors over 100 total weight: the ratio is two units,
    // more than this representation holds, so cleanup fails fast.
    e.dirty_update(2, 100);
    let r = e.cleanup();
    assert_eq!(r.err(), Some(ModelError::ValueTooLarge(SubModel::ErrorRate)));
}
