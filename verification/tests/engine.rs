use ihor::error::{ModelError, SubModel};
use ihor::inference::{Features, Model};
use ihor::prob::SCALE;
use ihor::sequence::{DAlignment, InferenceParameters, Sequence, VJAlignment};

/// One V, one D, one J segment; a single deletion choice everywhere;
/// insertion lengths 0..=2 with probabilities 0.2/0.3/0.5; uniform
/// first-base bias and transitions; zero error rate.
fn simple_model() -> Model {
    let q = SCALE / 4;
    Model {
        p_v: vec![SCALE],
        p_del_v_given_v: vec![SCALE],
        n_del_v: 1,
        p_dj: vec![SCALE],
        n_d: 1,
        n_j: 1,
        p_del_j_given_j: vec![SCALE],
        n_del_j: 1,
        p_del_d3_del_d5: vec![SCALE],
        n_del_d3: 1,
        n_del_d5: 1,
        p_ins_vd: vec![SCALE / 5, 3 * (SCALE / 10), SCALE / 2],
        p_ins_dj: vec![SCALE / 5, 3 * (SCALE / 10), SCALE / 2],
        first_nt_bias_ins_vd: vec![q, q, q, q],
        first_nt_bias_ins_dj: vec![q, q, q, q],
        markov_coefficients_vd: vec![q; 16],
        markov_coefficients_dj: vec![q; 16],
        error_rate: 0,
    }
}

fn params() -> InferenceParameters {
    InferenceParameters { min_likelihood: 0, min_likelihood_error: 0 }
}

/// Read layout: V on [0,4), VD insertion [4,6), D on [6,9), DJ insertion
/// [9,11), J on [11,14).
fn simple_sequence() -> Sequence {
    let seq: Vec<u8> = vec![0, 1, 2, 3, 1, 2, 0, 1, 2, 3, 0, 1, 2, 3];
    let v = VJAlignment { index: 0, start_seq: 0, end_seq: 4, errors: vec![0] };
    let j = VJAlignment { index: 0, start_seq: 11, end_seq: 14, errors: vec![0] };
    let d = DAlignment { index: 0, pos: 6, dlen: 3, errors: vec![vec![0]] };
    Sequence::new(seq, vec![v], vec![d], vec![j]).unwrap()
}

// Hand computation, in fixed-point units of 1e-9:
// likelihood_v = 1 * 1 * 1 = SCALE.
// likelihood_dj = 1 * 1 * 1 * 0.5 * 0.5 * 1 * 1 = 0.25.
// each insertion sequence = 0.5 * 0.25 * 0.25 = 0.03125.
// total = 0.25 * 0.03125 * 0.03125 = 244140.625e-9, floored to 244140.
const EXPECTED_TOTAL: u64 = 244140;

#[test]
fn single_event_scenario() {
    let model = simple_model();
    let ip = params();
    let mut f = Features::new(&model, &ip).unwrap();
    let s = simple_sequence();
    let (prob, best) = f.infer(&s, &ip, 5);
    assert_eq!(prob, EXPECTED_TOTAL);
    assert_eq!(best.len(), 1);
    assert_eq!(best[0].0, EXPECTED_TOTAL);
    let ev = &best[0].1;
    assert_eq!(ev.v_index, 0);
    assert_eq!(ev.d_index, 0);
    assert_eq!(ev.j_index, 0);
    assert_eq!(ev.delv, 0);
    assert_eq!(ev.delj, 0);
    assert_eq!(ev.deld5, 0);
    assert_eq!(ev.deld3, 0);
    assert_eq!(ev.insvd, vec![1, 2]);
    assert_eq!(ev.insdj, vec![3, 0]);
}

#[test]
fn no_ranking_leaves_probability_unchanged() {
    let model = simple_model();
    let ip = params();
    let mut f1 = Features::new(&model, &ip).unwrap();
    let mut f2 = Features::new(&model, &ip).unwrap();
    let s = simple_sequence();
    let (p1, best1) = f1.infer(&s, &ip, 5);
    let (p2, best2) = f2.infer(&s, &ip, 0);
    assert_eq!(p1, p2);
    assert_eq!(best1.len(), 1);
    assert!(best2.is_empty());
}

#[test]
fn duplicate_d_candidate_adds_its_own_contribution() {
    let model = simple_model();
    let ip = params();
    let mut f = Features::new(&model, &ip).unwrap();
    let seq: Vec<u8> = vec![0, 1, 2, 3, 1, 2, 0, 1, 2, 3, 0, 1, 2, 3];
    let v = VJAlignment { index: 0, start_seq: 0, end_seq: 4, errors: vec![0] };
    let j = VJAlignment { index: 0, start_seq: 11, end_seq: 14, errors: vec![0] };
    let d1 = DAlignment { index: 0, pos: 6, dlen: 3, errors: vec![vec![0]] };
    let d2 = DAlignment { index: 0, pos: 6, dlen: 3, errors: vec![vec![0]] };
    let s = Sequence::new(seq, vec![v], vec![d1, d2], vec![j]).unwrap();
    let (prob, best) = f.infer(&s, &ip, 5);
    assert_eq!(prob, 2 * EXPECTED_TOTAL);
    assert_eq!(best.len(), 2);
    assert_eq!(best[0].0, EXPECTED_TOTAL);
    assert_eq!(best[1].0, EXPECTED_TOTAL);
}

#[test]
fn geometric_infeasibility_contributes_nothing() {
    let model = simple_model();
    let ip = params();
    let mut f = Features::new(&model, &ip).unwrap();
    let seq: Vec<u8> = vec![0, 1, 2, 3, 1, 2, 0, 1, 2, 3, 0, 1, 2, 3];
    let v = VJAlignment { index: 0, start_seq: 0, end_seq: 4, errors: vec![0] };
    let j = VJAlignment { index: 0, start_seq: 11, end_seq: 14, errors: vec![0] };
    // The D window starts inside the kept V part.
    let d = DAlignment { index: 0, pos: 2, dlen: 1, errors: vec![vec![0]] };
    let s = Sequence::new(seq, vec![v], vec![d], vec![j]).unwrap();
    let (prob, best) = f.infer(&s, &ip, 5);
    assert_eq!(prob, 0);
    assert!(best.is_empty());
}

#[test]
fn raising_the_threshold_never_raises_probability() {
    let model = simple_model();
    let ip0 = params();
    let ip_high = InferenceParameters { min_likelihood: 300_000, min_likelihood_error: 0 };
    let mut f1 = Features::new(&model, &ip0).unwrap();
    let mut f2 = Features::new(&model, &ip0).unwrap();
    let s = simple_sequence();
    let (p_low, _) = f1.infer(&s, &ip0, 0);
    let (p_high, _) = f2.infer(&s, &ip_high, 0);
    assert!(p_high <= p_low);
    assert_eq!(p_low, EXPECTED_TOTAL);
    assert_eq!(p_high, 0);
}

#[test]
fn sorted_descending_with_capacity() {
    let model = simple_model();
    let ip = params();
    let mut f = Features::new(&model, &ip).unwrap();
    let seq: Vec<u8> = vec![0, 1, 2, 3, 1, 2, 0, 1, 2, 3, 0, 1, 2, 3];
    let v = VJAlignment { index: 0, start_seq: 0, end_seq: 4, errors: vec![0] };
    let j = VJAlignment { index: 0, start_seq: 11, end_seq: 14, errors: vec![0] };
    // Two D candidates at different positions give two distinct
    // surviving likelihoods.
    let d1 = DAlignment { index: 0, pos: 6, dlen: 3, errors: vec![vec![0]] };
    let d2 = DAlignment { index: 0, pos: 6, dlen: 4, errors: vec![vec![0]] };
    let s = Sequence::new(seq, vec![v], vec![d1, d2], vec![j]).unwrap();
    let (_, best) = f.infer(&s, &ip, 10);
    assert!(best.len() >= 2);
    for w in best.windows(2) {
        assert!(w[0].0 >= w[1].0);
    }
    let mut f2 = Features::new(&model, &ip).unwrap();
    let (_, best_one) = f2.infer(&s, &ip, 1);
    assert_eq!(best_one.len(), 1);
    assert_eq!(best_one[0].0, best[0].0);
}

#[test]
fn cleanup_renormalizes_accumulators() {
    let model = simple_model();
    let ip = params();
    let mut f = Features::new(&model, &ip).unwrap();
    let s = simple_sequence();
    let (_, _) = f.infer(&s, &ip, 0);
    let clean = f.cleanup().unwrap();
    // All mass sat on the single surviving event.
    assert_eq!(clean.v.t.probs, vec![SCALE]);
    assert_eq!(clean.dj.t.probs, vec![SCALE]);
    // Both insertions had length 2.
    assert_eq!(clean.insvd.len_t.probs, vec![0, 0, SCALE]);
    assert_eq!(clean.insdj.len_t.probs, vec![0, 0, SCALE]);
    // The VD insertion starts with symbol 1 and steps 1 -> 2; slices
    // with no mass are all zeros.
    assert_eq!(clean.insvd.bias_t.probs, vec![0, SCALE, 0, 0]);
    assert_eq!(clean.insvd.markov_t.probs[6], SCALE);
    assert_eq!(clean.insvd.markov_t.probs[0], 0);
    // No mismatches were observed, so the refreshed rate is zero.
    assert_eq!(clean.error.rate, 0);
}

#[test]
fn cleanup_twice_gives_the_same_output() {
    let model = simple_model();
    let ip = params();
    let mut f = Features::new(&model, &ip).unwrap();
    let s = simple_sequence();
    let (_, _) = f.infer(&s, &ip, 0);
    let c1 = f.cleanup().unwrap();
    let c2 = f.cleanup().unwrap();
    assert_eq!(c1.v.t.probs, c2.v.t.probs);
    assert_eq!(c1.dj.t.probs, c2.dj.t.probs);
    assert_eq!(c1.delv.t.probs, c2.delv.t.probs);
    assert_eq!(c1.delj.t.probs, c2.delj.t.probs);
    assert_eq!(c1.deld.t.probs, c2.deld.t.probs);
    assert_eq!(c1.insvd.len_t.probs, c2.insvd.len_t.probs);
    assert_eq!(c1.insvd.bias_t.probs, c2.insvd.bias_t.probs);
    assert_eq!(c1.insvd.markov_t.probs, c2.insvd.markov_t.probs);
    assert_eq!(c1.error.rate, c2.error.rate);
}

#[test]
fn average_of_two_identical_feature_sets_is_identity() {
    let model = simple_model();
    let ip = params();
    let f1 = Features::new(&model, &ip).unwrap();
    let f2 = Features::new(&model, &ip).unwrap();
    let avg = Features::average(vec![f1, f2]).unwrap();
    let reference = Features::new(&model, &ip).unwrap();
    assert_eq!(avg.v.t.probs, reference.v.t.probs);
    assert_eq!(avg.dj.t.probs, reference.dj.t.probs);
    assert_eq!(avg.delv.t.probs, reference.delv.t.probs);
    assert_eq!(avg.delj.t.probs, reference.delj.t.probs);
    assert_eq!(avg.deld.t.probs, reference.deld.t.probs);
    assert_eq!(avg.insvd.len_t.probs, reference.insvd.len_t.probs);
    assert_eq!(avg.insvd.bias_t.probs, reference.insvd.bias_t.probs);
    assert_eq!(avg.insvd.markov_t.probs, reference.insvd.markov_t.probs);
    assert_eq!(avg.insdj.len_t.probs, reference.insdj.len_t.probs);
    assert_eq!(avg.error.rate, reference.error.rate);
}

#[test]
fn average_is_symmetric_in_its_inputs() {
    let ip = params();
    let mut other = simple_model();
    other.p_ins_vd = vec![SCALE / 2, 3 * (SCALE / 10), SCALE / 5];
    other.error_rate = SCALE / 10;
    let a1 = Features::average(vec![
        Features::new(&simple_model(), &ip).unwrap(),
        Features::new(&other, &ip).unwrap(),
    ])
    .unwrap();
    let a2 = Features::average(vec![
        Features::new(&other, &ip).unwrap(),
        Features::new(&simple_model(), &ip).unwrap(),
    ])
    .unwrap();
    assert_eq!(a1.v.t.probs, a2.v.t.probs);
    assert_eq!(a1.insvd.len_t.probs, a2.insvd.len_t.probs);
    assert_eq!(a1.insdj.len_t.probs, a2.insdj.len_t.probs);
    assert_eq!(a1.error.rate, a2.error.rate);
}

#[test]
fn average_of_empty_collection_is_rejected() {
    let r = Features::average(vec![]);
    assert_eq!(r.err(), Some(ModelError::EmptyInput));
}

#[test]
fn average_of_mismatched_shapes_is_rejected() {
    let ip = params();
    let f1 = Features::new(&simple_model(), &ip).unwrap();
    let mut other = simple_model();
    other.p_ins_vd = vec![SCALE / 2, SCALE / 2];
    let f2 = Features::new(&other, &ip).unwrap();
    let r = Features::average(vec![f1, f2]);
    assert!(matches!(r, Err(ModelError::ShapeMismatch(_))));
}

#[test]
fn malformed_models_are_rejected() {
    let ip = params();
    let mut bad = simple_model();
    bad.p_v = vec![SCALE / 2];
    assert_eq!(Features::new(&bad, &ip).err(), Some(ModelError::BadGroupSum(SubModel::VGene)));

    let mut bad2 = simple_model();
    bad2.p_dj = vec![SCALE + 1];
    assert_eq!(
        Features::new(&bad2, &ip).err(),
        Some(ModelError::ValueTooLarge(SubModel::DJoint))
    );

    let mut bad3 = simple_model();
    bad3.first_nt_bias_ins_vd = vec![SCALE];
    assert_eq!(Features::new(&bad3, &ip).err(), Some(ModelError::BadShape(SubModel::InsVD)));

    let mut bad4 = simple_model();
    bad4.error_rate = SCALE + 1;
    assert_eq!(
        Features::new(&bad4, &ip).err(),
        Some(ModelError::ValueTooLarge(SubModel::ErrorRate))
    );

    let mut bad5 = simple_model();
    bad5.n_del_v = 2;
    assert!(Features::new(&bad5, &ip).is_err());
}
