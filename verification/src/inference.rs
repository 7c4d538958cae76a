//! The feature set and its per-sequence inference engine.
//!
//! `Features` owns one instance of every sub-model. `infer` enumerates
//! all candidate recombination events of a read, computes each event's
//! likelihood with a three-stage pruning ladder, sums the survivors into
//! the read's generation probability, keeps the top ranked events, and
//! accumulates every survivor's weighted statistics into the sub-models.
//! `cleanup` and `average` are the training-step transforms.

use vstd::prelude::*;
use crate::error::{ModelError, SubModel};
use crate::feature::{
    dirty_after, pcount, CategoricalFeature1, CategoricalFeature1g1, CategoricalFeature2,
    CategoricalFeature2g1, ErrorPoisson, InsertionFeature,
};
use crate::prob::{pmul, pmul_spec, SCALE};
use crate::sequence::{
    d_end_spec, d_start_spec, extract_spec, j_start_spec, v_end_spec, DAlignment, Event,
    InferenceParameters, Sequence, StaticEvent, StaticEventV, VJAlignment,
};
use crate::table::{CELLS_MAX, ProbTable};

verus! {

/// Model parameters from which a feature set is built: one probability
/// table per sub-model (fixed-point, each conditioning slice summing to
/// one probability unit) together with the table shapes.
pub struct Model {
    /// V-segment choice distribution.
    pub p_v: Vec<u64>,
    /// V-deletion distribution, one slice per V segment.
    pub p_del_v_given_v: Vec<u64>,
    /// Number of V-deletion lengths (slice size of `p_del_v_given_v`).
    pub n_del_v: usize,
    /// Joint D/J-segment choice distribution, shaped `n_d x n_j`.
    pub p_dj: Vec<u64>,
    /// Number of D segments.
    pub n_d: usize,
    /// Number of J segments.
    pub n_j: usize,
    /// J-deletion distribution, one slice per J segment.
    pub p_del_j_given_j: Vec<u64>,
    /// Number of J-deletion lengths.
    pub n_del_j: usize,
    /// D-deletion-pair distribution, one `n_del_d3 x n_del_d5` slice per
    /// D segment.
    pub p_del_d3_del_d5: Vec<u64>,
    /// Number of three-prime D-deletion lengths.
    pub n_del_d3: usize,
    /// Number of five-prime D-deletion lengths.
    pub n_del_d5: usize,
    /// VD-insertion length distribution.
    pub p_ins_vd: Vec<u64>,
    /// DJ-insertion length distribution.
    pub p_ins_dj: Vec<u64>,
    /// First-base bias of the VD insertion (four entries).
    pub first_nt_bias_ins_vd: Vec<u64>,
    /// First-base bias of the DJ insertion (four entries).
    pub first_nt_bias_ins_dj: Vec<u64>,
    /// Base-transition chain of the VD insertion (four slices of four).
    pub markov_coefficients_vd: Vec<u64>,
    /// Base-transition chain of the DJ insertion (four slices of four).
    pub markov_coefficients_dj: Vec<u64>,
    /// Fixed-point Poisson mean of the sequencing-error model.
    pub error_rate: u64,
}

/// The core aggregate: one instance of every sub-model, each owning its
/// parameters and its statistics accumulator.
pub struct Features {
    /// V-segment choice.
    pub v: CategoricalFeature1,
    /// V deletions given the V segment.
    pub delv: CategoricalFeature1g1,
    /// Joint D/J-segment choice.
    pub dj: CategoricalFeature2,
    /// J deletions given the J segment.
    pub delj: CategoricalFeature1g1,
    /// D deletion pair given the D segment.
    pub deld: CategoricalFeature2g1,
    /// VD-junction insertion model.
    pub insvd: InsertionFeature,
    /// DJ-junction insertion model.
    pub insdj: InsertionFeature,
    /// Sequencing-error model.
    pub error: ErrorPoisson,
}

impl Features {
    /// Every sub-model is well-formed and carries the tag of the role
    /// it plays, so that errors name the right sub-model.
    pub open spec fn wf(self) -> bool {
        &&& self.v.wf() && self.v.tag == SubModel::VGene
        &&& self.delv.wf() && self.delv.tag == SubModel::DelV
        &&& self.dj.wf() && self.dj.tag == SubModel::DJoint
        &&& self.delj.wf() && self.delj.tag == SubModel::DelJ
        &&& self.deld.wf() && self.deld.tag == SubModel::DelD
        &&& self.insvd.wf() && self.insvd.tag == SubModel::InsVD
        &&& self.insdj.wf() && self.insdj.tag == SubModel::InsDJ
        &&& self.error.wf()
    }
}

/// Likelihood of a V candidate with `delv` bases deleted: the V choice
/// probability times the deletion probability times the error model on
/// the mismatches that deletion leaves.
pub open spec fn lik_v_parts(f: Features, v: VJAlignment, delv: int) -> int {
    pmul_spec(
        pmul_spec(f.v.lik(v.index as int), f.delv.lik(delv, v.index as int)),
        f.error.lik(v.nb_errors_spec(delv)),
    )
}

/// Likelihood of the D/J part of an event. Exactly zero whenever the
/// kept V part, D window and J part overlap or cross (geometric
/// infeasibility); otherwise the product of the D/J choice, the two
/// deletion probabilities, the two insertion-length probabilities and
/// the error model on the D and J mismatches.
pub open spec fn lik_dj_parts(
    f: Features,
    v: VJAlignment,
    delv: int,
    j: VJAlignment,
    delj: int,
    d: DAlignment,
    deld5: int,
    deld3: int,
) -> int {
    let v_end = v.end_seq - delv;
    let d_start = d.pos + deld5;
    let d_end = d.pos + d.dlen - deld3;
    let j_start = j.start_seq + delj;
    if v_end > d_start || d_start > d_end || d_end > j_start {
        0
    } else {
        pmul_spec(
            pmul_spec(
                pmul_spec(
                    pmul_spec(
                        pmul_spec(
                            pmul_spec(
                                f.dj.lik(d.index as int, j.index as int),
                                f.delj.lik(delj, j.index as int),
                            ),
                            f.deld.lik(deld3, deld5, d.index as int),
                        ),
                        f.insvd.len_lik(d_start - v_end),
                    ),
                    f.insdj.len_lik(j_start - d_end),
                ),
                f.error.lik(d.nb_errors_spec(deld5, deld3)),
            ),
            f.error.lik(j.nb_errors_spec(delj)),
        )
    }
}

/// The VD junction insertion realized by the event.
pub open spec fn ins_vd_parts(nt: Seq<u8>, v: VJAlignment, delv: int, d: DAlignment, deld5: int)
    -> Seq<u8> {
    extract_spec(nt, v.end_seq - delv, d.pos + deld5)
}

/// The DJ junction insertion realized by the event.
pub open spec fn ins_dj_parts(nt: Seq<u8>, j: VJAlignment, delj: int, d: DAlignment, deld3: int)
    -> Seq<u8> {
    extract_spec(nt, d.pos + d.dlen - deld3, j.start_seq + delj)
}

/// Complete event likelihood: the V part times the D/J part, then times
/// the exact likelihood of each realized junction insertion.
pub open spec fn l_total_parts(
    f: Features,
    nt: Seq<u8>,
    v: VJAlignment,
    delv: int,
    j: VJAlignment,
    delj: int,
    d: DAlignment,
    deld5: int,
    deld3: int,
) -> int {
    pmul_spec(
        pmul_spec(
            pmul_spec(lik_v_parts(f, v, delv), lik_dj_parts(f, v, delv, j, delj, d, deld5, deld3)),
            f.insvd.seq_lik(ins_vd_parts(nt, v, delv, d, deld5)),
        ),
        f.insdj.seq_lik(ins_dj_parts(nt, j, delj, d, deld3)),
    )
}

impl Features {
    /// Likelihood of one V candidate and V-deletion choice.
    pub fn likelihood_v(&self, v: &VJAlignment, delv: usize) -> (r: u64)
        requires
            self.wf(),
        ensures
            r as int == lik_v_parts(*self, *v, delv as int),
            r <= SCALE,
    {
        let a: u64 = self.v.likelihood(v.index);
        let b: u64 = self.delv.likelihood((delv, v.index));
        let c: u64 = self.error.likelihood(v.nb_errors(delv) as u64);
        pmul(pmul(a, b), c)
    }

    /// Likelihood of the D/J part of one event: zero on geometric
    /// infeasibility, the product of the remaining factors otherwise.
    pub fn likelihood_dj(
        &self,
        v: &VJAlignment,
        delv: usize,
        j: &VJAlignment,
        delj: usize,
        d: &DAlignment,
        deld5: usize,
        deld3: usize,
    ) -> (r: u64)
        requires
            self.wf(),
            v.end_seq <= crate::sequence::SEQ_MAX,
            j.start_seq <= crate::sequence::SEQ_MAX,
            d.pos + d.dlen <= crate::sequence::SEQ_MAX,
            delv <= crate::sequence::SEQ_MAX,
            delj <= crate::sequence::SEQ_MAX,
            deld5 <= crate::sequence::SEQ_MAX,
            deld3 <= crate::sequence::SEQ_MAX,
        ensures
            r as int == lik_dj_parts(
                *self,
                *v,
                delv as int,
                *j,
                delj as int,
                *d,
                deld5 as int,
                deld3 as int,
            ),
            r <= SCALE,
    {
        let v_end: i64 = (v.end_seq as i64) - (delv as i64);
        let d_start: i64 = (d.pos as i64) + (deld5 as i64);
        let d_end: i64 = (d.pos as i64) + (d.dlen as i64) - (deld3 as i64);
        let j_start: i64 = (j.start_seq as i64) + (delj as i64);
        if v_end > d_start || d_start > d_end || d_end > j_start {
            return 0;
        }
        let p1: u64 = self.dj.likelihood((d.index, j.index));
        let p2: u64 = pmul(p1, self.delj.likelihood((delj, j.index)));
        let p3: u64 = pmul(p2, self.deld.likelihood((deld3, deld5, d.index)));
        let p4: u64 = pmul(p3, self.insvd.likelihood_length((d_start - v_end) as usize));
        let p5: u64 = pmul(p4, self.insdj.likelihood_length((j_start - d_end) as usize));
        let p6: u64 = pmul(p5, self.error.likelihood(d.nb_errors(deld5, deld3) as u64));
        let p7: u64 = pmul(p6, self.error.likelihood(j.nb_errors(delj) as u64));
        p7
    }
}

/// Mathematical image of one surviving event: its likelihood, its total
/// mismatch count, and its snapshot.
pub ghost struct EntryV {
    /// The event's complete likelihood.
    pub l: int,
    /// Total mismatches over the V, D and J parts.
    pub k_err: int,
    /// The owned snapshot of the event.
    pub ev: StaticEventV,
}

/// One surviving event as the enumeration carries it: likelihood, total
/// mismatch count, and the owned snapshot.
pub struct SurvEntry {
    /// The event's complete likelihood.
    pub l: u64,
    /// Total mismatches over the V, D and J parts.
    pub k_err: u64,
    /// The owned snapshot of the event.
    pub ev: StaticEvent,
}

/// Mathematical image of a carried survivor.
pub open spec fn sev(e: SurvEntry) -> EntryV {
    EntryV { l: e.l as int, k_err: e.k_err as int, ev: e.ev@ }
}

/// Mathematical image of a survivor list.
pub open spec fn sevs(es: Seq<SurvEntry>) -> Seq<EntryV> {
    es.map_values(|e: SurvEntry| sev(e))
}

/// Largest total mismatch count a survivor can carry.
pub const K_ERR_MAX: u64 = 3 * 0xffff_ffff;

/// Every carried survivor is within the bounds the accumulation phase
/// relies on.
pub open spec fn entries_bounded(es: Seq<SurvEntry>) -> bool {
    forall|i: int|
        0 <= i < es.len() ==> (#[trigger] es[i]).l <= SCALE && es[i].k_err <= K_ERR_MAX
            && es[i].ev.insvd@.len() <= crate::sequence::SEQ_MAX && es[i].ev.insdj@.len()
            <= crate::sequence::SEQ_MAX
}

/// The snapshot entry of one event.
pub open spec fn entry_parts(
    f: Features,
    nt: Seq<u8>,
    v: VJAlignment,
    delv: int,
    j: VJAlignment,
    delj: int,
    d: DAlignment,
    deld5: int,
    deld3: int,
) -> EntryV {
    EntryV {
        l: l_total_parts(f, nt, v, delv, j, delj, d, deld5, deld3),
        k_err: v.nb_errors_spec(delv) + d.nb_errors_spec(deld5, deld3) + j.nb_errors_spec(delj),
        ev: StaticEventV {
            v_index: v.index as int,
            delv: delv,
            j_index: j.index as int,
            delj: delj,
            d_index: d.index as int,
            deld5: deld5,
            deld3: deld3,
            insvd: ins_vd_parts(nt, v, delv, d, deld5),
            insdj: ins_dj_parts(nt, j, delj, d, deld3),
        },
    }
}

/// An event survives when its complete likelihood is positive and not
/// below the pruning threshold. Geometric infeasibility and zero-mass
/// parameter cells yield likelihood zero and therefore never survive.
pub open spec fn survives_parts(
    f: Features,
    nt: Seq<u8>,
    v: VJAlignment,
    delv: int,
    j: VJAlignment,
    delj: int,
    d: DAlignment,
    deld5: int,
    deld3: int,
    min_l: int,
) -> bool {
    let l = l_total_parts(f, nt, v, delv, j, delj, d, deld5, deld3);
    l > 0 && l >= min_l
}

/// The contribution of one event to the survivor list: its entry if it
/// survives, nothing otherwise.
pub open spec fn entry_seq_parts(
    f: Features,
    nt: Seq<u8>,
    v: VJAlignment,
    delv: int,
    j: VJAlignment,
    delj: int,
    d: DAlignment,
    deld5: int,
    deld3: int,
    min_l: int,
) -> Seq<EntryV> {
    if survives_parts(f, nt, v, delv, j, delj, d, deld5, deld3, min_l) {
        seq![entry_parts(f, nt, v, delv, j, delj, d, deld5, deld3)]
    } else {
        Seq::empty()
    }
}

/// Number of three-prime D-deletion choices the model enumerates.
pub open spec fn nd3_dim(f: Features) -> int {
    f.deld.d0 as int
}

/// Number of five-prime D-deletion choices the model enumerates.
pub open spec fn nd5_dim(f: Features) -> int {
    f.deld.d1 as int
}

/// Number of J-deletion choices the model enumerates.
pub open spec fn ndj_dim(f: Features) -> int {
    f.delj.t.gsize as int
}

/// Number of V-deletion choices the model enumerates.
pub open spec fn ndv_dim(f: Features) -> int {
    f.delv.t.gsize as int
}

/// Survivors among the first `n3` three-prime D-deletion choices, in
/// enumeration order.
pub open spec fn enum_d3(
    f: Features,
    nt: Seq<u8>,
    v: VJAlignment,
    delv: int,
    j: VJAlignment,
    delj: int,
    d: DAlignment,
    deld5: int,
    min_l: int,
    n3: int,
) -> Seq<EntryV>
    decreases n3,
{
    if n3 <= 0 {
        Seq::empty()
    } else {
        enum_d3(f, nt, v, delv, j, delj, d, deld5, min_l, n3 - 1) + entry_seq_parts(
            f,
            nt,
            v,
            delv,
            j,
            delj,
            d,
            deld5,
            n3 - 1,
            min_l,
        )
    }
}

/// Survivors among the first `n5` five-prime D-deletion choices.
pub open spec fn enum_d5(
    f: Features,
    nt: Seq<u8>,
    v: VJAlignment,
    delv: int,
    j: VJAlignment,
    delj: int,
    d: DAlignment,
    min_l: int,
    n5: int,
) -> Seq<EntryV>
    decreases n5,
{
    if n5 <= 0 {
        Seq::empty()
    } else {
        enum_d5(f, nt, v, delv, j, delj, d, min_l, n5 - 1) + enum_d3(
            f,
            nt,
            v,
            delv,
            j,
            delj,
            d,
            n5 - 1,
            min_l,
            nd3_dim(f),
        )
    }
}

/// Survivors among the first `nd` D candidates.
pub open spec fn enum_d(
    f: Features,
    nt: Seq<u8>,
    v: VJAlignment,
    delv: int,
    j: VJAlignment,
    delj: int,
    ds: Seq<DAlignment>,
    min_l: int,
    nd: int,
) -> Seq<EntryV>
    decreases nd,
{
    if nd <= 0 {
        Seq::empty()
    } else {
        enum_d(f, nt, v, delv, j, delj, ds, min_l, nd - 1) + enum_d5(
            f,
            nt,
            v,
            delv,
            j,
            delj,
            ds[nd - 1],
            min_l,
            nd5_dim(f),
        )
    }
}

/// Survivors among the first `ndj` J-deletion choices.
pub open spec fn enum_dj(
    f: Features,
    nt: Seq<u8>,
    v: VJAlignment,
    delv: int,
    j: VJAlignment,
    ds: Seq<DAlignment>,
    min_l: int,
    ndj: int,
) -> Seq<EntryV>
    decreases ndj,
{
    if ndj <= 0 {
        Seq::empty()
    } else {
        enum_dj(f, nt, v, delv, j, ds, min_l, ndj - 1) + enum_d(
            f,
            nt,
            v,
            delv,
            j,
            ndj - 1,
            ds,
            min_l,
            ds.len() as int,
        )
    }
}

/// Survivors among the first `nj` J candidates.
pub open spec fn enum_j(
    f: Features,
    nt: Seq<u8>,
    v: VJAlignment,
    delv: int,
    js: Seq<VJAlignment>,
    ds: Seq<DAlignment>,
    min_l: int,
    nj: int,
) -> Seq<EntryV>
    decreases nj,
{
    if nj <= 0 {
        Seq::empty()
    } else {
        enum_j(f, nt, v, delv, js, ds, min_l, nj - 1) + enum_dj(
            f,
            nt,
            v,
            delv,
            js[nj - 1],
            ds,
            min_l,
            ndj_dim(f),
        )
    }
}

/// Survivors among the first `ndv` V-deletion choices.
pub open spec fn enum_delv(
    f: Features,
    nt: Seq<u8>,
    v: VJAlignment,
    js: Seq<VJAlignment>,
    ds: Seq<DAlignment>,
    min_l: int,
    ndv: int,
) -> Seq<EntryV>
    decreases ndv,
{
    if ndv <= 0 {
        Seq::empty()
    } else {
        enum_delv(f, nt, v, js, ds, min_l, ndv - 1) + enum_j(
            f,
            nt,
            v,
            ndv - 1,
            js,
            ds,
            min_l,
            js.len() as int,
        )
    }
}

/// Survivors among the first `nv` V candidates.
pub open spec fn enum_v(
    f: Features,
    nt: Seq<u8>,
    vs: Seq<VJAlignment>,
    js: Seq<VJAlignment>,
    ds: Seq<DAlignment>,
    min_l: int,
    nv: int,
) -> Seq<EntryV>
    decreases nv,
{
    if nv <= 0 {
        Seq::empty()
    } else {
        enum_v(f, nt, vs, js, ds, min_l, nv - 1) + enum_delv(
            f,
            nt,
            vs[nv - 1],
            js,
            ds,
            min_l,
            ndv_dim(f),
        )
    }
}

/// The full survivor list of a read, in enumeration order: every
/// combination of one V, D and J candidate with every supported deletion
/// choice, kept exactly when its complete likelihood is positive and not
/// below the pruning threshold.
pub open spec fn survivors_spec(f: Features, s: Sequence, min_l: int) -> Seq<EntryV> {
    enum_v(f, s.seq@, s.v_genes@, s.j_genes@, s.d_genes@, min_l, s.v_genes@.len() as int)
}

/// An error-model likelihood is a probability.
pub proof fn lemma_err_lik_bounds(e: ErrorPoisson, k: int)
    requires
        e.wf(),
    ensures
        0 <= e.lik(k) <= SCALE,
{
    crate::feature::lemma_pois_mass_bounds(e.rate as int, k);
}

/// Every stage of an event's likelihood is a probability, and the
/// complete likelihood never exceeds its V-part factor.
pub proof fn lemma_l_parts_bounds(
    f: Features,
    nt: Seq<u8>,
    v: VJAlignment,
    delv: int,
    j: VJAlignment,
    delj: int,
    d: DAlignment,
    deld5: int,
    deld3: int,
)
    requires
        f.wf(),
    ensures
        0 <= lik_v_parts(f, v, delv) <= SCALE,
        0 <= lik_dj_parts(f, v, delv, j, delj, d, deld5, deld3) <= SCALE,
        0 <= l_total_parts(f, nt, v, delv, j, delj, d, deld5, deld3) <= lik_v_parts(f, v, delv),
{
    lemma_err_lik_bounds(f.error, v.nb_errors_spec(delv));
    lemma_err_lik_bounds(f.error, d.nb_errors_spec(deld5, deld3));
    lemma_err_lik_bounds(f.error, j.nb_errors_spec(delj));
    crate::prob::lemma_pmul_bounds(f.v.lik(v.index as int), f.delv.lik(delv, v.index as int));
    crate::prob::lemma_pmul_bounds(
        pmul_spec(f.v.lik(v.index as int), f.delv.lik(delv, v.index as int)),
        f.error.lik(v.nb_errors_spec(delv)),
    );
    let v_end = v.end_seq - delv;
    let d_start = d.pos + deld5;
    let d_end = d.pos + d.dlen - deld3;
    let j_start = j.start_seq + delj;
    if !(v_end > d_start || d_start > d_end || d_end > j_start) {
        let q1 = pmul_spec(f.dj.lik(d.index as int, j.index as int), f.delj.lik(delj, j.index as int));
        crate::prob::lemma_pmul_bounds(
            f.dj.lik(d.index as int, j.index as int),
            f.delj.lik(delj, j.index as int),
        );
        let q2 = pmul_spec(q1, f.deld.lik(deld3, deld5, d.index as int));
        crate::prob::lemma_pmul_bounds(q1, f.deld.lik(deld3, deld5, d.index as int));
        let q3 = pmul_spec(q2, f.insvd.len_lik(d_start - v_end));
        crate::prob::lemma_pmul_bounds(q2, f.insvd.len_lik(d_start - v_end));
        let q4 = pmul_spec(q3, f.insdj.len_lik(j_start - d_end));
        crate::prob::lemma_pmul_bounds(q3, f.insdj.len_lik(j_start - d_end));
        let q5 = pmul_spec(q4, f.error.lik(d.nb_errors_spec(deld5, deld3)));
        crate::prob::lemma_pmul_bounds(q4, f.error.lik(d.nb_errors_spec(deld5, deld3)));
        crate::prob::lemma_pmul_bounds(q5, f.error.lik(j.nb_errors_spec(delj)));
    }
    let lv = lik_v_parts(f, v, delv);
    let ldj = lik_dj_parts(f, v, delv, j, delj, d, deld5, deld3);
    crate::prob::lemma_pmul_bounds(lv, ldj);
    f.insvd.lemma_seq_lik_bound(ins_vd_parts(nt, v, delv, d, deld5));
    f.insdj.lemma_seq_lik_bound(ins_dj_parts(nt, j, delj, d, deld3));
    crate::prob::lemma_pmul_bounds(
        pmul_spec(lv, ldj),
        f.insvd.seq_lik(ins_vd_parts(nt, v, delv, d, deld5)),
    );
    crate::prob::lemma_pmul_bounds(
        pmul_spec(pmul_spec(lv, ldj), f.insvd.seq_lik(ins_vd_parts(nt, v, delv, d, deld5))),
        f.insdj.seq_lik(ins_dj_parts(nt, j, delj, d, deld3)),
    );
}

/// When the V-part likelihood is already zero or below the threshold, no
/// event under it survives.
pub proof fn lemma_no_survivor(
    f: Features,
    nt: Seq<u8>,
    v: VJAlignment,
    delv: int,
    j: VJAlignment,
    delj: int,
    d: DAlignment,
    deld5: int,
    deld3: int,
    min_l: int,
)
    requires
        f.wf(),
        lik_v_parts(f, v, delv) == 0 || lik_v_parts(f, v, delv) < min_l,
    ensures
        !survives_parts(f, nt, v, delv, j, delj, d, deld5, deld3, min_l),
{
    lemma_l_parts_bounds(f, nt, v, delv, j, delj, d, deld5, deld3);
}

/// Stage-one pruning is sound: a pruned V part contributes no survivor
/// at the innermost level.
pub proof fn lemma_enum_d3_empty(
    f: Features,
    nt: Seq<u8>,
    v: VJAlignment,
    delv: int,
    j: VJAlignment,
    delj: int,
    d: DAlignment,
    deld5: int,
    min_l: int,
    n3: int,
)
    requires
        f.wf(),
        lik_v_parts(f, v, delv) == 0 || lik_v_parts(f, v, delv) < min_l,
    ensures
        enum_d3(f, nt, v, delv, j, delj, d, deld5, min_l, n3) == Seq::<EntryV>::empty(),
    decreases n3,
{
    if n3 > 0 {
        lemma_enum_d3_empty(f, nt, v, delv, j, delj, d, deld5, min_l, n3 - 1);
        lemma_no_survivor(f, nt, v, delv, j, delj, d, deld5, n3 - 1, min_l);
        assert(enum_d3(f, nt, v, delv, j, delj, d, deld5, min_l, n3) =~= Seq::<
            EntryV,
        >::empty());
    }
}

/// Stage-one pruning is sound across the five-prime deletion choices.
pub proof fn lemma_enum_d5_empty(
    f: Features,
    nt: Seq<u8>,
    v: VJAlignment,
    delv: int,
    j: VJAlignment,
    delj: int,
    d: DAlignment,
    min_l: int,
    n5: int,
)
    requires
        f.wf(),
        lik_v_parts(f, v, delv) == 0 || lik_v_parts(f, v, delv) < min_l,
    ensures
        enum_d5(f, nt, v, delv, j, delj, d, min_l, n5) == Seq::<EntryV>::empty(),
    decreases n5,
{
    if n5 > 0 {
        lemma_enum_d5_empty(f, nt, v, delv, j, delj, d, min_l, n5 - 1);
        lemma_enum_d3_empty(f, nt, v, delv, j, delj, d, n5 - 1, min_l, nd3_dim(f));
        assert(enum_d5(f, nt, v, delv, j, delj, d, min_l, n5) =~= Seq::<EntryV>::empty());
    }
}

/// Stage-one pruning is sound across the D candidates.
pub proof fn lemma_enum_d_empty(
    f: Features,
    nt: Seq<u8>,
    v: VJAlignment,
    delv: int,
    j: VJAlignment,
    delj: int,
    ds: Seq<DAlignment>,
    min_l: int,
    nd: int,
)
    requires
        f.wf(),
        lik_v_parts(f, v, delv) == 0 || lik_v_parts(f, v, delv) < min_l,
    ensures
        enum_d(f, nt, v, delv, j, delj, ds, min_l, nd) == Seq::<EntryV>::empty(),
    decreases nd,
{
    if nd > 0 {
        lemma_enum_d_empty(f, nt, v, delv, j, delj, ds, min_l, nd - 1);
        lemma_enum_d5_empty(f, nt, v, delv, j, delj, ds[nd - 1], min_l, nd5_dim(f));
        assert(enum_d(f, nt, v, delv, j, delj, ds, min_l, nd) =~= Seq::<EntryV>::empty());
    }
}

/// Stage-one pruning is sound across the J-deletion choices.
pub proof fn lemma_enum_dj_empty(
    f: Features,
    nt: Seq<u8>,
    v: VJAlignment,
    delv: int,
    j: VJAlignment,
    ds: Seq<DAlignment>,
    min_l: int,
    ndj: int,
)
    requires
        f.wf(),
        lik_v_parts(f, v, delv) == 0 || lik_v_parts(f, v, delv) < min_l,
    ensures
        enum_dj(f, nt, v, delv, j, ds, min_l, ndj) == Seq::<EntryV>::empty(),
    decreases ndj,
{
    if ndj > 0 {
        lemma_enum_dj_empty(f, nt, v, delv, j, ds, min_l, ndj - 1);
        lemma_enum_d_empty(f, nt, v, delv, j, ndj - 1, ds, min_l, ds.len() as int);
        assert(enum_dj(f, nt, v, delv, j, ds, min_l, ndj) =~= Seq::<EntryV>::empty());
    }
}

/// Stage-one pruning is sound: a pruned V part contributes no survivor
/// over the whole inner enumeration.
pub proof fn lemma_enum_j_empty(
    f: Features,
    nt: Seq<u8>,
    v: VJAlignment,
    delv: int,
    js: Seq<VJAlignment>,
    ds: Seq<DAlignment>,
    min_l: int,
    nj: int,
)
    requires
        f.wf(),
        lik_v_parts(f, v, delv) == 0 || lik_v_parts(f, v, delv) < min_l,
    ensures
        enum_j(f, nt, v, delv, js, ds, min_l, nj) == Seq::<EntryV>::empty(),
    decreases nj,
{
    if nj > 0 {
        lemma_enum_j_empty(f, nt, v, delv, js, ds, min_l, nj - 1);
        lemma_enum_dj_empty(f, nt, v, delv, js[nj - 1], ds, min_l, ndj_dim(f));
        assert(enum_j(f, nt, v, delv, js, ds, min_l, nj) =~= Seq::<EntryV>::empty());
    }
}

impl Features {
    /// Enumerates every candidate event of the read and collects the
    /// survivors of the three-stage pruning ladder, in enumeration
    /// order: stage one discards a V part whose own likelihood is
    /// already negligible before any inner combination is formed, stage
    /// two discards a combination before its junction insertions are
    /// extracted, stage three after their exact likelihoods are folded
    /// in. Pruning never changes which events survive, because each
    /// stage only discards events whose complete likelihood is certain
    /// to fall below the threshold (or to be zero).
    fn enumerate(&self, s: &Sequence, min_likelihood: u64) -> (out: Vec<SurvEntry>)
        requires
            self.wf(),
            s.wf(),
        ensures
            sevs(out@) == survivors_spec(*self, *s, min_likelihood as int),
            entries_bounded(out@),
    {
        let ghost f = *self;
        let ghost nt = s.seq@;
        let ghost vs = s.v_genes@;
        let ghost js = s.j_genes@;
        let ghost ds = s.d_genes@;
        let ghost min_l = min_likelihood as int;
        let mut out: Vec<SurvEntry> = Vec::new();
        let nv: usize = s.v_genes.len();
        let ndv: usize = self.delv.dim0();
        proof {
            assert(ndv <= CELLS_MAX) by {
                assert((self.delv.t.ngroups as int) * (self.delv.t.gsize as int)
                    >= self.delv.t.gsize) by (nonlinear_arith)
                    requires self.delv.t.ngroups >= 1 && self.delv.t.gsize >= 0;
            }
        }
        let mut vi: usize = 0;
        while vi < nv
            invariant
                vi <= nv,
                sevs(out@) == enum_v(f, nt, vs, js, ds, min_l, vi as int),
                entries_bounded(out@),
            decreases nv - vi,
        {
            let v: &VJAlignment = &s.v_genes[vi];
            let mut dv: usize = 0;
            while dv < ndv
                invariant
                    vi < nv,
                    dv <= ndv,
                    sevs(out@) == enum_v(f, nt, vs, js, ds, min_l, vi as int) + enum_delv(
                        f,
                        nt,
                        vs[vi as int],
                        js,
                        ds,
                        min_l,
                        dv as int,
                    ),
                    entries_bounded(out@),
                decreases ndv - dv,
            {
                let lv: u64 = self.likelihood_v(v, dv);
                if lv == 0 || lv < min_likelihood {
                    proof {
                        lemma_enum_j_empty(
                            f,
                            nt,
                            vs[vi as int],
                            dv as int,
                            js,
                            ds,
                            min_l,
                            js.len() as int,
                        );
                        assert(enum_v(f, nt, vs, js, ds, min_l, vi as int) + enum_delv(
                            f,
                            nt,
                            vs[vi as int],
                            js,
                            ds,
                            min_l,
                            dv + 1,
                        ) =~= enum_v(f, nt, vs, js, ds, min_l, vi as int) + enum_delv(
                            f,
                            nt,
                            vs[vi as int],
                            js,
                            ds,
                            min_l,
                            dv as int,
                        ));
                    }
                } else {
                    self.enumerate_v_block(s, min_likelihood, lv, vi, dv, &mut out);
                }
                dv = dv + 1;
            }
            vi = vi + 1;
        }
        out
    }

    /// Enumerates the whole inner combination space under one V
    /// candidate and V-deletion choice that passed stage-one pruning.
    #[verifier::rlimit(100)]
    fn enumerate_v_block(
        &self,
        s: &Sequence,
        min_likelihood: u64,
        lv: u64,
        vi: usize,
        dv: usize,
        out: &mut Vec<SurvEntry>,
    )
        requires
            self.wf(),
            s.wf(),
            vi < s.v_genes@.len(),
            dv <= CELLS_MAX,
            lv as int == lik_v_parts(*self, s.v_genes@[vi as int], dv as int),
            lv <= SCALE,
            entries_bounded(old(out)@),
        ensures
            sevs(final(out)@) == sevs(old(out)@) + enum_j(
                *self,
                s.seq@,
                s.v_genes@[vi as int],
                dv as int,
                s.j_genes@,
                s.d_genes@,
                min_likelihood as int,
                s.j_genes@.len() as int,
            ),
            entries_bounded(final(out)@),
    {
        let ghost f = *self;
        let ghost nt = s.seq@;
        let ghost js = s.j_genes@;
        let ghost ds = s.d_genes@;
        let ghost min_l = min_likelihood as int;
        let ghost base = sevs(old(out)@);
        let v: &VJAlignment = &s.v_genes[vi];
        let nj: usize = s.j_genes.len();
        let ndj: usize = self.delj.dim0();
        let nd: usize = s.d_genes.len();
        let (nd3, nd5) = self.deld.dims();
        proof {
            assert(ndj <= CELLS_MAX) by {
                assert((self.delj.t.ngroups as int) * (self.delj.t.gsize as int)
                    >= self.delj.t.gsize) by (nonlinear_arith)
                    requires self.delj.t.ngroups >= 1 && self.delj.t.gsize >= 0;
            }
            assert(nd3 <= CELLS_MAX && nd5 <= CELLS_MAX) by {
                assert((self.deld.d0 as int) * (self.deld.d1 as int) >= self.deld.d0 && (
                self.deld.d0 as int) * (self.deld.d1 as int) >= self.deld.d1)
                    by (nonlinear_arith)
                    requires self.deld.d0 >= 1 && self.deld.d1 >= 1;
                assert((self.deld.t.ngroups as int) * (self.deld.t.gsize as int)
                    >= self.deld.t.gsize) by (nonlinear_arith)
                    requires self.deld.t.ngroups >= 1 && self.deld.t.gsize >= 0;
            }
        }
        let mut ji: usize = 0;
        while ji < nj
            invariant
                ji <= nj,
                vi < s.v_genes@.len(),
                sevs(out@) == base + enum_j(f, nt, s.v_genes@[vi as int], dv as int, js, ds, min_l, ji as int),
                entries_bounded(out@),
            decreases nj - ji,
        {
            let j: &VJAlignment = &s.j_genes[ji];
            let mut dji: usize = 0;
            while dji < ndj
                invariant
                    ji < nj,
                    dji <= ndj,
                    vi < s.v_genes@.len(),
                    sevs(out@) == base + enum_j(f, nt, s.v_genes@[vi as int], dv as int, js, ds, min_l, ji as int)
                        + enum_dj(
                        f,
                        nt,
                        s.v_genes@[vi as int],
                        dv as int,
                        js[ji as int],
                        ds,
                        min_l,
                        dji as int,
                    ),
                    entries_bounded(out@),
                decreases ndj - dji,
            {
                let mut di: usize = 0;
                while di < nd
                    invariant
                        ji < nj,
                        dji < ndj,
                        di <= nd,
                        vi < s.v_genes@.len(),
                        sevs(out@) == base + enum_j(f, nt, s.v_genes@[vi as int], dv as int, js, ds, min_l, ji as int)
                            + enum_dj(
                            f,
                            nt,
                            s.v_genes@[vi as int],
                            dv as int,
                            js[ji as int],
                            ds,
                            min_l,
                            dji as int,
                        ) + enum_d(
                            f,
                            nt,
                            s.v_genes@[vi as int],
                            dv as int,
                            js[ji as int],
                            dji as int,
                            ds,
                            min_l,
                            di as int,
                        ),
                        entries_bounded(out@),
                    decreases nd - di,
                {
                    let d: &DAlignment = &s.d_genes[di];
                    let mut d5i: usize = 0;
                    while d5i < nd5
                        invariant
                            ji < nj,
                            dji < ndj,
                            di < nd,
                            d5i <= nd5,
                            vi < s.v_genes@.len(),
                            sevs(out@) == base + enum_j(f, nt, s.v_genes@[vi as int], dv as int, js, ds, min_l, ji as int)
                                + enum_dj(
                                f,
                                nt,
                                s.v_genes@[vi as int],
                                dv as int,
                                js[ji as int],
                                ds,
                                min_l,
                                dji as int,
                            ) + enum_d(
                                f,
                                nt,
                                s.v_genes@[vi as int],
                                dv as int,
                                js[ji as int],
                                dji as int,
                                ds,
                                min_l,
                                di as int,
                            ) + enum_d5(
                                f,
                                nt,
                                s.v_genes@[vi as int],
                                dv as int,
                                js[ji as int],
                                dji as int,
                                ds[di as int],
                                min_l,
                                d5i as int,
                            ),
                            entries_bounded(out@),
                        decreases nd5 - d5i,
                    {
                        let mut d3i: usize = 0;
                        while d3i < nd3
                            invariant
                                ji < nj,
                                dji < ndj,
                                di < nd,
                                d5i < nd5,
                                d3i <= nd3,
                                vi < s.v_genes@.len(),
                                sevs(out@) == base + enum_j(f, nt, s.v_genes@[vi as int], dv as int, js, ds, min_l, ji as int)
                                    + enum_dj(
                                    f,
                                    nt,
                                    s.v_genes@[vi as int],
                                    dv as int,
                                    js[ji as int],
                                    ds,
                                    min_l,
                                    dji as int,
                                ) + enum_d(
                                    f,
                                    nt,
                                    s.v_genes@[vi as int],
                                    dv as int,
                                    js[ji as int],
                                    dji as int,
                                    ds,
                                    min_l,
                                    di as int,
                                ) + enum_d5(
                                    f,
                                    nt,
                                    s.v_genes@[vi as int],
                                    dv as int,
                                    js[ji as int],
                                    dji as int,
                                    ds[di as int],
                                    min_l,
                                    d5i as int,
                                ) + enum_d3(
                                    f,
                                    nt,
                                    s.v_genes@[vi as int],
                                    dv as int,
                                    js[ji as int],
                                    dji as int,
                                    ds[di as int],
                                    d5i as int,
                                    min_l,
                                    d3i as int,
                                ),
                                entries_bounded(out@),
                            decreases nd3 - d3i,
                        {
                            self.enumerate_one(
                                s,
                                min_likelihood,
                                lv,
                                v,
                                j,
                                d,
                                vi,
                                dv,
                                ji,
                                dji,
                                di,
                                d5i,
                                d3i,
                                out,
                            );
                            d3i = d3i + 1;
                        }
                        d5i = d5i + 1;
                    }
                    di = di + 1;
                }
                dji = dji + 1;
            }
            ji = ji + 1;
        }
    }

    /// Evaluates one candidate event and appends its survivor entry when
    /// it passes the pruning ladder.
    #[verifier::rlimit(60)]
    fn enumerate_one(
        &self,
        s: &Sequence,
        min_likelihood: u64,
        lv: u64,
        v: &VJAlignment,
        j: &VJAlignment,
        d: &DAlignment,
        vi: usize,
        dv: usize,
        ji: usize,
        dji: usize,
        di: usize,
        d5i: usize,
        d3i: usize,
        out: &mut Vec<SurvEntry>,
    )
        requires
            self.wf(),
            s.wf(),
            vi < s.v_genes@.len(),
            ji < s.j_genes@.len(),
            di < s.d_genes@.len(),
            v == &s.v_genes@[vi as int],
            j == &s.j_genes@[ji as int],
            d == &s.d_genes@[di as int],
            dv <= CELLS_MAX,
            dji <= CELLS_MAX,
            d5i <= CELLS_MAX,
            d3i <= CELLS_MAX,
            lv as int == lik_v_parts(*self, *v, dv as int),
            lv <= SCALE,
            entries_bounded(old(out)@),
        ensures
            sevs(final(out)@) == sevs(old(out)@) + entry_seq_parts(
                *self,
                s.seq@,
                s.v_genes@[vi as int],
                dv as int,
                s.j_genes@[ji as int],
                dji as int,
                s.d_genes@[di as int],
                d5i as int,
                d3i as int,
                min_likelihood as int,
            ),
            entries_bounded(final(out)@),
    {
        let ghost f = *self;
        let ghost nt = s.seq@;
        let ghost min_l = min_likelihood as int;
        let ldj: u64 = self.likelihood_dj(v, dv, j, dji, d, d5i, d3i);
        let l2: u64 = pmul(lv, ldj);
        proof {
            lemma_l_parts_bounds(f, nt, *v, dv as int, *j, dji as int, *d, d5i as int, d3i as int);
            f.insvd.lemma_seq_lik_bound(ins_vd_parts(nt, *v, dv as int, *d, d5i as int));
            f.insdj.lemma_seq_lik_bound(ins_dj_parts(nt, *j, dji as int, *d, d3i as int));
            crate::prob::lemma_pmul_bounds(
                l2 as int,
                f.insvd.seq_lik(ins_vd_parts(nt, *v, dv as int, *d, d5i as int)),
            );
            crate::prob::lemma_pmul_bounds(
                pmul_spec(
                    l2 as int,
                    f.insvd.seq_lik(ins_vd_parts(nt, *v, dv as int, *d, d5i as int)),
                ),
                f.insdj.seq_lik(ins_dj_parts(nt, *j, dji as int, *d, d3i as int)),
            );
        }
        if l2 == 0 || l2 < min_likelihood {
            proof {
                assert(sevs(out@) =~= sevs(out@) + entry_seq_parts(
                    f,
                    nt,
                    s.v_genes@[vi as int],
                    dv as int,
                    s.j_genes@[ji as int],
                    dji as int,
                    s.d_genes@[di as int],
                    d5i as int,
                    d3i as int,
                    min_l,
                ));
            }
            return ;
        }
        let e = Event {
            v_idx: vi,
            delv: dv,
            j_idx: ji,
            delj: dji,
            d_idx: di,
            deld5: d5i,
            deld3: d3i,
        };
        let (insvd, insdj) = s.get_insertions_vd_dj(&e);
        let lsvd: u64 = self.insvd.likelihood_sequence(&insvd);
        let l3a: u64 = pmul(l2, lsvd);
        let lsdj: u64 = self.insdj.likelihood_sequence(&insdj);
        let l3: u64 = pmul(l3a, lsdj);
        proof {
            assert(insvd@ == ins_vd_parts(nt, *v, dv as int, *d, d5i as int));
            assert(insdj@ == ins_dj_parts(nt, *j, dji as int, *d, d3i as int));
            assert(l3 as int == l_total_parts(
                f,
                nt,
                *v,
                dv as int,
                *j,
                dji as int,
                *d,
                d5i as int,
                d3i as int,
            ));
        }
        if l3 == 0 || l3 < min_likelihood {
            proof {
                assert(sevs(out@) =~= sevs(out@) + entry_seq_parts(
                    f,
                    nt,
                    s.v_genes@[vi as int],
                    dv as int,
                    s.j_genes@[ji as int],
                    dji as int,
                    s.d_genes@[di as int],
                    d5i as int,
                    d3i as int,
                    min_l,
                ));
            }
            return ;
        }
        let kv: u32 = v.nb_errors(dv);
        let kd: u32 = d.nb_errors(d5i, d3i);
        let kj: u32 = j.nb_errors(dji);
        let k: u64 = (kv as u64) + (kd as u64) + (kj as u64);
        let snap = StaticEvent {
            v_index: v.index,
            delv: dv,
            j_index: j.index,
            delj: dji,
            d_index: d.index,
            deld5: d5i,
            deld3: d3i,
            insvd,
            insdj,
        };
        let entry = SurvEntry { l: l3, k_err: k, ev: snap };
        proof {
            assert(sev(entry) == entry_parts(
                f,
                nt,
                s.v_genes@[vi as int],
                dv as int,
                s.j_genes@[ji as int],
                dji as int,
                s.d_genes@[di as int],
                d5i as int,
                d3i as int,
            ));
            assert(sevs(out@.push(entry)) =~= sevs(out@).push(sev(entry)));
            assert(sevs(out@).push(sev(entry)) =~= sevs(out@) + entry_seq_parts(
                f,
                nt,
                s.v_genes@[vi as int],
                dv as int,
                s.j_genes@[ji as int],
                dji as int,
                s.d_genes@[di as int],
                d5i as int,
                d3i as int,
                min_l,
            ));
        }
        out.push(entry);
    }
}

/// Mathematical image of a ranked-event list.
pub open spec fn best_view(bs: Seq<(u64, StaticEvent)>) -> Seq<(int, StaticEventV)> {
    bs.map_values(|p: (u64, StaticEvent)| (p.0 as int, p.1@))
}

/// Descending order by likelihood.
pub open spec fn sorted_desc(bs: Seq<(int, StaticEventV)>) -> bool {
    forall|a: int, b: int| 0 <= a <= b < bs.len() ==> (#[trigger] bs[a]).0 >= (#[trigger] bs[b]).0
}

/// `x` inserted behind every entry whose likelihood is at least as
/// large: ties keep arrival order.
pub open spec fn insert_sorted(bs: Seq<(int, StaticEventV)>, x: (int, StaticEventV)) -> Seq<
    (int, StaticEventV),
>
    decreases bs.len(),
{
    if bs.len() == 0 {
        seq![x]
    } else if bs[0].0 >= x.0 {
        seq![bs[0]] + insert_sorted(bs.skip(1), x)
    } else {
        seq![x] + bs
    }
}

/// The list capped at `nb` entries.
pub open spec fn trunc_best(bs: Seq<(int, StaticEventV)>, nb: int) -> Seq<(int, StaticEventV)> {
    if bs.len() <= nb {
        bs
    } else {
        bs.take(nb)
    }
}

/// The ranked-event list after feeding the survivors in enumeration
/// order into a sorted list capped at `nb` entries; empty when `nb` is
/// zero.
pub open spec fn topk_spec(es: Seq<EntryV>, nb: int) -> Seq<(int, StaticEventV)>
    decreases es.len(),
{
    if nb <= 0 || es.len() == 0 {
        Seq::empty()
    } else {
        trunc_best(insert_sorted(topk_spec(es.drop_last(), nb), (es.last().l, es.last().ev)), nb)
    }
}

/// Where the sorted insertion lands: right after the entries at least as
/// likely.
pub proof fn lemma_insert_sorted_at(bs: Seq<(int, StaticEventV)>, x: (int, StaticEventV), pos: int)
    requires
        0 <= pos <= bs.len(),
        forall|k: int| 0 <= k < pos ==> (#[trigger] bs[k]).0 >= x.0,
        pos < bs.len() ==> bs[pos].0 < x.0,
    ensures
        insert_sorted(bs, x) == bs.take(pos) + seq![x] + bs.skip(pos),
    decreases bs.len(),
{
    if bs.len() == 0 {
        assert(insert_sorted(bs, x) =~= bs.take(pos) + seq![x] + bs.skip(pos));
    } else if pos == 0 {
        assert(insert_sorted(bs, x) =~= bs.take(0) + seq![x] + bs.skip(0));
    } else {
        assert(bs[0].0 >= x.0);
        let tl = bs.skip(1);
        assert forall|k: int| 0 <= k < pos - 1 implies (#[trigger] tl[k]).0 >= x.0 by {
            assert(tl[k] == bs[k + 1]);
        }
        lemma_insert_sorted_at(tl, x, pos - 1);
        assert(seq![bs[0]] + (tl.take(pos - 1) + seq![x] + tl.skip(pos - 1)) =~= bs.take(pos)
            + seq![x] + bs.skip(pos));
    }
}

/// Sorted insertion keeps the list sorted and grows it by one.
pub proof fn lemma_insert_sorted_props(bs: Seq<(int, StaticEventV)>, x: (int, StaticEventV))
    requires
        sorted_desc(bs),
    ensures
        sorted_desc(insert_sorted(bs, x)),
        insert_sorted(bs, x).len() == bs.len() + 1,
    decreases bs.len(),
{
    if bs.len() == 0 {
    } else if bs[0].0 >= x.0 {
        let tl = bs.skip(1);
        assert forall|a: int, b: int|
            0 <= a <= b < tl.len() implies (#[trigger] tl[a]).0 >= (#[trigger] tl[b]).0 by {
            assert(tl[a] == bs[a + 1] && tl[b] == bs[b + 1]);
        }
        lemma_insert_sorted_props(tl, x);
        let r = seq![bs[0]] + insert_sorted(tl, x);
        assert forall|a: int, b: int|
            0 <= a <= b < r.len() implies (#[trigger] r[a]).0 >= (#[trigger] r[b]).0 by {
            if a == 0 && b > 0 {
                let ri = insert_sorted(tl, x);
                assert(r[b] == ri[b - 1]);
                if tl.len() == 0 {
                    assert(ri == seq![x]);
                } else if tl[0].0 >= x.0 {
                    assert(ri[0] == tl[0]);
                    assert(ri[b - 1].0 <= ri[0].0);
                    assert(bs[0].0 >= tl[0].0);
                } else {
                    assert(ri == seq![x] + tl);
                    assert(ri[b - 1].0 <= ri[0].0);
                }
            } else if a > 0 {
                let ri = insert_sorted(tl, x);
                assert(r[a] == ri[a - 1] && r[b] == ri[b - 1]);
            }
        }
    }
}

/// The ranked list is sorted descending and never longer than its cap.
pub proof fn lemma_topk_props(es: Seq<EntryV>, nb: int)
    ensures
        sorted_desc(topk_spec(es, nb)),
        topk_spec(es, nb).len() <= (if nb <= 0 {
            0int
        } else {
            nb
        }),
        nb <= 0 ==> topk_spec(es, nb) == Seq::<(int, StaticEventV)>::empty(),
    decreases es.len(),
{
    if !(nb <= 0 || es.len() == 0) {
        lemma_topk_props(es.drop_last(), nb);
        lemma_insert_sorted_props(topk_spec(es.drop_last(), nb), (es.last().l, es.last().ev));
        let ins = insert_sorted(topk_spec(es.drop_last(), nb), (es.last().l, es.last().ev));
        assert forall|a: int, b: int|
            0 <= a <= b < trunc_best(ins, nb).len() implies (#[trigger] trunc_best(ins, nb)[a]).0
            >= (#[trigger] trunc_best(ins, nb)[b]).0 by {
            assert(trunc_best(ins, nb)[a] == ins[a] && trunc_best(ins, nb)[b] == ins[b]);
        }
    }
}

/// Sum of the survivors' likelihoods.
pub open spec fn sum_l(es: Seq<EntryV>) -> int
    decreases es.len(),
{
    if es.len() == 0 {
        0
    } else {
        sum_l(es.drop_last()) + es.last().l
    }
}

/// Sum of the survivors' likelihood-weighted mismatch counts.
pub open spec fn sum_err(es: Seq<EntryV>) -> int
    decreases es.len(),
{
    if es.len() == 0 {
        0
    } else {
        sum_err(es.drop_last()) + es.last().l * es.last().k_err
    }
}

/// Weighted count that the V-choice accumulator cell `c` gathers.
pub open spec fn sum_v_cell(es: Seq<EntryV>, c: int) -> int
    decreases es.len(),
{
    if es.len() == 0 {
        0
    } else {
        sum_v_cell(es.drop_last(), c) + if es.last().ev.v_index == c {
            es.last().l
        } else {
            0
        }
    }
}

/// Weighted count that the D/J-choice accumulator cell `c` gathers.
pub open spec fn sum_dj_cell(es: Seq<EntryV>, d0: int, d1: int, c: int) -> int
    decreases es.len(),
{
    if es.len() == 0 {
        0
    } else {
        let e = es.last();
        sum_dj_cell(es.drop_last(), d0, d1, c) + if 0 <= e.ev.d_index < d0 && 0 <= e.ev.j_index
            < d1 && e.ev.d_index * d1 + e.ev.j_index == c {
            e.l
        } else {
            0
        }
    }
}

/// Weighted count that the V-deletion accumulator cell `c` gathers.
pub open spec fn sum_delv_cell(es: Seq<EntryV>, gsize: int, ngroups: int, c: int) -> int
    decreases es.len(),
{
    if es.len() == 0 {
        0
    } else {
        let e = es.last();
        sum_delv_cell(es.drop_last(), gsize, ngroups, c) + if 0 <= e.ev.delv < gsize && 0
            <= e.ev.v_index < ngroups && e.ev.v_index * gsize + e.ev.delv == c {
            e.l
        } else {
            0
        }
    }
}

/// Weighted count that the J-deletion accumulator cell `c` gathers.
pub open spec fn sum_delj_cell(es: Seq<EntryV>, gsize: int, ngroups: int, c: int) -> int
    decreases es.len(),
{
    if es.len() == 0 {
        0
    } else {
        let e = es.last();
        sum_delj_cell(es.drop_last(), gsize, ngroups, c) + if 0 <= e.ev.delj < gsize && 0
            <= e.ev.j_index < ngroups && e.ev.j_index * gsize + e.ev.delj == c {
            e.l
        } else {
            0
        }
    }
}

/// Weighted count that the D-deletion-pair accumulator cell `c` gathers.
pub open spec fn sum_deld_cell(
    es: Seq<EntryV>,
    d0: int,
    d1: int,
    gsize: int,
    ngroups: int,
    c: int,
) -> int
    decreases es.len(),
{
    if es.len() == 0 {
        0
    } else {
        let e = es.last();
        sum_deld_cell(es.drop_last(), d0, d1, gsize, ngroups, c) + if 0 <= e.ev.deld3 < d0 && 0
            <= e.ev.deld5 < d1 && 0 <= e.ev.d_index < ngroups && e.ev.d_index * gsize + e.ev.deld3
            * d1 + e.ev.deld5 == c {
            e.l
        } else {
            0
        }
    }
}

/// Weighted count that an insertion-length accumulator cell `c` gathers;
/// `vd` selects which junction.
pub open spec fn sum_inslen_cell(es: Seq<EntryV>, vd: bool, c: int) -> int
    decreases es.len(),
{
    if es.len() == 0 {
        0
    } else {
        let e = es.last();
        let ins = if vd {
            e.ev.insvd
        } else {
            e.ev.insdj
        };
        sum_inslen_cell(es.drop_last(), vd, c) + if ins.len() == c {
            e.l
        } else {
            0
        }
    }
}

/// Weighted count that a first-base accumulator cell `c` gathers.
pub open spec fn sum_insfirst_cell(es: Seq<EntryV>, vd: bool, c: int) -> int
    decreases es.len(),
{
    if es.len() == 0 {
        0
    } else {
        let e = es.last();
        let ins = if vd {
            e.ev.insvd
        } else {
            e.ev.insdj
        };
        sum_insfirst_cell(es.drop_last(), vd, c) + if ins.len() > 0 && ins[0] == c {
            e.l
        } else {
            0
        }
    }
}

/// Weighted count that a base-transition accumulator cell `c` gathers.
pub open spec fn sum_instrans_cell(es: Seq<EntryV>, vd: bool, c: int) -> int
    decreases es.len(),
{
    if es.len() == 0 {
        0
    } else {
        let e = es.last();
        let ins = if vd {
            e.ev.insvd
        } else {
            e.ev.insdj
        };
        sum_instrans_cell(es.drop_last(), vd, c) + e.l * pcount(ins, c)
    }
}

/// Every parameter of the feature set (tables, shapes, rate, floor) is
/// the same in `a` and `b`; only accumulators may differ.
pub open spec fn params_eq(a: Features, b: Features) -> bool {
    &&& a.v.t.probs@ == b.v.t.probs@ && a.v.t.gsize == b.v.t.gsize && a.v.t.ngroups
        == b.v.t.ngroups && a.v.tag == b.v.tag
    &&& a.delv.t.probs@ == b.delv.t.probs@ && a.delv.t.gsize == b.delv.t.gsize
        && a.delv.t.ngroups == b.delv.t.ngroups && a.delv.tag == b.delv.tag
    &&& a.dj.t.probs@ == b.dj.t.probs@ && a.dj.t.gsize == b.dj.t.gsize && a.dj.t.ngroups
        == b.dj.t.ngroups && a.dj.d0 == b.dj.d0 && a.dj.d1 == b.dj.d1 && a.dj.tag == b.dj.tag
    &&& a.delj.t.probs@ == b.delj.t.probs@ && a.delj.t.gsize == b.delj.t.gsize
        && a.delj.t.ngroups == b.delj.t.ngroups && a.delj.tag == b.delj.tag
    &&& a.deld.t.probs@ == b.deld.t.probs@ && a.deld.t.gsize == b.deld.t.gsize
        && a.deld.t.ngroups == b.deld.t.ngroups && a.deld.d0 == b.deld.d0 && a.deld.d1
        == b.deld.d1 && a.deld.tag == b.deld.tag
    &&& a.insvd.len_t.probs@ == b.insvd.len_t.probs@ && a.insvd.len_t.gsize
        == b.insvd.len_t.gsize && a.insvd.len_t.ngroups == b.insvd.len_t.ngroups
    &&& a.insvd.bias_t.probs@ == b.insvd.bias_t.probs@ && a.insvd.bias_t.gsize
        == b.insvd.bias_t.gsize && a.insvd.bias_t.ngroups == b.insvd.bias_t.ngroups
    &&& a.insvd.markov_t.probs@ == b.insvd.markov_t.probs@ && a.insvd.markov_t.gsize
        == b.insvd.markov_t.gsize && a.insvd.markov_t.ngroups == b.insvd.markov_t.ngroups
        && a.insvd.tag == b.insvd.tag
    &&& a.insdj.len_t.probs@ == b.insdj.len_t.probs@ && a.insdj.len_t.gsize
        == b.insdj.len_t.gsize && a.insdj.len_t.ngroups == b.insdj.len_t.ngroups
    &&& a.insdj.bias_t.probs@ == b.insdj.bias_t.probs@ && a.insdj.bias_t.gsize
        == b.insdj.bias_t.gsize && a.insdj.bias_t.ngroups == b.insdj.bias_t.ngroups
    &&& a.insdj.markov_t.probs@ == b.insdj.markov_t.probs@ && a.insdj.markov_t.gsize
        == b.insdj.markov_t.gsize && a.insdj.markov_t.ngroups == b.insdj.markov_t.ngroups
        && a.insdj.tag == b.insdj.tag
    &&& a.error.rate == b.error.rate && a.error.floor == b.error.floor
}

/// The accumulators of `n` hold those of `o` plus every survivor's
/// weighted statistics: its likelihood into the cells its realized
/// indices select, its weighted transition counts, and its weighted
/// mismatch count with the total weight.
pub open spec fn accum_ok(o: Features, n: Features, es: Seq<EntryV>) -> bool {
    &&& n.v.t.dirty@.len() == o.v.t.dirty@.len()
    &&& forall|c: int|
        0 <= c < o.v.t.dirty@.len() ==> #[trigger] n.v.t.dirty@[c] == o.v.t.dirty@[c]
            + sum_v_cell(es, c)
    &&& n.dj.t.dirty@.len() == o.dj.t.dirty@.len()
    &&& forall|c: int|
        0 <= c < o.dj.t.dirty@.len() ==> #[trigger] n.dj.t.dirty@[c] == o.dj.t.dirty@[c]
            + sum_dj_cell(es, o.dj.d0 as int, o.dj.d1 as int, c)
    &&& n.delv.t.dirty@.len() == o.delv.t.dirty@.len()
    &&& forall|c: int|
        0 <= c < o.delv.t.dirty@.len() ==> #[trigger] n.delv.t.dirty@[c] == o.delv.t.dirty@[c]
            + sum_delv_cell(es, o.delv.t.gsize as int, o.delv.t.ngroups as int, c)
    &&& n.delj.t.dirty@.len() == o.delj.t.dirty@.len()
    &&& forall|c: int|
        0 <= c < o.delj.t.dirty@.len() ==> #[trigger] n.delj.t.dirty@[c] == o.delj.t.dirty@[c]
            + sum_delj_cell(es, o.delj.t.gsize as int, o.delj.t.ngroups as int, c)
    &&& n.deld.t.dirty@.len() == o.deld.t.dirty@.len()
    &&& forall|c: int|
        0 <= c < o.deld.t.dirty@.len() ==> #[trigger] n.deld.t.dirty@[c] == o.deld.t.dirty@[c]
            + sum_deld_cell(
            es,
            o.deld.d0 as int,
            o.deld.d1 as int,
            o.deld.t.gsize as int,
            o.deld.t.ngroups as int,
            c,
        )
    &&& n.insvd.len_t.dirty@.len() == o.insvd.len_t.dirty@.len()
    &&& forall|c: int|
        0 <= c < o.insvd.len_t.dirty@.len() ==> #[trigger] n.insvd.len_t.dirty@[c]
            == o.insvd.len_t.dirty@[c] + sum_inslen_cell(es, true, c)
    &&& n.insvd.bias_t.dirty@.len() == o.insvd.bias_t.dirty@.len()
    &&& forall|c: int|
        0 <= c < o.insvd.bias_t.dirty@.len() ==> #[trigger] n.insvd.bias_t.dirty@[c]
            == o.insvd.bias_t.dirty@[c] + sum_insfirst_cell(es, true, c)
    &&& n.insvd.markov_t.dirty@.len() == o.insvd.markov_t.dirty@.len()
    &&& forall|c: int|
        0 <= c < o.insvd.markov_t.dirty@.len() ==> #[trigger] n.insvd.markov_t.dirty@[c]
            == o.insvd.markov_t.dirty@[c] + sum_instrans_cell(es, true, c)
    &&& n.insdj.len_t.dirty@.len() == o.insdj.len_t.dirty@.len()
    &&& forall|c: int|
        0 <= c < o.insdj.len_t.dirty@.len() ==> #[trigger] n.insdj.len_t.dirty@[c]
            == o.insdj.len_t.dirty@[c] + sum_inslen_cell(es, false, c)
    &&& n.insdj.bias_t.dirty@.len() == o.insdj.bias_t.dirty@.len()
    &&& forall|c: int|
        0 <= c < o.insdj.bias_t.dirty@.len() ==> #[trigger] n.insdj.bias_t.dirty@[c]
            == o.insdj.bias_t.dirty@[c] + sum_insfirst_cell(es, false, c)
    &&& n.insdj.markov_t.dirty@.len() == o.insdj.markov_t.dirty@.len()
    &&& forall|c: int|
        0 <= c < o.insdj.markov_t.dirty@.len() ==> #[trigger] n.insdj.markov_t.dirty@[c]
            == o.insdj.markov_t.dirty@[c] + sum_instrans_cell(es, false, c)
    &&& n.error.dirty_err == o.error.dirty_err + sum_err(es)
    &&& n.error.dirty_weight == o.error.dirty_weight + sum_l(es)
}

/// Headroom every accumulator cell must leave before an `infer` call.
pub const ACC_ROOM: u128 = 0x10_0000_0000_0000_0000_0000_0000;

/// Largest weighted mass one survivor can add to any one accumulator
/// cell.
pub const ACC_STEP: u128 = 0x1_0000_0000_0000_0000;

/// Largest number of candidate combinations one `infer` call may
/// enumerate.
pub const NCOMBO_MAX: usize = 0x100_0000;

/// Every accumulator cell of the feature set is at most `b`.
pub open spec fn dirty_bounded(f: Features, b: int) -> bool {
    &&& forall|c: int| 0 <= c < f.v.t.dirty@.len() ==> #[trigger] f.v.t.dirty@[c] <= b
    &&& forall|c: int| 0 <= c < f.dj.t.dirty@.len() ==> #[trigger] f.dj.t.dirty@[c] <= b
    &&& forall|c: int| 0 <= c < f.delv.t.dirty@.len() ==> #[trigger] f.delv.t.dirty@[c] <= b
    &&& forall|c: int| 0 <= c < f.delj.t.dirty@.len() ==> #[trigger] f.delj.t.dirty@[c] <= b
    &&& forall|c: int| 0 <= c < f.deld.t.dirty@.len() ==> #[trigger] f.deld.t.dirty@[c] <= b
    &&& forall|c: int|
        0 <= c < f.insvd.len_t.dirty@.len() ==> #[trigger] f.insvd.len_t.dirty@[c] <= b
    &&& forall|c: int|
        0 <= c < f.insvd.bias_t.dirty@.len() ==> #[trigger] f.insvd.bias_t.dirty@[c] <= b
    &&& forall|c: int|
        0 <= c < f.insvd.markov_t.dirty@.len() ==> #[trigger] f.insvd.markov_t.dirty@[c] <= b
    &&& forall|c: int|
        0 <= c < f.insdj.len_t.dirty@.len() ==> #[trigger] f.insdj.len_t.dirty@[c] <= b
    &&& forall|c: int|
        0 <= c < f.insdj.bias_t.dirty@.len() ==> #[trigger] f.insdj.bias_t.dirty@[c] <= b
    &&& forall|c: int|
        0 <= c < f.insdj.markov_t.dirty@.len() ==> #[trigger] f.insdj.markov_t.dirty@[c] <= b
    &&& f.error.dirty_err <= b
    &&& f.error.dirty_weight <= b
}

/// Inserts `x` into the descending list behind every entry at least as
/// likely, then caps the list at `cap` entries.
fn insert_in_order(bs: Vec<(u64, StaticEvent)>, x: (u64, StaticEvent), cap: usize) -> (r: Vec<
    (u64, StaticEvent),
>)
    ensures
        best_view(r@) == trunc_best(insert_sorted(best_view(bs@), (x.0 as int, x.1@)), cap as int),
{
    let ghost bv0 = best_view(bs@);
    let ghost xv = (x.0 as int, x.1@);
    let mut bs = bs;
    let mut pos: usize = 0;
    while pos < bs.len() && bs[pos].0 >= x.0
        invariant
            pos <= bs@.len(),
            forall|k: int| 0 <= k < pos ==> (#[trigger] bs@[k]).0 >= x.0,
        decreases bs@.len() - pos,
    {
        pos = pos + 1;
    }
    proof {
        assert forall|k: int| 0 <= k < pos implies (#[trigger] bv0[k]).0 >= xv.0 by {
            assert(bv0[k] == ((bs@[k].0 as int, bs@[k].1@)));
        }
        if pos < bs@.len() {
            assert(bv0[pos as int].0 < xv.0);
        }
        lemma_insert_sorted_at(bv0, xv, pos as int);
    }
    bs.insert(pos, x);
    proof {
        assert(best_view(bs@) =~= bv0.take(pos as int) + seq![xv] + bv0.skip(pos as int));
    }
    if bs.len() > cap {
        bs.truncate(cap);
        proof {
            assert(best_view(bs@) =~= insert_sorted(bv0, xv).take(cap as int));
        }
    }
    bs
}

impl Features {
    /// Folds one survivor's weighted statistics into every accumulator.
    fn accumulate_entry(&mut self, l: u64, k_err: u64, ev: &StaticEvent, Ghost(b): Ghost<int>)
        requires
            old(self).wf(),
            dirty_bounded(*old(self), b),
            0 <= b,
            b + ACC_STEP <= u128::MAX,
            l <= SCALE,
            k_err <= K_ERR_MAX,
            ev.insvd@.len() <= crate::sequence::SEQ_MAX,
            ev.insdj@.len() <= crate::sequence::SEQ_MAX,
        ensures
            final(self).wf(),
            params_eq(*final(self), *old(self)),
            dirty_bounded(*final(self), b + ACC_STEP),
            final(self).v.t.dirty@ == dirty_after(
                old(self).v.t.dirty@,
                ev.v_index as int,
                l as int,
            ),
            final(self).dj.t.dirty@ == (if 0 <= (ev.d_index as int) < old(self).dj.d0 && 0 <= (
            ev.j_index as int) < old(self).dj.d1 {
                dirty_after(
                    old(self).dj.t.dirty@,
                    old(self).dj.idx(ev.d_index as int, ev.j_index as int),
                    l as int,
                )
            } else {
                old(self).dj.t.dirty@
            }),
            final(self).delv.t.dirty@ == (if 0 <= (ev.delv as int) < old(self).delv.t.gsize && 0
                <= (ev.v_index as int) < old(self).delv.t.ngroups {
                dirty_after(
                    old(self).delv.t.dirty@,
                    old(self).delv.idx(ev.delv as int, ev.v_index as int),
                    l as int,
                )
            } else {
                old(self).delv.t.dirty@
            }),
            final(self).delj.t.dirty@ == (if 0 <= (ev.delj as int) < old(self).delj.t.gsize && 0
                <= (ev.j_index as int) < old(self).delj.t.ngroups {
                dirty_after(
                    old(self).delj.t.dirty@,
                    old(self).delj.idx(ev.delj as int, ev.j_index as int),
                    l as int,
                )
            } else {
                old(self).delj.t.dirty@
            }),
            final(self).deld.t.dirty@ == (if 0 <= (ev.deld3 as int) < old(self).deld.d0 && 0 <= (
            ev.deld5 as int) < old(self).deld.d1 && 0 <= (ev.d_index as int) < old(
                self,
            ).deld.t.ngroups {
                dirty_after(
                    old(self).deld.t.dirty@,
                    old(self).deld.idx(ev.deld3 as int, ev.deld5 as int, ev.d_index as int),
                    l as int,
                )
            } else {
                old(self).deld.t.dirty@
            }),
            final(self).insvd.len_t.dirty@ == dirty_after(
                old(self).insvd.len_t.dirty@,
                ev.insvd@.len() as int,
                l as int,
            ),
            final(self).insvd.bias_t.dirty@ == (if ev.insvd@.len() > 0 {
                dirty_after(old(self).insvd.bias_t.dirty@, ev.insvd@[0] as int, l as int)
            } else {
                old(self).insvd.bias_t.dirty@
            }),
            final(self).insvd.markov_t.dirty@.len() == old(self).insvd.markov_t.dirty@.len(),
            forall|c: int|
                0 <= c < old(self).insvd.markov_t.dirty@.len() ==> #[trigger] final(self).insvd.markov_t.dirty@[c] == old(self).insvd.markov_t.dirty@[c] + l * pcount(
                    ev.insvd@,
                    c,
                ),
            final(self).insdj.len_t.dirty@ == dirty_after(
                old(self).insdj.len_t.dirty@,
                ev.insdj@.len() as int,
                l as int,
            ),
            final(self).insdj.bias_t.dirty@ == (if ev.insdj@.len() > 0 {
                dirty_after(old(self).insdj.bias_t.dirty@, ev.insdj@[0] as int, l as int)
            } else {
                old(self).insdj.bias_t.dirty@
            }),
            final(self).insdj.markov_t.dirty@.len() == old(self).insdj.markov_t.dirty@.len(),
            forall|c: int|
                0 <= c < old(self).insdj.markov_t.dirty@.len() ==> #[trigger] final(self).insdj.markov_t.dirty@[c] == old(self).insdj.markov_t.dirty@[c] + l * pcount(
                    ev.insdj@,
                    c,
                ),
            final(self).error.dirty_err == old(self).error.dirty_err + (l as int) * (
            k_err as int),
            final(self).error.dirty_weight == old(self).error.dirty_weight + l,
    {
        proof {
            assert((l as int) * (ev.insvd@.len() as int) < ACC_STEP) by (nonlinear_arith)
                requires
                    l <= 1_000_000_000 && ev.insvd@.len() <= 0x100_0000 && ACC_STEP
                        == 0x1_0000_0000_0000_0000,
            ;
            assert((l as int) * (ev.insdj@.len() as int) < ACC_STEP) by (nonlinear_arith)
                requires
                    l <= 1_000_000_000 && ev.insdj@.len() <= 0x100_0000 && ACC_STEP
                        == 0x1_0000_0000_0000_0000,
            ;
            assert((l as int) * (k_err as int) < ACC_STEP) by (nonlinear_arith)
                requires
                    l <= 1_000_000_000 && k_err <= 3 * 0xffff_ffffu64 && ACC_STEP
                        == 0x1_0000_0000_0000_0000,
            ;
            assert(0 <= (l as int) * (k_err as int)) by (nonlinear_arith)
                requires 0 <= l && 0 <= k_err;
        }
        self.v.dirty_update(ev.v_index, l);
        self.dj.dirty_update((ev.d_index, ev.j_index), l);
        self.delv.dirty_update((ev.delv, ev.v_index), l);
        self.delj.dirty_update((ev.delj, ev.j_index), l);
        self.deld.dirty_update((ev.deld3, ev.deld5, ev.d_index), l);
        self.insvd.dirty_update(&ev.insvd, l);
        self.insdj.dirty_update(&ev.insdj, l);
        self.error.dirty_update(k_err, l);
        proof {
            let nb = b + ACC_STEP;
            assert forall|c: int|
                0 <= c < self.insvd.markov_t.dirty@.len() implies #[trigger] self.insvd.markov_t.dirty@[c]
                <= nb by {
                crate::feature::lemma_pcount_bound(ev.insvd@, c);
                assert((l as int) * pcount(ev.insvd@, c) <= (l as int) * (ev.insvd@.len() as int))
                    by (nonlinear_arith)
                    requires
                        0 <= l && 0 <= pcount(ev.insvd@, c) <= ev.insvd@.len(),
                ;
            }
            assert forall|c: int|
                0 <= c < self.insdj.markov_t.dirty@.len() implies #[trigger] self.insdj.markov_t.dirty@[c]
                <= nb by {
                crate::feature::lemma_pcount_bound(ev.insdj@, c);
                assert((l as int) * pcount(ev.insdj@, c) <= (l as int) * (ev.insdj@.len() as int))
                    by (nonlinear_arith)
                    requires
                        0 <= l && 0 <= pcount(ev.insdj@, c) <= ev.insdj@.len(),
                ;
            }
        }
    }
}

/// Survivor counts are bounded by the enumerated choice counts.
pub proof fn lemma_enum_d3_len(
    f: Features,
    nt: Seq<u8>,
    v: VJAlignment,
    delv: int,
    j: VJAlignment,
    delj: int,
    d: DAlignment,
    deld5: int,
    min_l: int,
    n3: int,
)
    requires
        n3 >= 0,
    ensures
        enum_d3(f, nt, v, delv, j, delj, d, deld5, min_l, n3).len() <= n3,
    decreases n3,
{
    if n3 > 0 {
        lemma_enum_d3_len(f, nt, v, delv, j, delj, d, deld5, min_l, n3 - 1);
    }
}

/// Survivor counts are bounded by the enumerated choice counts.
pub proof fn lemma_enum_d5_len(
    f: Features,
    nt: Seq<u8>,
    v: VJAlignment,
    delv: int,
    j: VJAlignment,
    delj: int,
    d: DAlignment,
    min_l: int,
    n5: int,
)
    requires
        n5 >= 0,
    ensures
        enum_d5(f, nt, v, delv, j, delj, d, min_l, n5).len() <= n5 * nd3_dim(f),
    decreases n5,
{
    if n5 > 0 {
        lemma_enum_d5_len(f, nt, v, delv, j, delj, d, min_l, n5 - 1);
        lemma_enum_d3_len(f, nt, v, delv, j, delj, d, n5 - 1, min_l, nd3_dim(f));
        assert((n5 - 1) * nd3_dim(f) + nd3_dim(f) == n5 * nd3_dim(f)) by (nonlinear_arith);
    } else {
        assert(n5 * nd3_dim(f) == 0) by (nonlinear_arith)
            requires n5 == 0;
    }
}

/// Survivor counts are bounded by the enumerated choice counts.
pub proof fn lemma_enum_d_len(
    f: Features,
    nt: Seq<u8>,
    v: VJAlignment,
    delv: int,
    j: VJAlignment,
    delj: int,
    ds: Seq<DAlignment>,
    min_l: int,
    nd: int,
)
    requires
        nd >= 0,
    ensures
        enum_d(f, nt, v, delv, j, delj, ds, min_l, nd).len() <= nd * (nd5_dim(f) * nd3_dim(f)),
    decreases nd,
{
    let blk = nd5_dim(f) * nd3_dim(f);
    if nd > 0 {
        lemma_enum_d_len(f, nt, v, delv, j, delj, ds, min_l, nd - 1);
        lemma_enum_d5_len(f, nt, v, delv, j, delj, ds[nd - 1], min_l, nd5_dim(f));
        assert((nd - 1) * blk + blk == nd * blk) by (nonlinear_arith);
    } else {
        assert(nd * blk == 0) by (nonlinear_arith)
            requires nd == 0;
    }
}

/// Survivor counts are bounded by the enumerated choice counts.
pub proof fn lemma_enum_dj_len(
    f: Features,
    nt: Seq<u8>,
    v: VJAlignment,
    delv: int,
    j: VJAlignment,
    ds: Seq<DAlignment>,
    min_l: int,
    ndj: int,
)
    requires
        ndj >= 0,
    ensures
        enum_dj(f, nt, v, delv, j, ds, min_l, ndj).len() <= ndj * (ds.len() * (nd5_dim(f)
            * nd3_dim(f))),
    decreases ndj,
{
    let blk = ds.len() * (nd5_dim(f) * nd3_dim(f));
    if ndj > 0 {
        lemma_enum_dj_len(f, nt, v, delv, j, ds, min_l, ndj - 1);
        lemma_enum_d_len(f, nt, v, delv, j, ndj - 1, ds, min_l, ds.len() as int);
        assert((ndj - 1) * blk + blk == ndj * blk) by (nonlinear_arith);
    } else {
        assert(ndj * blk == 0) by (nonlinear_arith)
            requires ndj == 0;
    }
}

/// Survivor counts are bounded by the enumerated choice counts.
pub proof fn lemma_enum_j_len(
    f: Features,
    nt: Seq<u8>,
    v: VJAlignment,
    delv: int,
    js: Seq<VJAlignment>,
    ds: Seq<DAlignment>,
    min_l: int,
    nj: int,
)
    requires
        nj >= 0,
    ensures
        enum_j(f, nt, v, delv, js, ds, min_l, nj).len() <= nj * (ndj_dim(f) * (ds.len() * (
        nd5_dim(f) * nd3_dim(f)))),
    decreases nj,
{
    let blk = ndj_dim(f) * (ds.len() * (nd5_dim(f) * nd3_dim(f)));
    if nj > 0 {
        lemma_enum_j_len(f, nt, v, delv, js, ds, min_l, nj - 1);
        lemma_enum_dj_len(f, nt, v, delv, js[nj - 1], ds, min_l, ndj_dim(f));
        assert((nj - 1) * blk + blk == nj * blk) by (nonlinear_arith);
    } else {
        assert(nj * blk == 0) by (nonlinear_arith)
            requires nj == 0;
    }
}

/// Survivor counts are bounded by the enumerated choice counts.
pub proof fn lemma_enum_delv_len(
    f: Features,
    nt: Seq<u8>,
    v: VJAlignment,
    js: Seq<VJAlignment>,
    ds: Seq<DAlignment>,
    min_l: int,
    ndv: int,
)
    requires
        ndv >= 0,
    ensures
        enum_delv(f, nt, v, js, ds, min_l, ndv).len() <= ndv * (js.len() * (ndj_dim(f) * (
        ds.len() * (nd5_dim(f) * nd3_dim(f))))),
    decreases ndv,
{
    let blk = js.len() * (ndj_dim(f) * (ds.len() * (nd5_dim(f) * nd3_dim(f))));
    if ndv > 0 {
        lemma_enum_delv_len(f, nt, v, js, ds, min_l, ndv - 1);
        lemma_enum_j_len(f, nt, v, ndv - 1, js, ds, min_l, js.len() as int);
        assert((ndv - 1) * blk + blk == ndv * blk) by (nonlinear_arith);
    } else {
        assert(ndv * blk == 0) by (nonlinear_arith)
            requires ndv == 0;
    }
}

/// Number of candidate event combinations the enumeration visits.
pub open spec fn n_combos(f: Features, s: Sequence) -> int {
    s.v_genes@.len() * (ndv_dim(f) * (s.j_genes@.len() * (ndj_dim(f) * (s.d_genes@.len() * (
    nd5_dim(f) * nd3_dim(f))))))
}

/// There are no more survivors than candidate combinations.
pub proof fn lemma_survivors_len(f: Features, s: Sequence, min_l: int, nv: int)
    requires
        nv >= 0,
    ensures
        enum_v(f, s.seq@, s.v_genes@, s.j_genes@, s.d_genes@, min_l, nv).len() <= nv * (ndv_dim(f)
            * (s.j_genes@.len() * (ndj_dim(f) * (s.d_genes@.len() * (nd5_dim(f) * nd3_dim(
            f,
        )))))),
    decreases nv,
{
    let blk = ndv_dim(f) * (s.j_genes@.len() * (ndj_dim(f) * (s.d_genes@.len() * (nd5_dim(f)
        * nd3_dim(f)))));
    if nv > 0 {
        lemma_survivors_len(f, s, min_l, nv - 1);
        lemma_enum_delv_len(
            f,
            s.seq@,
            s.v_genes@[nv - 1],
            s.j_genes@,
            s.d_genes@,
            min_l,
            ndv_dim(f),
        );
        assert((nv - 1) * blk + blk == nv * blk) by (nonlinear_arith);
    } else {
        assert(nv * blk == 0) by (nonlinear_arith)
            requires nv == 0;
    }
}

/// The read's total generation probability at pruning threshold
/// `min_l`: the sum of every surviving event's likelihood.
pub open spec fn gen_prob_spec(f: Features, s: Sequence, min_l: int) -> int {
    sum_l(survivors_spec(f, s, min_l))
}

impl Features {
    /// Folds the survivors, in enumeration order, into the accumulators,
    /// the probability sum and the ranked-event list.
    #[verifier::rlimit(100)]
    fn accumulate(&mut self, survivors: Vec<SurvEntry>, nb_best_events: usize) -> (r: (
        u64,
        Vec<(u64, StaticEvent)>,
    ))
        requires
            old(self).wf(),
            dirty_bounded(*old(self), ACC_ROOM as int),
            survivors@.len() <= NCOMBO_MAX,
            entries_bounded(survivors@),
        ensures
            final(self).wf(),
            params_eq(*final(self), *old(self)),
            accum_ok(*old(self), *final(self), sevs(survivors@)),
            r.0 as int == sum_l(sevs(survivors@)),
            best_view(r.1@) == topk_spec(sevs(survivors@), nb_best_events as int),
    {
        let ghost all = survivors@;
        let mut rest = survivors;
        let n: usize = rest.len();
        let mut prob: u64 = 0;
        let mut best: Vec<(u64, StaticEvent)> = Vec::new();
        let mut i: usize = 0;
        proof {
            assert(sevs(all).take(0) =~= Seq::<EntryV>::empty());
            assert(all.skip(0) =~= all);
            assert(0int * (SCALE as int) == 0) by (nonlinear_arith);
            assert(0int * (ACC_STEP as int) == 0) by (nonlinear_arith);
        }
        while i < n
            invariant
                i <= n,
                n == all.len(),
                rest@ == all.skip(i as int),
                entries_bounded(all),
                all.len() <= NCOMBO_MAX,
                self.wf(),
                params_eq(*self, *old(self)),
                accum_ok(*old(self), *self, sevs(all).take(i as int)),
                dirty_bounded(*self, ACC_ROOM + (i as int) * (ACC_STEP as int)),
                prob as int == sum_l(sevs(all).take(i as int)),
                prob as int <= (i as int) * (SCALE as int),
                best_view(best@) == topk_spec(sevs(all).take(i as int), nb_best_events as int),
            decreases n - i,
        {
            proof {
                assert(all.skip(i as int)[0] == all[i as int]);
                assert(all.skip(i as int).remove(0) =~= all.skip(i + 1));
                assert(sevs(all).take(i + 1).drop_last() =~= sevs(all).take(i as int));
                assert(sevs(all).take(i + 1).last() == sev(all[i as int]));
                assert((i as int) * (ACC_STEP as int) + ACC_STEP == (i + 1) * (ACC_STEP as int))
                    by (nonlinear_arith);
                assert((i + 1) * (ACC_STEP as int) <= (NCOMBO_MAX as int) * (ACC_STEP as int))
                    by (nonlinear_arith)
                    requires i + 1 <= NCOMBO_MAX;
                assert((ACC_ROOM as int) + (NCOMBO_MAX as int) * (ACC_STEP as int) + ACC_STEP
                    <= u128::MAX) by (nonlinear_arith)
                    requires
                        ACC_ROOM == 0x10_0000_0000_0000_0000_0000_0000u128 && NCOMBO_MAX
                            == 0x100_0000 && ACC_STEP == 0x1_0000_0000_0000_0000,
                ;
                assert((i as int) * (SCALE as int) + SCALE == (i + 1) * (SCALE as int))
                    by (nonlinear_arith);
                assert((i + 1) * (SCALE as int) <= (NCOMBO_MAX as int) * (SCALE as int))
                    by (nonlinear_arith)
                    requires i + 1 <= NCOMBO_MAX;
                assert((NCOMBO_MAX as int) * (SCALE as int) < u64::MAX) by (nonlinear_arith)
                    requires NCOMBO_MAX == 0x100_0000 && SCALE == 1_000_000_000,
                ;
            }
            let e = rest.remove(0);
            let ghost b_now = ACC_ROOM + (i as int) * (ACC_STEP as int);
            let ghost ev_view = e.ev@;
            let ghost prev = *self;
            self.accumulate_entry(e.l, e.k_err, &e.ev, Ghost(b_now));
            proof {
                let taken1 = sevs(all).take(i + 1);
                let taken0 = sevs(all).take(i as int);
                let o = *old(self);
                let li = e.l as int;
                assert(sev(all[i as int]).ev == ev_view);
                assert(sev(all[i as int]).l == li);
                assert(sev(all[i as int]).k_err == e.k_err as int);
                assert forall|c: int|
                    0 <= c < o.v.t.dirty@.len() implies #[trigger] self.v.t.dirty@[c]
                    == o.v.t.dirty@[c] + sum_v_cell(taken1, c) by {
                    assert(prev.v.t.dirty@[c] == o.v.t.dirty@[c] + sum_v_cell(taken0, c));
                }
                assert forall|c: int|
                    0 <= c < o.dj.t.dirty@.len() implies #[trigger] self.dj.t.dirty@[c]
                    == o.dj.t.dirty@[c] + sum_dj_cell(taken1, o.dj.d0 as int, o.dj.d1 as int, c) by {
                    assert(prev.dj.t.dirty@[c] == o.dj.t.dirty@[c] + sum_dj_cell(
                        taken0,
                        o.dj.d0 as int,
                        o.dj.d1 as int,
                        c,
                    ));
                }
                assert forall|c: int|
                    0 <= c < o.delv.t.dirty@.len() implies #[trigger] self.delv.t.dirty@[c]
                    == o.delv.t.dirty@[c] + sum_delv_cell(
                    taken1,
                    o.delv.t.gsize as int,
                    o.delv.t.ngroups as int,
                    c,
                ) by {
                    assert(prev.delv.t.dirty@[c] == o.delv.t.dirty@[c] + sum_delv_cell(
                        taken0,
                        o.delv.t.gsize as int,
                        o.delv.t.ngroups as int,
                        c,
                    ));
                }
                assert forall|c: int|
                    0 <= c < o.delj.t.dirty@.len() implies #[trigger] self.delj.t.dirty@[c]
                    == o.delj.t.dirty@[c] + sum_delj_cell(
                    taken1,
                    o.delj.t.gsize as int,
                    o.delj.t.ngroups as int,
                    c,
                ) by {
                    assert(prev.delj.t.dirty@[c] == o.delj.t.dirty@[c] + sum_delj_cell(
                        taken0,
                        o.delj.t.gsize as int,
                        o.delj.t.ngroups as int,
                        c,
                    ));
                }
                assert forall|c: int|
                    0 <= c < o.deld.t.dirty@.len() implies #[trigger] self.deld.t.dirty@[c]
                    == o.deld.t.dirty@[c] + sum_deld_cell(
                    taken1,
                    o.deld.d0 as int,
                    o.deld.d1 as int,
                    o.deld.t.gsize as int,
                    o.deld.t.ngroups as int,
                    c,
                ) by {
                    assert(prev.deld.t.dirty@[c] == o.deld.t.dirty@[c] + sum_deld_cell(
                        taken0,
                        o.deld.d0 as int,
                        o.deld.d1 as int,
                        o.deld.t.gsize as int,
                        o.deld.t.ngroups as int,
                        c,
                    ));
                }
                assert forall|c: int|
                    0 <= c < o.insvd.len_t.dirty@.len() implies #[trigger] self.insvd.len_t.dirty@[c]
                    == o.insvd.len_t.dirty@[c] + sum_inslen_cell(taken1, true, c) by {
                    assert(taken1.last() == sev(all[i as int]));
                    assert(taken1.last().ev.insvd == ev_view.insvd);
                    assert(self.insvd.len_t.dirty@ == dirty_after(
                        prev.insvd.len_t.dirty@,
                        ev_view.insvd.len() as int,
                        li,
                    ));
                    assert(prev.insvd.len_t.dirty@[c] == o.insvd.len_t.dirty@[c]
                        + sum_inslen_cell(taken0, true, c));
                }
                assert forall|c: int|
                    0 <= c < o.insvd.bias_t.dirty@.len() implies #[trigger] self.insvd.bias_t.dirty@[c]
                    == o.insvd.bias_t.dirty@[c] + sum_insfirst_cell(taken1, true, c) by {
                    assert(taken1.last() == sev(all[i as int]));
                    assert(taken1.last().ev.insvd == ev_view.insvd);
                    assert(prev.insvd.bias_t.dirty@[c] == o.insvd.bias_t.dirty@[c]
                        + sum_insfirst_cell(taken0, true, c));
                }
                assert forall|c: int|
                    0 <= c < o.insvd.markov_t.dirty@.len() implies #[trigger] self.insvd.markov_t.dirty@[c]
                    == o.insvd.markov_t.dirty@[c] + sum_instrans_cell(taken1, true, c) by {
                    assert(taken1.last() == sev(all[i as int]));
                    assert(taken1.last().ev.insvd == ev_view.insvd);
                    assert(prev.insvd.markov_t.dirty@[c] == o.insvd.markov_t.dirty@[c]
                        + sum_instrans_cell(taken0, true, c));
                    assert(self.insvd.markov_t.dirty@[c] == prev.insvd.markov_t.dirty@[c] + li
                        * pcount(ev_view.insvd, c));
                }
                assert forall|c: int|
                    0 <= c < o.insdj.len_t.dirty@.len() implies #[trigger] self.insdj.len_t.dirty@[c]
                    == o.insdj.len_t.dirty@[c] + sum_inslen_cell(taken1, false, c) by {
                    assert(taken1.last() == sev(all[i as int]));
                    assert(taken1.last().ev.insdj == ev_view.insdj);
                    assert(self.insdj.len_t.dirty@ == dirty_after(
                        prev.insdj.len_t.dirty@,
                        ev_view.insdj.len() as int,
                        li,
                    ));
                    assert(prev.insdj.len_t.dirty@[c] == o.insdj.len_t.dirty@[c]
                        + sum_inslen_cell(taken0, false, c));
                }
                assert forall|c: int|
                    0 <= c < o.insdj.bias_t.dirty@.len() implies #[trigger] self.insdj.bias_t.dirty@[c]
                    == o.insdj.bias_t.dirty@[c] + sum_insfirst_cell(taken1, false, c) by {
                    assert(taken1.last() == sev(all[i as int]));
                    assert(taken1.last().ev.insdj == ev_view.insdj);
                    assert(prev.insdj.bias_t.dirty@[c] == o.insdj.bias_t.dirty@[c]
                        + sum_insfirst_cell(taken0, false, c));
                }
                assert forall|c: int|
                    0 <= c < o.insdj.markov_t.dirty@.len() implies #[trigger] self.insdj.markov_t.dirty@[c]
                    == o.insdj.markov_t.dirty@[c] + sum_instrans_cell(taken1, false, c) by {
                    assert(taken1.last() == sev(all[i as int]));
                    assert(taken1.last().ev.insdj == ev_view.insdj);
                    assert(prev.insdj.markov_t.dirty@[c] == o.insdj.markov_t.dirty@[c]
                        + sum_instrans_cell(taken0, false, c));
                    assert(self.insdj.markov_t.dirty@[c] == prev.insdj.markov_t.dirty@[c] + li
                        * pcount(ev_view.insdj, c));
                }
                assert(self.error.dirty_err == o.error.dirty_err + sum_err(taken1));
                assert(self.error.dirty_weight == o.error.dirty_weight + sum_l(taken1));
            }
            prob = prob + e.l;
            if nb_best_events > 0 {
                best = insert_in_order(best, (e.l, e.ev), nb_best_events);
                proof {
                    assert(best_view(best@) == topk_spec(
                        sevs(all).take(i + 1),
                        nb_best_events as int,
                    ));
                }
            } else {
                proof {
                    assert(topk_spec(sevs(all).take(i + 1), nb_best_events as int) =~= Seq::<
                        (int, StaticEventV),
                    >::empty());
                }
            }
            i = i + 1;
        }
        proof {
            assert(sevs(all).take(n as int) =~= sevs(all));
        }
        (prob, best)
    }

    /// Per-read inference: enumerates every candidate recombination
    /// event, discards those whose complete likelihood is below the
    /// pruning threshold (or zero), sums the survivors into the read's
    /// generation probability, keeps the `nb_best_events` most likely
    /// events sorted descending (ties keep arrival order), and folds
    /// every survivor's weighted statistics into the accumulators. The
    /// parameters themselves are unchanged.
    pub fn infer(
        &mut self,
        sequence: &Sequence,
        inference_params: &InferenceParameters,
        nb_best_events: usize,
    ) -> (r: (u64, Vec<(u64, StaticEvent)>))
        requires
            old(self).wf(),
            sequence.wf(),
            n_combos(*old(self), *sequence) <= NCOMBO_MAX,
            dirty_bounded(*old(self), ACC_ROOM as int),
        ensures
            final(self).wf(),
            params_eq(*final(self), *old(self)),
            accum_ok(
                *old(self),
                *final(self),
                survivors_spec(*old(self), *sequence, inference_params.min_likelihood as int),
            ),
            r.0 as int == gen_prob_spec(
                *old(self),
                *sequence,
                inference_params.min_likelihood as int,
            ),
            best_view(r.1@) == topk_spec(
                survivors_spec(*old(self), *sequence, inference_params.min_likelihood as int),
                nb_best_events as int,
            ),
            sorted_desc(best_view(r.1@)),
            r.1@.len() <= nb_best_events,
            nb_best_events == 0 ==> r.1@.len() == 0,
    {
        let survivors = self.enumerate(sequence, inference_params.min_likelihood);
        proof {
            lemma_survivors_len(
                *self,
                *sequence,
                inference_params.min_likelihood as int,
                sequence.v_genes@.len() as int,
            );
            lemma_topk_props(sevs(survivors@), nb_best_events as int);
        }
        let (p, best) = self.accumulate(survivors, nb_best_events);
        (p, best)
    }
}

/// Copies a parameter vector.
fn copy_table(src: &Vec<u64>) -> (r: Vec<u64>)
    ensures
        r@ == src@,
{
    let mut out: Vec<u64> = Vec::new();
    let n: usize = src.len();
    for i in 0..n
        invariant
            out@ == src@.take(i as int),
    {
        proof {
            assert(src@.take(i + 1) =~= src@.take(i as int).push(src@[i as int]));
        }
        out.push(src[i]);
    }
    proof {
        assert(src@.take(n as int) =~= src@);
    }
    out
}

/// The V-choice table of a model is valid: probability-range values in
/// one exactly-normalized slice.
pub open spec fn model_v_ok(m: Model) -> bool {
    &&& ProbTable::shape_ok(m.p_v@, 1)
    &&& ProbTable::values_ok(m.p_v@)
    &&& ProbTable::sums_ok(m.p_v@, 1)
}

/// The V-deletion table of a model is valid: one normalized slice of
/// `n_del_v` cells per V segment.
pub open spec fn model_delv_ok(m: Model) -> bool {
    &&& m.n_del_v >= 1
    &&& (m.p_del_v_given_v@.len() as int) % (m.n_del_v as int) == 0
    &&& (m.p_del_v_given_v@.len() as int) / (m.n_del_v as int) == m.p_v@.len()
    &&& ProbTable::shape_ok(m.p_del_v_given_v@, m.p_v@.len() as int)
    &&& ProbTable::values_ok(m.p_del_v_given_v@)
    &&& ProbTable::sums_ok(m.p_del_v_given_v@, m.p_v@.len() as int)
}

/// The joint D/J table of a model is valid: shaped `n_d x n_j` and
/// normalized as a whole.
pub open spec fn model_dj_ok(m: Model) -> bool {
    &&& m.n_d >= 1 && m.n_j >= 1 && m.n_d <= CELLS_MAX && m.n_j <= CELLS_MAX
    &&& (m.n_d as int) * (m.n_j as int) == m.p_dj@.len()
    &&& ProbTable::shape_ok(m.p_dj@, 1)
    &&& ProbTable::values_ok(m.p_dj@)
    &&& ProbTable::sums_ok(m.p_dj@, 1)
}

/// The J-deletion table of a model is valid: one normalized slice of
/// `n_del_j` cells per J segment.
pub open spec fn model_delj_ok(m: Model) -> bool {
    &&& m.n_del_j >= 1
    &&& (m.p_del_j_given_j@.len() as int) % (m.n_del_j as int) == 0
    &&& (m.p_del_j_given_j@.len() as int) / (m.n_del_j as int) == m.n_j
    &&& ProbTable::shape_ok(m.p_del_j_given_j@, m.n_j as int)
    &&& ProbTable::values_ok(m.p_del_j_given_j@)
    &&& ProbTable::sums_ok(m.p_del_j_given_j@, m.n_j as int)
}

/// The D-deletion-pair table of a model is valid: one normalized
/// `n_del_d3 x n_del_d5` slice per D segment.
pub open spec fn model_deld_ok(m: Model) -> bool {
    &&& m.n_del_d3 >= 1 && m.n_del_d5 >= 1 && m.n_del_d3 <= CELLS_MAX && m.n_del_d5 <= CELLS_MAX
    &&& m.n_d >= 1
    &&& (m.p_del_d3_del_d5@.len() as int) % (m.n_d as int) == 0
    &&& (m.n_del_d3 as int) * (m.n_del_d5 as int) == (m.p_del_d3_del_d5@.len() as int) / (
    m.n_d as int)
    &&& ProbTable::shape_ok(m.p_del_d3_del_d5@, m.n_d as int)
    &&& ProbTable::values_ok(m.p_del_d3_del_d5@)
    &&& ProbTable::sums_ok(m.p_del_d3_del_d5@, m.n_d as int)
}

/// The VD-insertion model parameters are valid: a normalized length
/// distribution, a four-symbol normalized bias, and four normalized
/// transition slices of four.
pub open spec fn model_insvd_ok(m: Model) -> bool {
    &&& m.first_nt_bias_ins_vd@.len() == crate::feature::NT
    &&& m.markov_coefficients_vd@.len() == crate::feature::NT * crate::feature::NT
    &&& ProbTable::shape_ok(m.p_ins_vd@, 1)
    &&& ProbTable::values_ok(m.p_ins_vd@)
    &&& ProbTable::sums_ok(m.p_ins_vd@, 1)
    &&& ProbTable::values_ok(m.first_nt_bias_ins_vd@)
    &&& ProbTable::sums_ok(m.first_nt_bias_ins_vd@, 1)
    &&& ProbTable::values_ok(m.markov_coefficients_vd@)
    &&& ProbTable::sums_ok(m.markov_coefficients_vd@, crate::feature::NT as int)
}

/// The DJ-insertion model parameters are valid.
pub open spec fn model_insdj_ok(m: Model) -> bool {
    &&& m.first_nt_bias_ins_dj@.len() == crate::feature::NT
    &&& m.markov_coefficients_dj@.len() == crate::feature::NT * crate::feature::NT
    &&& ProbTable::shape_ok(m.p_ins_dj@, 1)
    &&& ProbTable::values_ok(m.p_ins_dj@)
    &&& ProbTable::sums_ok(m.p_ins_dj@, 1)
    &&& ProbTable::values_ok(m.first_nt_bias_ins_dj@)
    &&& ProbTable::sums_ok(m.first_nt_bias_ins_dj@, 1)
    &&& ProbTable::values_ok(m.markov_coefficients_dj@)
    &&& ProbTable::sums_ok(m.markov_coefficients_dj@, crate::feature::NT as int)
}

/// The error-model parameters are valid: rate and floor are
/// probabilities.
pub open spec fn model_error_ok(m: Model, ip: InferenceParameters) -> bool {
    &&& m.error_rate <= SCALE
    &&& ip.min_likelihood_error <= SCALE
}

/// The conditions under which a model yields a feature set: every table
/// has a valid shape, probability-range values and exactly-normalized
/// conditioning slices; the conditioned tables agree with the segment
/// counts; the insertion components have four symbols; and the error
/// rate and floor are probabilities.
pub open spec fn model_ok(m: Model, ip: InferenceParameters) -> bool {
    &&& model_v_ok(m)
    &&& model_delv_ok(m)
    &&& model_dj_ok(m)
    &&& model_delj_ok(m)
    &&& model_deld_ok(m)
    &&& model_insvd_ok(m)
    &&& model_insdj_ok(m)
    &&& model_error_ok(m, ip)
}

/// The named sub-model's parameters in `m` are genuinely invalid.
pub open spec fn submodel_invalid(t: SubModel, m: Model, ip: InferenceParameters) -> bool {
    match t {
        SubModel::VGene => !model_v_ok(m),
        SubModel::DelV => !model_delv_ok(m),
        SubModel::DJoint => !model_dj_ok(m),
        SubModel::DelJ => !model_delj_ok(m),
        SubModel::DelD => !model_deld_ok(m),
        SubModel::InsVD => !model_insvd_ok(m),
        SubModel::InsDJ => !model_insdj_ok(m),
        SubModel::ErrorRate => !model_error_ok(m, ip),
    }
}

/// The error names a sub-model whose parameters in `m` are genuinely
/// invalid.
pub open spec fn names_invalid_submodel(e: ModelError, m: Model, ip: InferenceParameters) -> bool {
    match e {
        ModelError::BadShape(t) => submodel_invalid(t, m, ip),
        ModelError::ValueTooLarge(t) => submodel_invalid(t, m, ip),
        ModelError::BadGroupSum(t) => submodel_invalid(t, m, ip),
        ModelError::ShapeMismatch(t) => submodel_invalid(t, m, ip),
        ModelError::AccumulatorOverflow(t) => submodel_invalid(t, m, ip),
        ModelError::EmptyInput => false,
    }
}

/// Every sub-model table of `a` has the shape of `b`'s counterpart,
/// including the two-index tables' dimension splits. (The bias and
/// transition tables of well-formed feature sets always agree: their
/// shapes are fixed at four symbols.)
pub open spec fn features_same_shape(a: Features, b: Features) -> bool {
    &&& a.v.t.same_shape(b.v.t)
    &&& a.dj.t.same_shape(b.dj.t) && a.dj.d0 == b.dj.d0 && a.dj.d1 == b.dj.d1
    &&& a.delv.t.same_shape(b.delv.t)
    &&& a.delj.t.same_shape(b.delj.t)
    &&& a.deld.t.same_shape(b.deld.t) && a.deld.d0 == b.deld.d0 && a.deld.d1 == b.deld.d1
    &&& a.insvd.len_t.same_shape(b.insvd.len_t)
    &&& a.insvd.bias_t.same_shape(b.insvd.bias_t)
    &&& a.insvd.markov_t.same_shape(b.insvd.markov_t)
    &&& a.insdj.len_t.same_shape(b.insdj.len_t)
    &&& a.insdj.bias_t.same_shape(b.insdj.bias_t)
    &&& a.insdj.markov_t.same_shape(b.insdj.markov_t)
}

/// Some accumulator cell of the table is too large to renormalize.
pub open spec fn table_acc_over(t: &ProbTable) -> bool {
    exists|i: int|
        0 <= i < t.dirty@.len() && t.dirty@[i] > crate::table::ACC_RENORM_MAX
}

/// Every accumulator of the feature set can be renormalized: no table
/// cell and no error count above the renormalization bound, and the
/// refreshed error rate within one probability unit.
pub open spec fn features_cleanup_ok(f: Features) -> bool {
    &&& !table_acc_over(&f.v.t)
    &&& !table_acc_over(&f.dj.t)
    &&& !table_acc_over(&f.delv.t)
    &&& !table_acc_over(&f.delj.t)
    &&& !table_acc_over(&f.deld.t)
    &&& !table_acc_over(&f.insvd.len_t)
    &&& !table_acc_over(&f.insvd.bias_t)
    &&& !table_acc_over(&f.insvd.markov_t)
    &&& !table_acc_over(&f.insdj.len_t)
    &&& !table_acc_over(&f.insdj.bias_t)
    &&& !table_acc_over(&f.insdj.markov_t)
    &&& f.error.dirty_err <= crate::table::ACC_RENORM_MAX
    &&& f.error.cleanup_rate() <= SCALE
}

/// The error of a failed `cleanup` names what actually went wrong: an
/// overflowing accumulator of the named sub-model, or a refreshed error
/// rate beyond one probability unit.
pub open spec fn cleanup_err_names(e: ModelError, f: Features) -> bool {
    match e {
        ModelError::AccumulatorOverflow(t) => match t {
            SubModel::VGene => table_acc_over(&f.v.t),
            SubModel::DJoint => table_acc_over(&f.dj.t),
            SubModel::DelV => table_acc_over(&f.delv.t),
            SubModel::DelJ => table_acc_over(&f.delj.t),
            SubModel::DelD => table_acc_over(&f.deld.t),
            SubModel::InsVD => table_acc_over(&f.insvd.len_t) || table_acc_over(&f.insvd.bias_t)
                || table_acc_over(&f.insvd.markov_t),
            SubModel::InsDJ => table_acc_over(&f.insdj.len_t) || table_acc_over(&f.insdj.bias_t)
                || table_acc_over(&f.insdj.markov_t),
            SubModel::ErrorRate => f.error.dirty_err > crate::table::ACC_RENORM_MAX,
        },
        ModelError::ValueTooLarge(t) => t == SubModel::ErrorRate && f.error.cleanup_rate()
            > SCALE,
        _ => false,
    }
}

impl Features {
    /// Builds a feature set from a model's parameter tables, validating
    /// every table and every cross-model shape, with all accumulators at
    /// zero. Succeeds exactly on models that satisfy `model_ok`; a
    /// failure names the offending sub-model.
    pub fn new(model: &Model, inference_params: &InferenceParameters) -> (r: Result<
        Features,
        ModelError,
    >)
        ensures
            r.is_ok() <==> model_ok(*model, *inference_params),
            r matches Err(e) ==> names_invalid_submodel(e, *model, *inference_params),
            r.is_ok() ==> {
                let f = r.unwrap();
                &&& f.wf()
                &&& f.v.t.probs@ == model.p_v@
                &&& f.delv.t.probs@ == model.p_del_v_given_v@ && f.delv.t.gsize == model.n_del_v
                    && f.delv.t.ngroups == model.p_v@.len()
                &&& f.dj.t.probs@ == model.p_dj@ && f.dj.d0 == model.n_d && f.dj.d1 == model.n_j
                &&& f.delj.t.probs@ == model.p_del_j_given_j@ && f.delj.t.gsize == model.n_del_j
                    && f.delj.t.ngroups == model.n_j
                &&& f.deld.t.probs@ == model.p_del_d3_del_d5@ && f.deld.d0 == model.n_del_d3
                    && f.deld.d1 == model.n_del_d5 && f.deld.t.ngroups == model.n_d
                &&& f.insvd.len_t.probs@ == model.p_ins_vd@ && f.insvd.bias_t.probs@
                    == model.first_nt_bias_ins_vd@ && f.insvd.markov_t.probs@
                    == model.markov_coefficients_vd@
                &&& f.insdj.len_t.probs@ == model.p_ins_dj@ && f.insdj.bias_t.probs@
                    == model.first_nt_bias_ins_dj@ && f.insdj.markov_t.probs@
                    == model.markov_coefficients_dj@
                &&& f.error.rate == model.error_rate && f.error.floor
                    == inference_params.min_likelihood_error
                &&& dirty_bounded(f, 0)
                &&& f.error.dirty_err == 0 && f.error.dirty_weight == 0
            },
    {
        let v = match CategoricalFeature1::new(copy_table(&model.p_v), SubModel::VGene) {
            Ok(t) => t,
            Err(e) => {
                return Err(e);
            },
        };
        if model.n_del_v == 0 || model.p_del_v_given_v.len() % model.n_del_v != 0
            || model.p_del_v_given_v.len() / model.n_del_v != model.p_v.len() {
            return Err(ModelError::BadShape(SubModel::DelV));
        }
        let delv = match CategoricalFeature1g1::new(
            copy_table(&model.p_del_v_given_v),
            model.p_v.len(),
            SubModel::DelV,
        ) {
            Ok(t) => t,
            Err(e) => {
                return Err(e);
            },
        };
        proof {
            vstd::arithmetic::div_mod::lemma_fundamental_div_mod(
                model.p_del_v_given_v@.len() as int,
                model.p_v@.len() as int,
            );
            vstd::arithmetic::div_mod::lemma_fundamental_div_mod(
                model.p_del_v_given_v@.len() as int,
                model.n_del_v as int,
            );
            assert(delv.t.gsize == model.n_del_v) by (nonlinear_arith)
                requires
                    (model.p_del_v_given_v@.len() as int) == (model.p_v@.len() as int) * (
                    delv.t.gsize as int) && (model.p_del_v_given_v@.len() as int) == (
                    model.n_del_v as int) * (model.p_v@.len() as int) && model.p_v@.len() >= 1
                        && delv.t.gsize >= 0 && model.n_del_v >= 0,
            ;
        }
        let dj = match CategoricalFeature2::new(
            copy_table(&model.p_dj),
            model.n_d,
            model.n_j,
            SubModel::DJoint,
        ) {
            Ok(t) => t,
            Err(e) => {
                return Err(e);
            },
        };
        if model.n_del_j == 0 || model.p_del_j_given_j.len() % model.n_del_j != 0
            || model.p_del_j_given_j.len() / model.n_del_j != model.n_j {
            return Err(ModelError::BadShape(SubModel::DelJ));
        }
        let delj = match CategoricalFeature1g1::new(
            copy_table(&model.p_del_j_given_j),
            model.n_j,
            SubModel::DelJ,
        ) {
            Ok(t) => t,
            Err(e) => {
                return Err(e);
            },
        };
        proof {
            vstd::arithmetic::div_mod::lemma_fundamental_div_mod(
                model.p_del_j_given_j@.len() as int,
                model.n_j as int,
            );
            vstd::arithmetic::div_mod::lemma_fundamental_div_mod(
                model.p_del_j_given_j@.len() as int,
                model.n_del_j as int,
            );
            assert(delj.t.gsize == model.n_del_j) by (nonlinear_arith)
                requires
                    (model.p_del_j_given_j@.len() as int) == (model.n_j as int) * (
                    delj.t.gsize as int) && (model.p_del_j_given_j@.len() as int) == (
                    model.n_del_j as int) * (model.n_j as int) && model.n_j >= 1 && delj.t.gsize
                        >= 0 && model.n_del_j >= 0,
            ;
        }
        let deld = match CategoricalFeature2g1::new(
            copy_table(&model.p_del_d3_del_d5),
            model.n_del_d3,
            model.n_del_d5,
            model.n_d,
            SubModel::DelD,
        ) {
            Ok(t) => t,
            Err(e) => {
                return Err(e);
            },
        };
        let insvd = match InsertionFeature::new(
            copy_table(&model.p_ins_vd),
            copy_table(&model.first_nt_bias_ins_vd),
            copy_table(&model.markov_coefficients_vd),
            SubModel::InsVD,
        ) {
            Ok(t) => t,
            Err(e) => {
                return Err(e);
            },
        };
        let insdj = match InsertionFeature::new(
            copy_table(&model.p_ins_dj),
            copy_table(&model.first_nt_bias_ins_dj),
            copy_table(&model.markov_coefficients_dj),
            SubModel::InsDJ,
        ) {
            Ok(t) => t,
            Err(e) => {
                return Err(e);
            },
        };
        let error = match ErrorPoisson::new(model.error_rate, inference_params.min_likelihood_error)
            {
            Ok(t) => t,
            Err(e) => {
                return Err(e);
            },
        };
        Ok(Features { v, delv, dj, delj, deld, insvd, insdj, error })
    }

    /// Computes refreshed parameters for the next training round: every
    /// sub-model's accumulator is renormalized into a fresh feature set
    /// whose accumulators are zero. This feature set, its accumulators
    /// included, is left untouched.
    pub fn cleanup(&self) -> (r: Result<Features, ModelError>)
        requires
            self.wf(),
        ensures
            r.is_ok() ==> {
                let f = r.unwrap();
                &&& f.wf()
                &&& f.v.t.same_shape(self.v.t) && forall|i: int|
                    0 <= i < f.v.t.probs@.len() ==> f.v.t.probs@[i] as int
                        == self.v.t.cleanup_cell(i)
                &&& f.dj.t.same_shape(self.dj.t) && f.dj.d0 == self.dj.d0 && f.dj.d1 == self.dj.d1
                    && forall|i: int|
                    0 <= i < f.dj.t.probs@.len() ==> f.dj.t.probs@[i] as int
                        == self.dj.t.cleanup_cell(i)
                &&& f.delv.t.same_shape(self.delv.t) && forall|i: int|
                    0 <= i < f.delv.t.probs@.len() ==> f.delv.t.probs@[i] as int
                        == self.delv.t.cleanup_cell(i)
                &&& f.delj.t.same_shape(self.delj.t) && forall|i: int|
                    0 <= i < f.delj.t.probs@.len() ==> f.delj.t.probs@[i] as int
                        == self.delj.t.cleanup_cell(i)
                &&& f.deld.t.same_shape(self.deld.t) && f.deld.d0 == self.deld.d0 && f.deld.d1
                    == self.deld.d1 && forall|i: int|
                    0 <= i < f.deld.t.probs@.len() ==> f.deld.t.probs@[i] as int
                        == self.deld.t.cleanup_cell(i)
                &&& f.insvd.len_t.same_shape(self.insvd.len_t) && forall|i: int|
                    0 <= i < f.insvd.len_t.probs@.len() ==> f.insvd.len_t.probs@[i] as int
                        == self.insvd.len_t.cleanup_cell(i)
                &&& forall|i: int|
                    0 <= i < f.insvd.bias_t.probs@.len() ==> f.insvd.bias_t.probs@[i] as int
                        == self.insvd.bias_t.cleanup_cell(i)
                &&& forall|i: int|
                    0 <= i < f.insvd.markov_t.probs@.len() ==> f.insvd.markov_t.probs@[i] as int
                        == self.insvd.markov_t.cleanup_cell(i)
                &&& f.insdj.len_t.same_shape(self.insdj.len_t) && forall|i: int|
                    0 <= i < f.insdj.len_t.probs@.len() ==> f.insdj.len_t.probs@[i] as int
                        == self.insdj.len_t.cleanup_cell(i)
                &&& forall|i: int|
                    0 <= i < f.insdj.bias_t.probs@.len() ==> f.insdj.bias_t.probs@[i] as int
                        == self.insdj.bias_t.cleanup_cell(i)
                &&& forall|i: int|
                    0 <= i < f.insdj.markov_t.probs@.len() ==> f.insdj.markov_t.probs@[i] as int
                        == self.insdj.markov_t.cleanup_cell(i)
                &&& f.error.rate as int == self.error.cleanup_rate() && f.error.floor
                    == self.error.floor
                &&& f.v.tag == self.v.tag && f.dj.tag == self.dj.tag && f.delv.tag
                    == self.delv.tag && f.delj.tag == self.delj.tag && f.deld.tag
                    == self.deld.tag && f.insvd.tag == self.insvd.tag && f.insdj.tag
                    == self.insdj.tag
                &&& dirty_bounded(f, 0) && f.error.dirty_err == 0 && f.error.dirty_weight == 0
            },
            r.is_ok() <==> features_cleanup_ok(*self),
            r matches Err(e) ==> cleanup_err_names(e, *self),
    {
        let v = self.v.cleanup()?;
        let dj = self.dj.cleanup()?;
        let delv = self.delv.cleanup()?;
        let delj = self.delj.cleanup()?;
        let deld = self.deld.cleanup()?;
        let insvd = self.insvd.cleanup()?;
        let insdj = self.insdj.cleanup()?;
        let error = self.error.cleanup()?;
        Ok(Features { v, delv, dj, delj, deld, insvd, insdj, error })
    }

    /// Merges independently produced feature sets into a consensus one:
    /// the elementwise arithmetic mean of every sub-model's current
    /// parameter values, with fresh zero accumulators. Fails on an empty
    /// collection or when shapes differ.
    pub fn average(features: Vec<Features>) -> (r: Result<Features, ModelError>)
        requires
            forall|j: int| 0 <= j < features@.len() ==> (#[trigger] features@[j]).wf(),
        ensures
            r.is_ok() ==> {
                let f = r.unwrap();
                let k = features@.len() as int;
                &&& features@.len() > 0
                &&& f.wf()
                &&& forall|i: int|
                    0 <= i < f.v.t.probs@.len() ==> f.v.t.probs@[i] as int == ProbTable::col_sum(
                        features@.map_values(|x: Features| &x.v.t),
                        i,
                    ) / k
                &&& forall|i: int|
                    0 <= i < f.dj.t.probs@.len() ==> f.dj.t.probs@[i] as int
                        == ProbTable::col_sum(features@.map_values(|x: Features| &x.dj.t), i) / k
                &&& forall|i: int|
                    0 <= i < f.delv.t.probs@.len() ==> f.delv.t.probs@[i] as int
                        == ProbTable::col_sum(features@.map_values(|x: Features| &x.delv.t), i)
                        / k
                &&& forall|i: int|
                    0 <= i < f.delj.t.probs@.len() ==> f.delj.t.probs@[i] as int
                        == ProbTable::col_sum(features@.map_values(|x: Features| &x.delj.t), i)
                        / k
                &&& forall|i: int|
                    0 <= i < f.deld.t.probs@.len() ==> f.deld.t.probs@[i] as int
                        == ProbTable::col_sum(features@.map_values(|x: Features| &x.deld.t), i)
                        / k
                &&& forall|i: int|
                    0 <= i < f.insvd.len_t.probs@.len() ==> f.insvd.len_t.probs@[i] as int
                        == ProbTable::col_sum(
                        features@.map_values(|x: Features| &x.insvd.len_t),
                        i,
                    ) / k
                &&& forall|i: int|
                    0 <= i < f.insvd.bias_t.probs@.len() ==> f.insvd.bias_t.probs@[i] as int
                        == ProbTable::col_sum(
                        features@.map_values(|x: Features| &x.insvd.bias_t),
                        i,
                    ) / k
                &&& forall|i: int|
                    0 <= i < f.insvd.markov_t.probs@.len() ==> f.insvd.markov_t.probs@[i] as int
                        == ProbTable::col_sum(
                        features@.map_values(|x: Features| &x.insvd.markov_t),
                        i,
                    ) / k
                &&& forall|i: int|
                    0 <= i < f.insdj.len_t.probs@.len() ==> f.insdj.len_t.probs@[i] as int
                        == ProbTable::col_sum(
                        features@.map_values(|x: Features| &x.insdj.len_t),
                        i,
                    ) / k
                &&& forall|i: int|
                    0 <= i < f.insdj.bias_t.probs@.len() ==> f.insdj.bias_t.probs@[i] as int
                        == ProbTable::col_sum(
                        features@.map_values(|x: Features| &x.insdj.bias_t),
                        i,
                    ) / k
                &&& forall|i: int|
                    0 <= i < f.insdj.markov_t.probs@.len() ==> f.insdj.markov_t.probs@[i] as int
                        == ProbTable::col_sum(
                        features@.map_values(|x: Features| &x.insdj.markov_t),
                        i,
                    ) / k
                &&& f.error.rate as int == ErrorPoisson::rate_sum(
                    features@.map_values(|x: Features| &x.error),
                ) / k
                &&& f.error.floor == features@[0].error.floor
                &&& f.v.t.same_shape(features@[0].v.t)
                &&& f.dj.t.same_shape(features@[0].dj.t) && f.dj.d0 == features@[0].dj.d0
                    && f.dj.d1 == features@[0].dj.d1
                &&& f.delv.t.same_shape(features@[0].delv.t)
                &&& f.delj.t.same_shape(features@[0].delj.t)
                &&& f.deld.t.same_shape(features@[0].deld.t) && f.deld.d0 == features@[0].deld.d0
                    && f.deld.d1 == features@[0].deld.d1
                &&& f.insvd.len_t.same_shape(features@[0].insvd.len_t)
                &&& f.insdj.len_t.same_shape(features@[0].insdj.len_t)
                &&& dirty_bounded(f, 0) && f.error.dirty_err == 0 && f.error.dirty_weight == 0
            },
            r.is_ok() <==> (features@.len() > 0 && forall|j: int|
                0 < j < features@.len() ==> features_same_shape(
                    features@[0],
                    #[trigger] features@[j],
                )),
            r matches Err(e) ==> (e is EmptyInput || e is ShapeMismatch),
            features@.len() == 0 ==> r == Err::<Features, ModelError>(ModelError::EmptyInput),
    {
        if features.len() == 0 {
            return Err(ModelError::EmptyInput);
        }
        let ghost cond = forall|j: int|
            0 < j < features@.len() ==> features_same_shape(features@[0], #[trigger] features@[j]);
        let n: usize = features.len();
        let mut vs: Vec<&CategoricalFeature1> = Vec::new();
        let mut djs: Vec<&CategoricalFeature2> = Vec::new();
        let mut delvs: Vec<&CategoricalFeature1g1> = Vec::new();
        let mut deljs: Vec<&CategoricalFeature1g1> = Vec::new();
        let mut delds: Vec<&CategoricalFeature2g1> = Vec::new();
        let mut insvds: Vec<&InsertionFeature> = Vec::new();
        let mut insdjs: Vec<&InsertionFeature> = Vec::new();
        let mut errs: Vec<&ErrorPoisson> = Vec::new();
        for j in 0..n
            invariant
                vs@.len() == j && djs@.len() == j && delvs@.len() == j && deljs@.len() == j
                    && delds@.len() == j && insvds@.len() == j && insdjs@.len() == j
                    && errs@.len() == j,
                forall|k: int| 0 <= k < j ==> #[trigger] vs@[k] == &features@[k].v,
                forall|k: int| 0 <= k < j ==> #[trigger] djs@[k] == &features@[k].dj,
                forall|k: int| 0 <= k < j ==> #[trigger] delvs@[k] == &features@[k].delv,
                forall|k: int| 0 <= k < j ==> #[trigger] deljs@[k] == &features@[k].delj,
                forall|k: int| 0 <= k < j ==> #[trigger] delds@[k] == &features@[k].deld,
                forall|k: int| 0 <= k < j ==> #[trigger] insvds@[k] == &features@[k].insvd,
                forall|k: int| 0 <= k < j ==> #[trigger] insdjs@[k] == &features@[k].insdj,
                forall|k: int| 0 <= k < j ==> #[trigger] errs@[k] == &features@[k].error,
        {
            vs.push(&features[j].v);
            djs.push(&features[j].dj);
            delvs.push(&features[j].delv);
            deljs.push(&features[j].delj);
            delds.push(&features[j].deld);
            insvds.push(&features[j].insvd);
            insdjs.push(&features[j].insdj);
            errs.push(&features[j].error);
        }
        proof {
            assert forall|k: int| 0 <= k < n implies #[trigger] vs@[k].wf() by {
                assert(features@[k].wf());
            }
            assert forall|k: int| 0 <= k < n implies #[trigger] djs@[k].wf() by {
                assert(features@[k].wf());
            }
            assert forall|k: int| 0 <= k < n implies #[trigger] delvs@[k].wf() by {
                assert(features@[k].wf());
            }
            assert forall|k: int| 0 <= k < n implies #[trigger] deljs@[k].wf() by {
                assert(features@[k].wf());
            }
            assert forall|k: int| 0 <= k < n implies #[trigger] delds@[k].wf() by {
                assert(features@[k].wf());
            }
            assert forall|k: int| 0 <= k < n implies #[trigger] insvds@[k].wf() by {
                assert(features@[k].wf());
            }
            assert forall|k: int| 0 <= k < n implies #[trigger] insdjs@[k].wf() by {
                assert(features@[k].wf());
            }
            assert forall|k: int| 0 <= k < n implies #[trigger] errs@[k].wf() by {
                assert(features@[k].wf());
            }
            if cond {
                assert forall|j: int|
                    0 < j < vs@.len() implies vs@[0].t.same_shape(#[trigger] vs@[j].t) by {
                    assert(features_same_shape(features@[0], features@[j]));
                }
                assert forall|j: int|
                    0 < j < djs@.len() implies (djs@[0].t.same_shape(#[trigger] djs@[j].t)
                        && djs@[0].d0 == djs@[j].d0 && djs@[0].d1 == djs@[j].d1) by {
                    assert(features_same_shape(features@[0], features@[j]));
                }
                assert forall|j: int|
                    0 < j < delvs@.len() implies delvs@[0].t.same_shape(
                        #[trigger] delvs@[j].t,
                    ) by {
                    assert(features_same_shape(features@[0], features@[j]));
                }
                assert forall|j: int|
                    0 < j < deljs@.len() implies deljs@[0].t.same_shape(
                        #[trigger] deljs@[j].t,
                    ) by {
                    assert(features_same_shape(features@[0], features@[j]));
                }
                assert forall|j: int|
                    0 < j < delds@.len() implies (delds@[0].t.same_shape(#[trigger] delds@[j].t)
                        && delds@[0].d0 == delds@[j].d0 && delds@[0].d1 == delds@[j].d1) by {
                    assert(features_same_shape(features@[0], features@[j]));
                }
                assert forall|j: int|
                    0 < j < insvds@.len() implies insvds@[0].len_t.same_shape(
                        #[trigger] insvds@[j].len_t,
                    ) by {
                    assert(features_same_shape(features@[0], features@[j]));
                }
                assert forall|j: int|
                    0 < j < insdjs@.len() implies insdjs@[0].len_t.same_shape(
                        #[trigger] insdjs@[j].len_t,
                    ) by {
                    assert(features_same_shape(features@[0], features@[j]));
                }
            }
        }
        let v = CategoricalFeature1::average(&vs)?;
        let dj = CategoricalFeature2::average(&djs)?;
        let delv = CategoricalFeature1g1::average(&delvs)?;
        let delj = CategoricalFeature1g1::average(&deljs)?;
        let deld = CategoricalFeature2g1::average(&delds)?;
        let insvd = InsertionFeature::average(&insvds)?;
        let insdj = InsertionFeature::average(&insdjs)?;
        let error = ErrorPoisson::average(&errs)?;
        proof {
            assert(vs@.map_values(|x: &CategoricalFeature1| &x.t) =~= features@.map_values(
                |x: Features| &x.v.t,
            ));
            assert(djs@.map_values(|x: &CategoricalFeature2| &x.t) =~= features@.map_values(
                |x: Features| &x.dj.t,
            ));
            assert(delvs@.map_values(|x: &CategoricalFeature1g1| &x.t) =~= features@.map_values(
                |x: Features| &x.delv.t,
            ));
            assert(deljs@.map_values(|x: &CategoricalFeature1g1| &x.t) =~= features@.map_values(
                |x: Features| &x.delj.t,
            ));
            assert(delds@.map_values(|x: &CategoricalFeature2g1| &x.t) =~= features@.map_values(
                |x: Features| &x.deld.t,
            ));
            assert(insvds@.map_values(|x: &InsertionFeature| &x.len_t) =~= features@.map_values(
                |x: Features| &x.insvd.len_t,
            ));
            assert(insvds@.map_values(|x: &InsertionFeature| &x.bias_t) =~= features@.map_values(
                |x: Features| &x.insvd.bias_t,
            ));
            assert(insvds@.map_values(|x: &InsertionFeature| &x.markov_t)
                =~= features@.map_values(|x: Features| &x.insvd.markov_t));
            assert(insdjs@.map_values(|x: &InsertionFeature| &x.len_t) =~= features@.map_values(
                |x: Features| &x.insdj.len_t,
            ));
            assert(insdjs@.map_values(|x: &InsertionFeature| &x.bias_t) =~= features@.map_values(
                |x: Features| &x.insdj.bias_t,
            ));
            assert(insdjs@.map_values(|x: &InsertionFeature| &x.markov_t)
                =~= features@.map_values(|x: Features| &x.insdj.markov_t));
            assert(errs@ =~= features@.map_values(|x: Features| &x.error));
            assert forall|j: int|
                0 < j < features@.len() implies features_same_shape(
                features@[0],
                #[trigger] features@[j],
            ) by {
                assert(vs@[0].t.same_shape(vs@[j].t));
                assert(djs@[0].t.same_shape(djs@[j].t) && djs@[0].d0 == djs@[j].d0 && djs@[0].d1
                    == djs@[j].d1);
                assert(delvs@[0].t.same_shape(delvs@[j].t));
                assert(deljs@[0].t.same_shape(deljs@[j].t));
                assert(delds@[0].t.same_shape(delds@[j].t) && delds@[0].d0 == delds@[j].d0
                    && delds@[0].d1 == delds@[j].d1);
                assert(insvds@[0].len_t.same_shape(insvds@[j].len_t));
                assert(insdjs@[0].len_t.same_shape(insdjs@[j].len_t));
                assert(features@[0].wf() && features@[j].wf());
                assert((1int) * (features@[0].insvd.bias_t.gsize as int)
                    == features@[0].insvd.bias_t.gsize) by (nonlinear_arith);
                assert((1int) * (features@[j].insvd.bias_t.gsize as int)
                    == features@[j].insvd.bias_t.gsize) by (nonlinear_arith);
                assert((1int) * (features@[0].insdj.bias_t.gsize as int)
                    == features@[0].insdj.bias_t.gsize) by (nonlinear_arith);
                assert((1int) * (features@[j].insdj.bias_t.gsize as int)
                    == features@[j].insdj.bias_t.gsize) by (nonlinear_arith);
            }
        }
        Ok(Features { v, delv, dj, delj, deld, insvd, insdj, error })
    }
}

} // verus!
