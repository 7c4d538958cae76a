//! The observed read and its candidate alignments.
//!
//! Alignments are produced by an outside aligner and consumed read-only
//! here: each pins one library segment at a position in the read and
//! answers how many mismatches a given deletion choice causes. The read
//! itself exposes extraction of the two junction insertions between
//! computed boundary positions.

use vstd::prelude::*;

verus! {

/// Largest supported read length; also bounds every deletion choice, so
/// that boundary arithmetic stays far inside the machine integer ranges.
pub const SEQ_MAX: usize = 0x100_0000;

/// A candidate V or J alignment: a library segment pinned at a position
/// in the read, with its mismatch counts indexed by deletion length.
pub struct VJAlignment {
    /// Genomic index of the segment in the library.
    pub index: usize,
    /// Start position of the alignment in the read.
    pub start_seq: usize,
    /// One past the last aligned position in the read.
    pub end_seq: usize,
    /// Mismatch count for each deletion length; zero beyond the table.
    pub errors: Vec<u32>,
}

impl VJAlignment {
    /// Mismatches caused by deleting `del` bases; zero beyond the table.
    pub open spec fn nb_errors_spec(self, del: int) -> int {
        if 0 <= del < self.errors@.len() {
            self.errors@[del] as int
        } else {
            0
        }
    }

    /// Mismatches caused by deleting `del` bases.
    pub fn nb_errors(&self, del: usize) -> (r: u32)
        ensures
            r as int == self.nb_errors_spec(del as int),
    {
        if del < self.errors.len() {
            self.errors[del]
        } else {
            0
        }
    }
}

/// A candidate D alignment: a library segment pinned at a position in
/// the read, with mismatch counts indexed by the two deletion lengths.
pub struct DAlignment {
    /// Genomic index of the segment in the library.
    pub index: usize,
    /// Position in the read where the (undeleted) segment starts.
    pub pos: usize,
    /// Length of the library segment.
    pub dlen: usize,
    /// Mismatch count by five-prime then three-prime deletion length;
    /// zero beyond the table.
    pub errors: Vec<Vec<u32>>,
}

impl DAlignment {
    /// Mismatches caused by the deletion pair; zero beyond the table.
    pub open spec fn nb_errors_spec(self, d5: int, d3: int) -> int {
        if 0 <= d5 < self.errors@.len() && 0 <= d3 < self.errors@[d5]@.len() {
            self.errors@[d5]@[d3] as int
        } else {
            0
        }
    }

    /// Mismatches caused by deleting `d5` five-prime and `d3` three-prime
    /// bases.
    pub fn nb_errors(&self, d5: usize, d3: usize) -> (r: u32)
        ensures
            r as int == self.nb_errors_spec(d5 as int, d3 as int),
    {
        if d5 < self.errors.len() {
            let row: &Vec<u32> = &self.errors[d5];
            if d3 < row.len() {
                return row[d3];
            }
        }
        0
    }
}

/// One candidate recombination choice during enumeration: positions into
/// the candidate lists plus the four deletion lengths. Transient; never
/// persisted.
#[derive(Clone, Copy)]
pub struct Event {
    /// Position of the V candidate in the read's V list.
    pub v_idx: usize,
    /// V deletion length.
    pub delv: usize,
    /// Position of the J candidate in the read's J list.
    pub j_idx: usize,
    /// J deletion length.
    pub delj: usize,
    /// Position of the D candidate in the read's D list.
    pub d_idx: usize,
    /// D five-prime deletion length.
    pub deld5: usize,
    /// D three-prime deletion length.
    pub deld3: usize,
}

/// An owned snapshot of a surviving event: the realized library indices,
/// deletion lengths and both inserted junction sequences. Immutable once
/// built.
pub struct StaticEvent {
    /// Genomic index of the V segment.
    pub v_index: usize,
    /// V deletion length.
    pub delv: usize,
    /// Genomic index of the J segment.
    pub j_index: usize,
    /// J deletion length.
    pub delj: usize,
    /// Genomic index of the D segment.
    pub d_index: usize,
    /// D five-prime deletion length.
    pub deld5: usize,
    /// D three-prime deletion length.
    pub deld3: usize,
    /// The VD junction insertion.
    pub insvd: Vec<u8>,
    /// The DJ junction insertion.
    pub insdj: Vec<u8>,
}

/// Mathematical image of a `StaticEvent`.
pub ghost struct StaticEventV {
    /// Genomic index of the V segment.
    pub v_index: int,
    /// V deletion length.
    pub delv: int,
    /// Genomic index of the J segment.
    pub j_index: int,
    /// J deletion length.
    pub delj: int,
    /// Genomic index of the D segment.
    pub d_index: int,
    /// D five-prime deletion length.
    pub deld5: int,
    /// D three-prime deletion length.
    pub deld3: int,
    /// The VD junction insertion.
    pub insvd: Seq<u8>,
    /// The DJ junction insertion.
    pub insdj: Seq<u8>,
}

impl View for StaticEvent {
    type V = StaticEventV;

    open spec fn view(&self) -> StaticEventV {
        StaticEventV {
            v_index: self.v_index as int,
            delv: self.delv as int,
            j_index: self.j_index as int,
            delj: self.delj as int,
            d_index: self.d_index as int,
            deld5: self.deld5 as int,
            deld3: self.deld3 as int,
            insvd: self.insvd@,
            insdj: self.insdj@,
        }
    }
}

/// Inference configuration: the pruning threshold applied at every
/// pruning stage, and the likelihood floor handed to the error model.
pub struct InferenceParameters {
    /// Events whose likelihood falls below this are discarded.
    pub min_likelihood: u64,
    /// Likelihood floor of the Poisson error model.
    pub min_likelihood_error: u64,
}

/// `x` clamped into `[0, len]`.
pub open spec fn clamp_pos(x: int, len: int) -> int {
    if x < 0 {
        0
    } else if x > len {
        len
    } else {
        x
    }
}

/// The part of `seq` between positions `lo` and `hi`, both clamped into
/// the read; empty when they cross.
pub open spec fn extract_spec(seq: Seq<u8>, lo: int, hi: int) -> Seq<u8> {
    let l = clamp_pos(lo, seq.len() as int);
    let h = clamp_pos(hi, seq.len() as int);
    if l <= h {
        seq.subrange(l, h)
    } else {
        Seq::empty()
    }
}

/// The observed read with its candidate V, D and J alignments.
pub struct Sequence {
    /// The read, one symbol per nucleotide.
    pub seq: Vec<u8>,
    /// Candidate V alignments.
    pub v_genes: Vec<VJAlignment>,
    /// Candidate D alignments.
    pub d_genes: Vec<DAlignment>,
    /// Candidate J alignments.
    pub j_genes: Vec<VJAlignment>,
}

impl Sequence {
    /// Every alignment lies inside the read, and the read is within the
    /// supported length.
    pub open spec fn wf(self) -> bool {
        &&& self.seq@.len() <= SEQ_MAX
        &&& forall|i: int|
            0 <= i < self.v_genes@.len() ==> (#[trigger] self.v_genes@[i]).end_seq
                <= self.seq@.len()
        &&& forall|i: int|
            0 <= i < self.j_genes@.len() ==> (#[trigger] self.j_genes@[i]).start_seq
                <= self.seq@.len()
        &&& forall|i: int|
            0 <= i < self.d_genes@.len() ==> (#[trigger] self.d_genes@[i]).pos
                + self.d_genes@[i].dlen <= self.seq@.len()
    }

    /// Validates the geometry of every candidate alignment against the
    /// read.
    pub fn new(seq: Vec<u8>, v_genes: Vec<VJAlignment>, d_genes: Vec<DAlignment>, j_genes: Vec<
        VJAlignment,
    >) -> (r: Option<Sequence>)
        ensures
            r is Some ==> r.unwrap().wf(),
            r is Some ==> {
                let s = r.unwrap();
                s.seq == seq && s.v_genes == v_genes && s.d_genes == d_genes && s.j_genes
                    == j_genes
            },
            r is None ==> !(Sequence { seq, v_genes, d_genes, j_genes }).wf(),
    {
        if seq.len() > SEQ_MAX {
            return None;
        }
        let nv: usize = v_genes.len();
        for i in 0..nv
            invariant
                forall|k: int| 0 <= k < i ==> (#[trigger] v_genes@[k]).end_seq <= seq@.len(),
        {
            if v_genes[i].end_seq > seq.len() {
                proof {
                    let s2 = Sequence { seq, v_genes, d_genes, j_genes };
                    assert(s2.v_genes@[i as int].end_seq > s2.seq@.len());
                }
                return None;
            }
        }
        let nj: usize = j_genes.len();
        for i in 0..nj
            invariant
                forall|k: int| 0 <= k < i ==> (#[trigger] j_genes@[k]).start_seq <= seq@.len(),
        {
            if j_genes[i].start_seq > seq.len() {
                proof {
                    let s2 = Sequence { seq, v_genes, d_genes, j_genes };
                    assert(s2.j_genes@[i as int].start_seq > s2.seq@.len());
                }
                return None;
            }
        }
        let nd: usize = d_genes.len();
        for i in 0..nd
            invariant
                forall|k: int|
                    0 <= k < i ==> (#[trigger] d_genes@[k]).pos + d_genes@[k].dlen <= seq@.len(),
        {
            if d_genes[i].pos > seq.len() || d_genes[i].dlen > seq.len() - d_genes[i].pos {
                proof {
                    let s2 = Sequence { seq, v_genes, d_genes, j_genes };
                    assert(s2.d_genes@[i as int].pos + s2.d_genes@[i as int].dlen
                        > s2.seq@.len());
                }
                return None;
            }
        }
        Some(Sequence { seq, v_genes, d_genes, j_genes })
    }

    /// Copies the part of the read between `lo` and `hi`, clamped into
    /// the read; empty when they cross.
    pub fn extract(&self, lo: i64, hi: i64) -> (r: Vec<u8>)
        requires
            self.wf(),
        ensures
            r@ == extract_spec(self.seq@, lo as int, hi as int),
    {
        let len: usize = self.seq.len();
        let l: usize = if lo < 0 {
            0
        } else if lo > (len as i64) {
            len
        } else {
            lo as usize
        };
        let h: usize = if hi < 0 {
            0
        } else if hi > (len as i64) {
            len
        } else {
            hi as usize
        };
        let mut out: Vec<u8> = Vec::new();
        if l >= h {
            proof {
                if clamp_pos(lo as int, len as int) <= clamp_pos(hi as int, len as int) {
                    assert(out@ =~= self.seq@.subrange(
                        clamp_pos(lo as int, len as int),
                        clamp_pos(hi as int, len as int),
                    ));
                }
            }
            return out;
        }
        let mut i: usize = l;
        while i < h
            invariant
                l <= i <= h <= len,
                len == self.seq@.len(),
                out@ == self.seq@.subrange(l as int, i as int),
            decreases h - i,
        {
            proof {
                assert(self.seq@.subrange(l as int, i + 1) =~= self.seq@.subrange(
                    l as int,
                    i as int,
                ).push(self.seq@[i as int]));
            }
            out.push(self.seq[i]);
            i = i + 1;
        }
        out
    }

    /// Extracts the two junction insertions realized by event `e`: the
    /// read between the V end and the D window start, and between the D
    /// window end and the J start, each boundary clamped into the read.
    pub fn get_insertions_vd_dj(&self, e: &Event) -> (r: (Vec<u8>, Vec<u8>))
        requires
            self.wf(),
            e.v_idx < self.v_genes@.len(),
            e.j_idx < self.j_genes@.len(),
            e.d_idx < self.d_genes@.len(),
            e.delv <= SEQ_MAX,
            e.delj <= SEQ_MAX,
            e.deld5 <= SEQ_MAX,
            e.deld3 <= SEQ_MAX,
        ensures
            r.0@ == extract_spec(self.seq@, v_end_spec(*self, *e), d_start_spec(*self, *e)),
            r.1@ == extract_spec(self.seq@, d_end_spec(*self, *e), j_start_spec(*self, *e)),
    {
        let v: &VJAlignment = &self.v_genes[e.v_idx];
        let j: &VJAlignment = &self.j_genes[e.j_idx];
        let d: &DAlignment = &self.d_genes[e.d_idx];
        let v_end: i64 = (v.end_seq as i64) - (e.delv as i64);
        let d_start: i64 = (d.pos as i64) + (e.deld5 as i64);
        let d_end: i64 = (d.pos as i64) + (d.dlen as i64) - (e.deld3 as i64);
        let j_start: i64 = (j.start_seq as i64) + (e.delj as i64);
        let insvd = self.extract(v_end, d_start);
        let insdj = self.extract(d_end, j_start);
        (insvd, insdj)
    }
}

/// Position in the read one past the last V base kept by event `e`.
pub open spec fn v_end_spec(s: Sequence, e: Event) -> int {
    s.v_genes@[e.v_idx as int].end_seq - e.delv
}

/// Position in the read where the D window kept by event `e` starts.
pub open spec fn d_start_spec(s: Sequence, e: Event) -> int {
    s.d_genes@[e.d_idx as int].pos + e.deld5
}

/// Position in the read one past the D window kept by event `e`.
pub open spec fn d_end_spec(s: Sequence, e: Event) -> int {
    s.d_genes@[e.d_idx as int].pos + s.d_genes@[e.d_idx as int].dlen - e.deld3
}

/// Position in the read where the J part kept by event `e` starts.
pub open spec fn j_start_spec(s: Sequence, e: Event) -> int {
    s.j_genes@[e.j_idx as int].start_seq + e.delj
}

} // verus!
