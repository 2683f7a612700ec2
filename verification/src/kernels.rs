//! What the numeric kernels are handed and what they give back.

use vstd::prelude::*;

use crate::float32::Float32;
use crate::pack::BlockLayout;
use crate::validate::{first_invalid_scale, first_invalid_tqplus_scale, first_invalid_tqplus_shift};

verus! {

/// A batch to be encoded.
pub struct EncodeTask<'a> {
    /// The vectors, flat.
    pub vectors: &'a [Float32],
    /// Number of vectors.
    pub n: usize,
    /// Coordinates per vector.
    pub dim: usize,
    /// The rotation.
    pub rotation: &'a [Float32],
    /// The codebook's boundaries.
    pub boundaries: &'a [Float32],
    /// The codebook's centroids.
    pub centroids: &'a [Float32],
    /// Bits per coordinate.
    pub bit_width: usize,
    /// The calibration to encode with; where there is none, one is fitted to
    /// the batch.
    pub existing: Option<(&'a [Float32], &'a [Float32])>,
}

/// The contents of an [`EncodeTask`].
pub struct EncodeTaskView {
    pub vectors: Seq<Float32>,
    pub n: usize,
    pub dim: usize,
    pub rotation: Seq<Float32>,
    pub boundaries: Seq<Float32>,
    pub centroids: Seq<Float32>,
    pub bit_width: usize,
    pub existing: Option<(Seq<Float32>, Seq<Float32>)>,
}

impl<'a> View for EncodeTask<'a> {
    type V = EncodeTaskView;

    open spec fn view(&self) -> EncodeTaskView {
        EncodeTaskView {
            vectors: self.vectors@,
            n: self.n,
            dim: self.dim,
            rotation: self.rotation@,
            boundaries: self.boundaries@,
            centroids: self.centroids@,
            bit_width: self.bit_width,
            existing: match self.existing {
                Some((shift, scale)) => Some((shift@, scale@)),
                None => None,
            },
        }
    }
}

/// An encoded batch.
pub struct EncodedBatch {
    /// The bit planes of the vectors, one row behind the other.
    pub packed: Vec<u8>,
    /// One correction scale for each vector.
    pub scales: Vec<Float32>,
    /// The calibration shift of each coordinate that the batch was encoded
    /// with.
    pub shift: Vec<Float32>,
    /// The calibration scale of each coordinate that the batch was encoded
    /// with.
    pub scale: Vec<Float32>,
}

/// The contents of an [`EncodedBatch`].
pub struct EncodedBatchView {
    pub packed: Seq<u8>,
    pub scales: Seq<Float32>,
    pub shift: Seq<Float32>,
    pub scale: Seq<Float32>,
}

impl View for EncodedBatch {
    type V = EncodedBatchView;

    open spec fn view(&self) -> EncodedBatchView {
        EncodedBatchView {
            packed: self.packed@,
            scales: self.scales@,
            shift: self.shift@,
            scale: self.scale@,
        }
    }
}

impl EncodedBatchView {
    /// A batch such as an encoder gives: the lengths fit the vectors, and the
    /// values are such as searching can use.
    pub open spec fn fits(self, n: int, dim: int, bit_width: int) -> bool {
        &&& self.packed.len() == n * crate::pack::row_bytes(bit_width, dim)
        &&& self.scales.len() == n
        &&& self.shift.len() == dim
        &&& self.scale.len() == dim
        &&& forall|i: int| 0 <= i < n ==> (#[trigger] self.scales[i]).valid_scale()
        &&& forall|i: int| 0 <= i < dim ==> (#[trigger] self.shift[i]).valid_tqplus_shift()
        &&& forall|i: int| 0 <= i < dim ==> (#[trigger] self.scale[i]).valid_tqplus_scale()
    }

    /// The vectors of the batch: the codes and the scale of each.
    pub open spec fn vectors(self, dim: int, bit_width: int) -> Seq<(Seq<u8>, Float32)> {
        Seq::new(
            self.scales.len(),
            |i: int| (crate::pack::row(self.packed, bit_width, dim, i), self.scales[i]),
        )
    }
}

impl EncodedBatch {
    /// Whether the batch is such as an encoder gives.
    pub fn check(&self, n: usize, dim: usize, bit_width: usize) -> (result: bool)
        requires
            bit_width * (dim / 8) <= usize::MAX,
        ensures
            result == self@.fits(n as int, dim as int, bit_width as int),
    {
        let packed_len: usize = self.packed.len();
        match n.checked_mul(bit_width * (dim / 8)) {
            Some(expected) => {
                if packed_len != expected {
                    return false;
                }
            },
            None => {
                return false;
            },
        }
        if self.scales.len() != n || self.shift.len() != dim || self.scale.len() != dim {
            return false;
        }
        proof {
            crate::validate::lemma_first_bad(self.scales@, crate::validate::bad_scale(), 0);
            crate::validate::lemma_first_bad(self.shift@, crate::validate::bad_tqplus_shift(), 0);
            crate::validate::lemma_first_bad(self.scale@, crate::validate::bad_tqplus_scale(), 0);
        }
        first_invalid_scale(self.scales.as_slice()).is_none() && first_invalid_tqplus_shift(
            self.shift.as_slice(),
        ).is_none() && first_invalid_tqplus_scale(self.scale.as_slice()).is_none()
    }
}

/// Queries to be scored.
pub struct SearchTask<'a> {
    /// The queries, flat.
    pub queries: &'a [Float32],
    /// Number of queries.
    pub nq: usize,
    /// The rotation.
    pub rotation: &'a [Float32],
    /// How the blocked form is arranged.
    pub layout: BlockLayout,
    /// The blocked form of the codes.
    pub blocked: &'a [u8],
    /// The codebook's centroids.
    pub centroids: &'a [Float32],
    /// The correction scale of each vector.
    pub scales: &'a [Float32],
    /// The calibration shift of each coordinate.
    pub tqplus_shift: &'a [Float32],
    /// The calibration scale of each coordinate.
    pub tqplus_scale: &'a [Float32],
    /// Bits per coordinate.
    pub bit_width: usize,
    /// Coordinates per vector.
    pub dim: usize,
    /// Number of vectors.
    pub n_vectors: usize,
    /// Number of blocks.
    pub n_blocks: usize,
    /// Results asked for, for each query.
    pub k: usize,
    /// The slots that may be found, packed, or none where all may.
    pub mask: Option<&'a [u64]>,
}

/// The contents of a [`SearchTask`].
pub struct SearchTaskView {
    pub queries: Seq<Float32>,
    pub nq: usize,
    pub rotation: Seq<Float32>,
    pub layout: BlockLayout,
    pub blocked: Seq<u8>,
    pub centroids: Seq<Float32>,
    pub scales: Seq<Float32>,
    pub tqplus_shift: Seq<Float32>,
    pub tqplus_scale: Seq<Float32>,
    pub bit_width: usize,
    pub dim: usize,
    pub n_vectors: usize,
    pub n_blocks: usize,
    pub k: usize,
    pub mask: Option<Seq<u64>>,
}

impl<'a> View for SearchTask<'a> {
    type V = SearchTaskView;

    open spec fn view(&self) -> SearchTaskView {
        SearchTaskView {
            queries: self.queries@,
            nq: self.nq,
            rotation: self.rotation@,
            layout: self.layout,
            blocked: self.blocked@,
            centroids: self.centroids@,
            scales: self.scales@,
            tqplus_shift: self.tqplus_shift@,
            tqplus_scale: self.tqplus_scale@,
            bit_width: self.bit_width,
            dim: self.dim,
            n_vectors: self.n_vectors,
            n_blocks: self.n_blocks,
            k: self.k,
            mask: match self.mask {
                Some(words) => Some(words@),
                None => None,
            },
        }
    }
}

/// A batch fits exactly where its lengths are those of the vectors and its
/// values, by their bit patterns, finite and of the right sign.
pub proof fn lemma_batch_fits_exactly(batch: EncodedBatch, n: int, dim: int, bit_width: int)
    ensures
        batch@.fits(n, dim, bit_width) <==> {
            &&& batch.packed@.len() == n * (bit_width * (dim / 8))
            &&& batch.scales@.len() == n
            &&& batch.shift@.len() == dim
            &&& batch.scale@.len() == dim
            &&& forall|i: int|
                0 <= i < n ==> (#[trigger] batch.scales@[i]).bits < 0x7F80_0000
                    || batch.scales@[i].bits == 0x8000_0000
            &&& forall|i: int|
                0 <= i < dim ==> (#[trigger] batch.shift@[i]).bits % 0x8000_0000 < 0x7F80_0000
            &&& forall|i: int| 0 <= i < dim ==> 0 < (#[trigger] batch.scale@[i]).bits < 0x7F80_0000
        },
        batch@.packed == batch.packed@,
        batch@.scales == batch.scales@,
        batch@.shift == batch.shift@,
        batch@.scale == batch.scale@,
{
    assert forall|i: int| 0 <= i < n implies ((#[trigger] batch.scales@[i]).valid_scale() <==> (
    batch.scales@[i].bits < 0x7F80_0000 || batch.scales@[i].bits == 0x8000_0000)) by {
        crate::float32::lemma_classes_by_bits(batch.scales@[i]);
    }
    assert forall|i: int| 0 <= i < dim implies ((#[trigger] batch.shift@[i]).valid_tqplus_shift()
        <==> batch.shift@[i].bits % 0x8000_0000 < 0x7F80_0000) by {
        crate::float32::lemma_classes_by_bits(batch.shift@[i]);
    }
    assert forall|i: int| 0 <= i < dim implies ((#[trigger] batch.scale@[i]).valid_tqplus_scale()
        <==> 0 < batch.scale@[i].bits < 0x7F80_0000) by {
        crate::float32::lemma_classes_by_bits(batch.scale@[i]);
    }
}

} // verus!
