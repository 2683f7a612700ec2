//! The positional index.
//!
//! Vectors are stored compressed to a few bits per coordinate and are known by
//! their insertion slot. The numeric work (the rotation, the codebook, the
//! encoding of a batch, the scoring of queries) is done by functions that the
//! caller hands in; the index decides when each is called and with what, keeps
//! what it gives, and holds everything that it stores to one invariant.
//!
//! What can be derived again (the rotation, the codebook, the blocked form of
//! the codes) is derived on first use and kept. Changing the codes drops the
//! blocked form, so that one that was made here always belongs to the current
//! codes. What was derived before and comes with a loaded index is kept as it
//! is.

use vstd::prelude::*;

use crate::codebook::CodebookParts;
use crate::error::{AddError, ConstructError, FromPartsError};
use crate::float32::Float32;
use crate::kernels::{EncodeTask, EncodedBatch, SearchTask};
use crate::pack::{repack, BlockLayout, BLOCK};
use crate::runtime_cache::{RuntimeCache, RuntimeCacheMode};
use crate::search::{count_allowed, pack_mask, SearchResults};
use crate::validate::{first_invalid_coord, first_invalid_scale, first_invalid_tqplus_scale, first_invalid_tqplus_shift};

verus! {

/// Upper bound on vector dimensionality. The rotation is a matrix of `dim` by
/// `dim`, an allocation that no loaded file bounds by its size, so that a tiny
/// file could otherwise ask for gigabytes. The bound is the same at
/// construction, at the first addition and at loading, so that any index that
/// can be created can also be loaded back.
pub const MAX_DIM: usize = 16384;

/// The blocked form of the codes.
#[derive(Debug)]
pub struct BlockedCache {
    layout: BlockLayout,
    data: Vec<u8>,
    n_blocks: usize,
}

/// Positional index.
///
/// Stores vectors compressed to `bit_width` bits per coordinate (two, three or
/// four) and identifies each vector by its insertion slot. Slots are not
/// stable across [`Self::swap_remove`]: the last vector moves into the removed
/// slot.
#[derive(Debug)]
pub struct TurboQuantIndex {
    dim: Option<usize>,
    bit_width: usize,
    n_vectors: usize,
    packed_codes: Vec<u8>,
    scales: Vec<Float32>,
    tqplus_shift: Vec<Float32>,
    tqplus_scale: Vec<Float32>,
    rotation: Option<Vec<Float32>>,
    boundaries: Option<Vec<Float32>>,
    centroids: Option<Vec<Float32>>,
    blocked: Option<BlockedCache>,
    cache_dirty: RuntimeCacheMode,
}

// ---------------------------------------------------------------------------
// What an index holds
// ---------------------------------------------------------------------------

/// The contents of a [`BlockedCache`].
pub struct BlockedView {
    pub layout: BlockLayout,
    pub data: Seq<u8>,
    pub n_blocks: usize,
}

/// The contents of a [`TurboQuantIndex`].
pub struct IndexView {
    /// The dimension, once the index is committed to one.
    pub dim: Option<usize>,
    /// Bits per coordinate.
    pub bit_width: usize,
    /// Number of vectors.
    pub n_vectors: usize,
    /// The bit planes of the vectors, one row behind the other.
    pub packed_codes: Seq<u8>,
    /// One correction scale for each vector.
    pub scales: Seq<Float32>,
    /// The calibration shift of each coordinate.
    pub tqplus_shift: Seq<Float32>,
    /// The calibration scale of each coordinate.
    pub tqplus_scale: Seq<Float32>,
    /// The rotation, if it has been made.
    pub rotation: Option<Seq<Float32>>,
    /// The codebook's boundaries, if they have been made.
    pub boundaries: Option<Seq<Float32>>,
    /// The codebook's centroids, if they have been made.
    pub centroids: Option<Seq<Float32>>,
    /// The blocked form of the codes, if it has been made.
    pub blocked: Option<BlockedView>,
    /// What has happened to the codes since they were last written.
    pub cache_dirty: crate::runtime_cache::RuntimeCacheModeView,
}

/// A dimension that an index can have.
pub open spec fn valid_dim(dim: usize) -> bool {
    dim > 0 && dim % 8 == 0 && dim <= MAX_DIM
}

/// A bit width that an index can have.
pub open spec fn valid_bit_width(bit_width: usize) -> bool {
    2 <= bit_width <= 4
}

impl IndexView {
    /// The dimension, or zero where there is none yet.
    pub open spec fn dim_or_zero(self) -> usize {
        match self.dim {
            Some(dim) => dim,
            None => 0,
        }
    }

    /// Bytes of codes for each vector.
    pub open spec fn row_bytes(self) -> int {
        crate::pack::row_bytes(self.bit_width as int, self.dim_or_zero() as int)
    }

    /// The codes of the vector at a slot.
    pub open spec fn row(self, slot: int) -> Seq<u8> {
        crate::pack::row(
            self.packed_codes,
            self.bit_width as int,
            self.dim_or_zero() as int,
            slot,
        )
    }

    /// The vectors: the codes and the scale of each.
    pub open spec fn vectors(self) -> Seq<(Seq<u8>, Float32)> {
        Seq::new(self.n_vectors as nat, |slot: int| (self.row(slot), self.scales[slot]))
    }

    /// The blocked form that belongs to the codes.
    pub open spec fn blocked_form(self, layout: BlockLayout) -> BlockedView {
        BlockedView {
            layout,
            data: crate::pack::blocked(
                layout,
                self.packed_codes,
                self.n_vectors as int,
                self.bit_width as int,
                self.dim_or_zero() as int,
            ),
            n_blocks: crate::pack::block_count(self.n_vectors as int) as usize,
        }
    }

    /// The calibration that further vectors are encoded with, once there is
    /// one.
    pub open spec fn calibration(self) -> Option<(Seq<Float32>, Seq<Float32>)> {
        if self.tqplus_shift.len() == 0 {
            None
        } else {
            Some((self.tqplus_shift, self.tqplus_scale))
        }
    }

    /// The lengths fit together.
    pub open spec fn lengths_fit(self) -> bool {
        &&& valid_bit_width(self.bit_width)
        &&& match self.dim {
            Some(dim) => valid_dim(dim),
            None => self.n_vectors == 0 && self.tqplus_shift.len() == 0,
        }
        &&& self.packed_codes.len() == self.n_vectors * self.row_bytes()
        &&& self.scales.len() == self.n_vectors
        &&& self.tqplus_shift.len() == self.tqplus_scale.len()
        &&& self.tqplus_shift.len() == 0 || self.tqplus_shift.len() == self.dim_or_zero()
        &&& self.n_vectors > 0 ==> self.tqplus_shift.len() > 0
    }

    /// The values are such as searching can use.
    pub open spec fn values_fit(self) -> bool {
        &&& forall|i: int|
            0 <= i < self.scales.len() ==> (#[trigger] self.scales[i]).valid_scale()
        &&& forall|i: int|
            0 <= i < self.tqplus_shift.len() ==> (
            #[trigger] self.tqplus_shift[i]).valid_tqplus_shift()
        &&& forall|i: int|
            0 <= i < self.tqplus_scale.len() ==> (
            #[trigger] self.tqplus_scale[i]).valid_tqplus_scale()
    }

    /// The blocked form, where it is kept, is that of the current codes. No
    /// operation gives this up; an index that was put together with what had
    /// been derived before has it where the blocked form handed in was right.
    pub open spec fn cache_fits(self) -> bool {
        self.blocked matches Some(kept) ==> kept == self.blocked_form(kept.layout)
    }

    /// The invariant.
    pub open spec fn wf(self) -> bool {
        self.lengths_fit() && self.values_fit()
    }

    /// An index without vectors.
    pub open spec fn empty(dim: Option<usize>, bit_width: usize) -> IndexView {
        IndexView {
            dim,
            bit_width,
            n_vectors: 0,
            packed_codes: seq![],
            scales: seq![],
            tqplus_shift: seq![],
            tqplus_scale: seq![],
            rotation: None,
            boundaries: None,
            centroids: None,
            blocked: None,
            cache_dirty: crate::runtime_cache::RuntimeCacheModeView::AppendOnly,
        }
    }
}

/// The values that are kept, if any.
pub open spec fn kept(values: Option<Vec<Float32>>) -> Option<Seq<Float32>> {
    match values {
        Some(values) => Some(values@),
        None => None,
    }
}

impl View for BlockedCache {
    type V = BlockedView;

    closed spec fn view(&self) -> BlockedView {
        BlockedView { layout: self.layout, data: self.data@, n_blocks: self.n_blocks }
    }
}

impl View for TurboQuantIndex {
    type V = IndexView;

    closed spec fn view(&self) -> IndexView {
        IndexView {
            dim: self.dim,
            bit_width: self.bit_width,
            n_vectors: self.n_vectors,
            packed_codes: self.packed_codes@,
            scales: self.scales@,
            tqplus_shift: self.tqplus_shift@,
            tqplus_scale: self.tqplus_scale@,
            rotation: kept(self.rotation),
            boundaries: kept(self.boundaries),
            centroids: kept(self.centroids),
            blocked: match self.blocked {
                Some(cache) => Some(cache@),
                None => None,
            },
            cache_dirty: self.cache_dirty@,
        }
    }
}

impl TurboQuantIndex {
    /// The part of the invariant that the contents do not show.
    pub closed spec fn inner_wf(&self) -> bool {
        self.cache_dirty.wf()
    }

    /// The invariant.
    pub open spec fn wf(&self) -> bool {
        self@.wf() && self.inner_wf()
    }

    /// Constructs an index with a known dimensionality, which all vectors
    /// added later must have.
    ///
    /// Refuses a bit width other than two, three or four, and a dimension that
    /// is zero, not a multiple of eight, or larger than [`MAX_DIM`].
    pub fn new(dim: usize, bit_width: usize) -> (result: Result<TurboQuantIndex, ConstructError>)
        ensures
            result matches Ok(index) ==> index.wf() && index@ == IndexView::empty(
                Some(dim),
                bit_width,
            ),
            result is Ok <==> valid_bit_width(bit_width) && valid_dim(dim),
            !valid_bit_width(bit_width) ==> result == Err::<TurboQuantIndex, ConstructError>(
                ConstructError::BitWidthOutOfRange(bit_width),
            ),
            valid_bit_width(bit_width) && (dim == 0 || dim % 8 != 0) ==> result == Err::<
                TurboQuantIndex,
                ConstructError,
            >(ConstructError::DimNotPositiveMultipleOf8(dim)),
            valid_bit_width(bit_width) && dim % 8 == 0 && dim > MAX_DIM ==> result == Err::<
                TurboQuantIndex,
                ConstructError,
            >(ConstructError::DimTooLarge { dim, max: MAX_DIM }),
    {
        if bit_width < 2 || bit_width > 4 {
            return Err(ConstructError::BitWidthOutOfRange(bit_width));
        }
        if dim == 0 || dim % 8 != 0 {
            return Err(ConstructError::DimNotPositiveMultipleOf8(dim));
        }
        if dim > MAX_DIM {
            return Err(ConstructError::DimTooLarge { dim, max: MAX_DIM });
        }
        Ok(Self::empty(Some(dim), bit_width))
    }

    /// Constructs an empty index without committing to a dimensionality, which
    /// the first [`Self::add_2d`] then fixes.
    ///
    /// Refuses a bit width other than two, three or four.
    pub fn new_lazy(bit_width: usize) -> (result: Result<TurboQuantIndex, ConstructError>)
        ensures
            valid_bit_width(bit_width) ==> result is Ok && result->Ok_0.wf() && result->Ok_0@
                == IndexView::empty(None, bit_width),
            !valid_bit_width(bit_width) ==> result == Err::<TurboQuantIndex, ConstructError>(
                ConstructError::BitWidthOutOfRange(bit_width),
            ),
    {
        if bit_width < 2 || bit_width > 4 {
            return Err(ConstructError::BitWidthOutOfRange(bit_width));
        }
        Ok(Self::empty(None, bit_width))
    }

    fn empty(dim: Option<usize>, bit_width: usize) -> (result: TurboQuantIndex)
        requires
            valid_bit_width(bit_width),
            dim matches Some(d) ==> valid_dim(d),
        ensures
            result.wf(),
            result@ == IndexView::empty(dim, bit_width),
    {
        let result: TurboQuantIndex = TurboQuantIndex {
            dim,
            bit_width,
            n_vectors: 0,
            packed_codes: Vec::new(),
            scales: Vec::new(),
            tqplus_shift: Vec::new(),
            tqplus_scale: Vec::new(),
            rotation: None,
            boundaries: None,
            centroids: None,
            blocked: None,
            cache_dirty: RuntimeCacheMode::AppendOnly,
        };
        assert(result@.n_vectors * result@.row_bytes() == 0) by (nonlinear_arith)
            requires
                result@.n_vectors == 0,
        ;
        assert(result@.packed_codes =~= seq![]);
        assert(result@.scales =~= seq![]);
        assert(result@.tqplus_shift =~= seq![]);
        assert(result@.tqplus_scale =~= seq![]);
        result
    }

    /// The bit planes of the codes.
    pub fn packed_codes(&self) -> (result: &[u8])
        ensures
            result@ == self@.packed_codes,
    {
        self.packed_codes.as_slice()
    }

    /// The correction scale of each vector.
    pub fn scales(&self) -> (result: &[Float32])
        ensures
            result@ == self@.scales,
    {
        self.scales.as_slice()
    }

    /// The calibration shift of each coordinate, or nothing before there is a
    /// calibration.
    pub fn tqplus_shift(&self) -> (result: &[Float32])
        ensures
            result@ == self@.tqplus_shift,
    {
        self.tqplus_shift.as_slice()
    }

    /// The calibration scale of each coordinate, or nothing before there is a
    /// calibration.
    pub fn tqplus_scale(&self) -> (result: &[Float32])
        ensures
            result@ == self@.tqplus_scale,
    {
        self.tqplus_scale.as_slice()
    }

    /// The number of vectors.
    pub fn len(&self) -> (result: usize)
        ensures
            result == self@.n_vectors,
    {
        self.n_vectors
    }

    /// Whether there are no vectors.
    pub fn is_empty(&self) -> (result: bool)
        ensures
            result == (self@.n_vectors == 0),
    {
        self.n_vectors == 0
    }

    /// The dimension, or zero where the index is not committed to one. No
    /// index has the dimension zero.
    pub fn dim(&self) -> (result: usize)
        ensures
            result == self@.dim_or_zero(),
    {
        match self.dim {
            Some(dim) => dim,
            None => 0,
        }
    }

    /// The dimension, if the index is committed to one.
    pub fn dim_opt(&self) -> (result: Option<usize>)
        ensures
            result == self@.dim,
    {
        self.dim
    }

    /// Bits per coordinate.
    pub fn bit_width(&self) -> (result: usize)
        ensures
            result == self@.bit_width,
    {
        self.bit_width
    }

    /// What has happened to the codes since they were last written.
    pub fn runtime_cache_mode(&self) -> (result: RuntimeCacheMode)
        requires
            self.wf(),
        ensures
            result.wf(),
            result@ == self@.cache_dirty,
    {
        self.cache_dirty.copy()
    }
}

// ---------------------------------------------------------------------------
// Putting an index together from its parts
// ---------------------------------------------------------------------------

/// What an index is put together from.
pub struct IndexParts {
    /// The dimension; none for an index that has never had vectors.
    pub dim: Option<usize>,
    /// Bits per coordinate.
    pub bit_width: usize,
    /// Number of vectors.
    pub n_vectors: usize,
    /// The bit planes of the vectors.
    pub packed_codes: Seq<u8>,
    /// One correction scale for each vector.
    pub scales: Seq<Float32>,
    /// The calibration shifts, or nothing.
    pub tqplus_shift: Seq<Float32>,
    /// The calibration scales, or nothing.
    pub tqplus_scale: Seq<Float32>,
}

impl IndexParts {
    /// Bytes of codes that there should be.
    pub open spec fn expected_packed(self) -> int {
        self.n_vectors * crate::pack::row_bytes(
            self.bit_width as int,
            match self.dim {
                Some(dim) => dim as int,
                None => 0,
            },
        )
    }

    /// What is wrong with the lengths, if anything.
    pub open spec fn length_error(self) -> Option<FromPartsError> {
        if !valid_bit_width(self.bit_width) {
            Some(FromPartsError::BitWidthOutOfRange(self.bit_width))
        } else if self.tqplus_shift.len() != self.tqplus_scale.len() {
            Some(
                FromPartsError::TqplusLengthMismatch {
                    shift_len: self.tqplus_shift.len() as usize,
                    scale_len: self.tqplus_scale.len() as usize,
                },
            )
        } else {
            match self.dim {
                Some(dim) => if dim == 0 || dim % 8 != 0 {
                    Some(FromPartsError::DimNotPositiveMultipleOf8(dim))
                } else if dim > MAX_DIM {
                    Some(FromPartsError::DimTooLarge { dim, max: MAX_DIM })
                } else if self.expected_packed() > usize::MAX {
                    Some(
                        FromPartsError::PackedCodesSizeOverflow {
                            n_vectors: self.n_vectors,
                            dim,
                            bit_width: self.bit_width,
                        },
                    )
                } else if self.packed_codes.len() != self.expected_packed() {
                    Some(
                        FromPartsError::PackedCodesLengthMismatch {
                            expected: self.expected_packed() as usize,
                            got: self.packed_codes.len() as usize,
                        },
                    )
                } else if self.scales.len() != self.n_vectors {
                    Some(
                        FromPartsError::ScalesLengthMismatch {
                            expected: self.n_vectors,
                            got: self.scales.len() as usize,
                        },
                    )
                } else if self.tqplus_shift.len() != 0 && self.tqplus_shift.len() != dim {
                    Some(
                        FromPartsError::TqplusLengthNotDim {
                            got: self.tqplus_shift.len() as usize,
                            dim,
                        },
                    )
                } else {
                    None
                },
                None => if self.n_vectors != 0 {
                    Some(FromPartsError::LazyMustHaveZeroVectors(self.n_vectors))
                } else if self.packed_codes.len() != 0 {
                    Some(
                        FromPartsError::LazyMustHaveEmptyPackedCodes(
                            self.packed_codes.len() as usize,
                        ),
                    )
                } else if self.scales.len() != 0 {
                    Some(FromPartsError::LazyMustHaveEmptyScales(self.scales.len() as usize))
                } else if self.tqplus_shift.len() != 0 {
                    Some(FromPartsError::LazyMustHaveEmptyTqplus(self.tqplus_shift.len() as usize))
                } else {
                    None
                },
            }
        }
    }

    /// What is wrong with the values, if anything.
    pub open spec fn value_error(self) -> Option<FromPartsError> {
        let bad_scale = crate::validate::first_bad(self.scales, crate::validate::bad_scale());
        let bad_shift = crate::validate::first_bad(
            self.tqplus_shift,
            crate::validate::bad_tqplus_shift(),
        );
        let bad_tqplus_scale = crate::validate::first_bad(
            self.tqplus_scale,
            crate::validate::bad_tqplus_scale(),
        );
        if bad_scale is Some {
            let i = bad_scale->0;
            Some(FromPartsError::InvalidScaleValue { slot: i as usize, value: self.scales[i] })
        } else if bad_shift is Some {
            let i = bad_shift->0;
            Some(
                FromPartsError::InvalidTqplusShiftValue {
                    coord: i as usize,
                    value: self.tqplus_shift[i],
                },
            )
        } else if bad_tqplus_scale is Some {
            let i = bad_tqplus_scale->0;
            Some(
                FromPartsError::InvalidTqplusScaleValue {
                    coord: i as usize,
                    value: self.tqplus_scale[i],
                },
            )
        } else {
            None
        }
    }

    /// The first thing that is wrong with the parts, if anything.
    pub open spec fn error(self) -> Option<FromPartsError> {
        if self.length_error() is Some {
            self.length_error()
        } else {
            self.value_error()
        }
    }

    /// Vectors come without a calibration: they are taken to have the one that
    /// changes nothing.
    pub open spec fn needs_identity(self) -> bool {
        self.tqplus_shift.len() == 0 && self.n_vectors > 0
    }

    /// The index that good parts make, apart from what can be derived.
    pub open spec fn index(self) -> IndexView {
        IndexView {
            n_vectors: self.n_vectors,
            packed_codes: self.packed_codes,
            scales: self.scales,
            tqplus_shift: if self.needs_identity() {
                Seq::new(self.dim->0 as nat, |i: int| crate::float32::spec_zero())
            } else {
                self.tqplus_shift
            },
            tqplus_scale: if self.needs_identity() {
                Seq::new(self.dim->0 as nat, |i: int| crate::float32::spec_one())
            } else {
                self.tqplus_scale
            },
            ..IndexView::empty(self.dim, self.bit_width)
        }
    }

    /// The index that good parts make with what was derived from them before.
    pub open spec fn index_with_cache(self, cache: Option<RuntimeCache>) -> IndexView {
        match cache {
            Some(cache) => IndexView {
                rotation: Some(cache.rotation@),
                boundaries: Some(cache.boundaries@),
                centroids: Some(cache.centroids@),
                blocked: Some(
                    BlockedView {
                        layout: cache.layout,
                        data: cache.blocked_data@,
                        n_blocks: cache.n_blocks,
                    },
                ),
                ..self.index()
            },
            None => self.index(),
        }
    }
}

/// Good parts make a good index.
proof fn lemma_parts_make_index(parts: IndexParts)
    requires
        parts.error() is None,
    ensures
        parts.index().wf(),
{
    let index = parts.index();
    crate::validate::lemma_first_bad(parts.scales, crate::validate::bad_scale(), 0);
    crate::validate::lemma_first_bad(parts.tqplus_shift, crate::validate::bad_tqplus_shift(), 0);
    crate::validate::lemma_first_bad(parts.tqplus_scale, crate::validate::bad_tqplus_scale(), 0);
    assert forall|i: int| 0 <= i < index.scales.len() implies (
    #[trigger] index.scales[i]).valid_scale() by {
        assert(!crate::validate::bad_scale()(parts.scales[i]));
    }
    crate::float32::lemma_identity_values();
    assert forall|i: int| 0 <= i < index.tqplus_shift.len() implies (
    #[trigger] index.tqplus_shift[i]).valid_tqplus_shift() by {
        if !parts.needs_identity() {
            assert(!crate::validate::bad_tqplus_shift()(parts.tqplus_shift[i]));
        }
    }
    assert forall|i: int| 0 <= i < index.tqplus_scale.len() implies (
    #[trigger] index.tqplus_scale[i]).valid_tqplus_scale() by {
        if !parts.needs_identity() {
            assert(!crate::validate::bad_tqplus_scale()(parts.tqplus_scale[i]));
        }
    }
    if parts.dim is None {
        assert(parts.n_vectors * index.row_bytes() == 0) by (nonlinear_arith)
            requires
                parts.n_vectors == 0,
        ;
    }
}

impl TurboQuantIndex {
    /// Constructs an index directly from already decoded fields, and checks
    /// every one of them.
    ///
    /// Pair it with the accessors of an existing index to carry an index
    /// through storage of your own. Calibration arrays are both as long as the
    /// dimension or both empty; where they are empty and there are vectors,
    /// the calibration that changes nothing is filled in, so that vectors
    /// added later are encoded like those that are there.
    pub fn from_parts(
        dim: Option<usize>,
        bit_width: usize,
        n_vectors: usize,
        packed_codes: Vec<u8>,
        scales: Vec<Float32>,
        tqplus_shift: Vec<Float32>,
        tqplus_scale: Vec<Float32>,
    ) -> (result: Result<TurboQuantIndex, FromPartsError>)
        ensures
            ({
                let parts = IndexParts {
                    dim,
                    bit_width,
                    n_vectors,
                    packed_codes: packed_codes@,
                    scales: scales@,
                    tqplus_shift: tqplus_shift@,
                    tqplus_scale: tqplus_scale@,
                };
                match parts.error() {
                    Some(error) => result == Err::<TurboQuantIndex, FromPartsError>(error),
                    None => result is Ok && result->Ok_0.wf() && result->Ok_0@ == parts.index(),
                }
            }),
    {
        Self::from_parts_with_cache(
            dim,
            bit_width,
            n_vectors,
            packed_codes,
            scales,
            tqplus_shift,
            tqplus_scale,
            None,
        )
    }

    /// As [`Self::from_parts`], with what was derived from the parts before,
    /// which is kept as it is.
    pub fn from_parts_with_cache(
        dim: Option<usize>,
        bit_width: usize,
        n_vectors: usize,
        packed_codes: Vec<u8>,
        scales: Vec<Float32>,
        tqplus_shift: Vec<Float32>,
        tqplus_scale: Vec<Float32>,
        runtime_cache: Option<RuntimeCache>,
    ) -> (result: Result<TurboQuantIndex, FromPartsError>)
        ensures
            ({
                let parts = IndexParts {
                    dim,
                    bit_width,
                    n_vectors,
                    packed_codes: packed_codes@,
                    scales: scales@,
                    tqplus_shift: tqplus_shift@,
                    tqplus_scale: tqplus_scale@,
                };
                match parts.error() {
                    Some(error) => result == Err::<TurboQuantIndex, FromPartsError>(error),
                    None => result is Ok && result->Ok_0.wf() && result->Ok_0@
                        == parts.index_with_cache(runtime_cache),
                }
            }),
    {
        let ghost parts = IndexParts {
            dim,
            bit_width,
            n_vectors,
            packed_codes: packed_codes@,
            scales: scales@,
            tqplus_shift: tqplus_shift@,
            tqplus_scale: tqplus_scale@,
        };
        if bit_width < 2 || bit_width > 4 {
            return Err(FromPartsError::BitWidthOutOfRange(bit_width));
        }
        if tqplus_shift.len() != tqplus_scale.len() {
            return Err(
                FromPartsError::TqplusLengthMismatch {
                    shift_len: tqplus_shift.len(),
                    scale_len: tqplus_scale.len(),
                },
            );
        }
        match dim {
            Some(d) => {
                if d == 0 || d % 8 != 0 {
                    return Err(FromPartsError::DimNotPositiveMultipleOf8(d));
                }
                if d > MAX_DIM {
                    return Err(FromPartsError::DimTooLarge { dim: d, max: MAX_DIM });
                }
                assert(bit_width * (d / 8) <= 4 * 2048) by (nonlinear_arith)
                    requires
                        bit_width <= 4,
                        d <= 16384,
                ;
                let bytes_per_row: usize = bit_width * (d / 8);
                let expected_packed: usize = match n_vectors.checked_mul(bytes_per_row) {
                    Some(size) => size,
                    None => {
                        return Err(
                            FromPartsError::PackedCodesSizeOverflow {
                                n_vectors,
                                dim: d,
                                bit_width,
                            },
                        );
                    },
                };
                if packed_codes.len() != expected_packed {
                    return Err(
                        FromPartsError::PackedCodesLengthMismatch {
                            expected: expected_packed,
                            got: packed_codes.len(),
                        },
                    );
                }
                if scales.len() != n_vectors {
                    return Err(
                        FromPartsError::ScalesLengthMismatch {
                            expected: n_vectors,
                            got: scales.len(),
                        },
                    );
                }
                if tqplus_shift.len() != 0 && tqplus_shift.len() != d {
                    return Err(
                        FromPartsError::TqplusLengthNotDim { got: tqplus_shift.len(), dim: d },
                    );
                }
            },
            None => {
                if n_vectors != 0 {
                    return Err(FromPartsError::LazyMustHaveZeroVectors(n_vectors));
                }
                if packed_codes.len() != 0 {
                    return Err(FromPartsError::LazyMustHaveEmptyPackedCodes(packed_codes.len()));
                }
                if scales.len() != 0 {
                    return Err(FromPartsError::LazyMustHaveEmptyScales(scales.len()));
                }
                if tqplus_shift.len() != 0 {
                    return Err(FromPartsError::LazyMustHaveEmptyTqplus(tqplus_shift.len()));
                }
            },
        }
        assert(parts.length_error() is None);
        match first_invalid_scale(scales.as_slice()) {
            Some(i) => {
                proof {
                    crate::validate::lemma_first_bad(scales@, crate::validate::bad_scale(), 0);
                }
                return Err(FromPartsError::InvalidScaleValue { slot: i, value: scales[i] });
            },
            None => {},
        }
        match first_invalid_tqplus_shift(tqplus_shift.as_slice()) {
            Some(i) => {
                proof {
                    crate::validate::lemma_first_bad(
                        tqplus_shift@,
                        crate::validate::bad_tqplus_shift(),
                        0,
                    );
                }
                return Err(
                    FromPartsError::InvalidTqplusShiftValue { coord: i, value: tqplus_shift[i] },
                );
            },
            None => {},
        }
        match first_invalid_tqplus_scale(tqplus_scale.as_slice()) {
            Some(i) => {
                proof {
                    crate::validate::lemma_first_bad(
                        tqplus_scale@,
                        crate::validate::bad_tqplus_scale(),
                        0,
                    );
                }
                return Err(
                    FromPartsError::InvalidTqplusScaleValue { coord: i, value: tqplus_scale[i] },
                );
            },
            None => {},
        }
        assert(parts.error() is None);
        proof {
            lemma_parts_make_index(parts);
        }
        let (shift, scale): (Vec<Float32>, Vec<Float32>) = match dim {
            Some(d) => if tqplus_shift.len() == 0 && n_vectors > 0 {
                let shift: Vec<Float32> = vec![Float32::zero(); d];
                let scale: Vec<Float32> = vec![Float32::one(); d];
                (shift, scale)
            } else {
                (tqplus_shift, tqplus_scale)
            },
            None => (tqplus_shift, tqplus_scale),
        };
        assert(shift@ =~= parts.index().tqplus_shift);
        assert(scale@ =~= parts.index().tqplus_scale);
        let (rotation, boundaries, centroids, blocked): (
            Option<Vec<Float32>>,
            Option<Vec<Float32>>,
            Option<Vec<Float32>>,
            Option<BlockedCache>,
        ) = match runtime_cache {
            Some(cache) => (
                Some(cache.rotation),
                Some(cache.boundaries),
                Some(cache.centroids),
                Some(
                    BlockedCache {
                        layout: cache.layout,
                        data: cache.blocked_data,
                        n_blocks: cache.n_blocks,
                    },
                ),
            ),
            None => (None, None, None, None),
        };
        Ok(
            TurboQuantIndex {
                dim,
                bit_width,
                n_vectors,
                packed_codes,
                scales,
                tqplus_shift: shift,
                tqplus_scale: scale,
                rotation,
                boundaries,
                centroids,
                blocked,
                cache_dirty: RuntimeCacheMode::AppendOnly,
            },
        )
    }
}

// ---------------------------------------------------------------------------
// Removing a vector
// ---------------------------------------------------------------------------

/// Codes of `width` bytes a row, with row `idx` replaced by the last row and
/// the last row gone.
pub open spec fn swap_removed_codes(codes: Seq<u8>, width: int, idx: int, last: int) -> Seq<u8> {
    Seq::new(
        (last * width) as nat,
        |i: int|
            if idx * width <= i < idx * width + width {
                codes[last * width + (i - idx * width)]
            } else {
                codes[i]
            },
    )
}

/// A sequence with element `idx` replaced by the last and the last gone.
pub open spec fn swap_removed<T>(s: Seq<T>, idx: int) -> Seq<T> {
    s.update(idx, s.last()).drop_last()
}

impl IndexView {
    /// The index without the vector at `idx`, whose slot the last vector
    /// takes.
    pub open spec fn swap_removed(self, idx: usize) -> IndexView {
        let last = (self.n_vectors - 1) as usize;
        IndexView {
            n_vectors: last,
            packed_codes: swap_removed_codes(
                self.packed_codes,
                self.row_bytes(),
                idx as int,
                last as int,
            ),
            scales: swap_removed(self.scales, idx as int),
            blocked: None,
            cache_dirty: self.cache_dirty.marked(idx / BLOCK).marked(last / BLOCK),
            ..self
        }
    }
}

/// Where two rows lie that differ, and that they do not overlap.
pub proof fn lemma_rows_apart(width: int, a: int, b: int)
    requires
        0 <= width,
        0 <= a < b,
    ensures
        0 <= a * width,
        a * width + width <= b * width,
        (b + 1) * width == b * width + width,
        (a + 1) * width == a * width + width,
{
    assert(0 <= a * width && a * width + width <= b * width && (b + 1) * width == b * width + width
        && (a + 1) * width == a * width + width) by (nonlinear_arith)
        requires
            0 <= width,
            0 <= a < b,
    ;
}

/// Removing a vector keeps the invariant, and removes exactly that vector.
pub proof fn lemma_swap_removed(index: IndexView, idx: usize)
    requires
        index.wf(),
        idx < index.n_vectors,
    ensures
        index.swap_removed(idx).wf(),
        index.swap_removed(idx).vectors() == swap_removed(index.vectors(), idx as int),
{
    let after = index.swap_removed(idx);
    let last = index.n_vectors - 1;
    let w = index.row_bytes();
    let (bits, dim) = (index.bit_width as int, index.dim_or_zero() as int);
    crate::pack::lemma_row_bounds(
        index.packed_codes.len() as int,
        index.n_vectors as int,
        bits,
        dim,
        last,
    );
    assert(after.packed_codes.len() == after.n_vectors * after.row_bytes());
    let expected = swap_removed(index.vectors(), idx as int);
    assert forall|slot: int| 0 <= slot < last implies after.vectors()[slot] == expected[slot] by {
        lemma_rows_apart(w, slot, last);
        if slot < idx {
            lemma_rows_apart(w, slot, idx as int);
        } else if idx < slot {
            lemma_rows_apart(w, idx as int, slot);
        }
        if slot == idx {
            assert(after.row(slot) =~= index.row(last));
        } else {
            assert(after.row(slot) =~= index.row(slot));
        }
    }
    assert(after.vectors() =~= expected);
    assert forall|i: int| 0 <= i < after.scales.len() implies (
    #[trigger] after.scales[i]).valid_scale() by {
        if i == idx {
            assert(index.scales[last].valid_scale());
        } else {
            assert(index.scales[i].valid_scale());
        }
    }
}

impl TurboQuantIndex {
    /// Notes that a block of the codes no longer holds what it held.
    fn mark_runtime_cache_dirty(&mut self, block: usize)
        requires
            old(self).inner_wf(),
        ensures
            final(self).inner_wf(),
            final(self)@ == (IndexView {
                cache_dirty: old(self)@.cache_dirty.marked(block),
                ..old(self)@
            }),
    {
        let mut mode: RuntimeCacheMode = RuntimeCacheMode::AppendOnly;
        std::mem::swap(&mut mode, &mut self.cache_dirty);
        self.cache_dirty = mode.mark(block);
    }

    /// Notes that what is kept on disk beside the index belongs to the current
    /// codes.
    pub fn mark_runtime_cache_written(&mut self)
        requires
            old(self).wf(),
        ensures
            final(self).wf(),
            old(self)@.cache_fits() ==> final(self)@.cache_fits(),
            final(self)@ == (IndexView {
                cache_dirty: crate::runtime_cache::RuntimeCacheModeView::AppendOnly,
                ..old(self)@
            }),
    {
        self.cache_dirty = RuntimeCacheMode::AppendOnly;
    }

    /// Removes the vector at `idx` by putting the last vector in its place.
    ///
    /// Order is not preserved, and the slot of the vector that was last
    /// changes. Returns the old slot of the moved vector, which is `idx` where
    /// the removed vector was the last.
    pub fn swap_remove(&mut self, idx: usize) -> (result: usize)
        requires
            old(self).wf(),
            idx < old(self)@.n_vectors,
        ensures
            final(self).wf(),
            old(self)@.cache_fits() ==> final(self)@.cache_fits(),
            final(self)@ == old(self)@.swap_removed(idx),
            final(self)@.vectors() == swap_removed(old(self)@.vectors(), idx as int),
            result == old(self)@.n_vectors - 1,
    {
        let ghost before = self@;
        let ghost w = self@.row_bytes();
        let dim: usize = self.dim();
        let last: usize = self.n_vectors - 1;
        proof {
            lemma_swap_removed(self@, idx);
            crate::pack::lemma_row_bounds(
                self@.packed_codes.len() as int,
                self@.n_vectors as int,
                self@.bit_width as int,
                dim as int,
                last as int,
            );
            crate::pack::lemma_row_bounds(
                self@.packed_codes.len() as int,
                self@.n_vectors as int,
                self@.bit_width as int,
                dim as int,
                idx as int,
            );
            if idx < last {
                lemma_rows_apart(w, idx as int, last as int);
            }
        }
        let packed_len: usize = self.packed_codes.len();
        assert(w <= packed_len);
        let bytes_per_vec: usize = self.bit_width * (dim / 8);
        let src: usize = last * bytes_per_vec;
        if idx != last {
            let dst: usize = idx * bytes_per_vec;
            let mut t: usize = 0;
            while t < bytes_per_vec
                invariant
                    t <= bytes_per_vec,
                    dst + bytes_per_vec <= src,
                    src + bytes_per_vec <= packed_len,
                    self.packed_codes@.len() == packed_len == before.packed_codes.len(),
                    forall|i: int|
                        0 <= i < packed_len ==> #[trigger] self.packed_codes@[i] == if dst <= i
                            < dst + t {
                            before.packed_codes[src + (i - dst)]
                        } else {
                            before.packed_codes[i]
                        },
                    self@ == (IndexView { packed_codes: self.packed_codes@, ..before }),
                    self.inner_wf(),
                decreases bytes_per_vec - t,
            {
                let byte: u8 = self.packed_codes[src + t];
                self.packed_codes.set(dst + t, byte);
                t = t + 1;
            }
        }
        self.packed_codes.truncate(src);
        assert(self.packed_codes@ =~= swap_removed_codes(
            before.packed_codes,
            w,
            idx as int,
            last as int,
        ));
        self.scales.swap_remove(idx);
        self.n_vectors = last;
        self.blocked = None;
        self.mark_runtime_cache_dirty(idx / BLOCK);
        self.mark_runtime_cache_dirty(last / BLOCK);
        last
    }
}

// ---------------------------------------------------------------------------
// What is derived on first use
// ---------------------------------------------------------------------------

/// The rotation is kept as it was, or has been made.
pub open spec fn rotation_made<R: FnOnce(usize) -> Vec<Float32>>(
    before: Option<Seq<Float32>>,
    dim: usize,
    make_rotation: R,
    after: Option<Seq<Float32>>,
) -> bool {
    match before {
        Some(_) => after == before,
        None => exists|made: Vec<Float32>| #[trigger]
            make_rotation.ensures((dim,), made) && after == Some(made@),
    }
}

/// What is kept stays; what is not takes the new value.
pub open spec fn kept_or(before: Option<Seq<Float32>>, made: Seq<Float32>) -> Option<Seq<Float32>> {
    match before {
        Some(_) => before,
        None => Some(made),
    }
}

/// The codebook is kept as it was, or what was missing of it has been made.
pub open spec fn codebook_made<C: FnOnce(usize, usize) -> CodebookParts>(
    before: (Option<Seq<Float32>>, Option<Seq<Float32>>),
    bit_width: usize,
    dim: usize,
    make_codebook: C,
    after: (Option<Seq<Float32>>, Option<Seq<Float32>>),
) -> bool {
    if before.0 is Some && before.1 is Some {
        after == before
    } else {
        exists|made: CodebookParts| #[trigger]
            make_codebook.ensures((bit_width, dim), made) && after == (
                kept_or(before.0, made.0@),
                kept_or(before.1, made.1@),
            )
    }
}

/// The centroids are kept as they were, or have been made.
pub open spec fn centroids_made<C: FnOnce(usize, usize) -> CodebookParts>(
    before: Option<Seq<Float32>>,
    bit_width: usize,
    dim: usize,
    make_codebook: C,
    after: Option<Seq<Float32>>,
) -> bool {
    match before {
        Some(_) => after == before,
        None => exists|made: CodebookParts| #[trigger]
            make_codebook.ensures((bit_width, dim), made) && after == Some(made.1@),
    }
}

impl TurboQuantIndex {
    fn ensure_rotation<R>(&mut self, dim: usize, make_rotation: R) where
        R: FnOnce(usize) -> Vec<Float32>,

        requires
            old(self).wf(),
            old(self)@.rotation is None ==> make_rotation.requires((dim,)),
        ensures
            final(self).wf(),
            old(self)@.cache_fits() ==> final(self)@.cache_fits(),
            final(self)@ == (IndexView { rotation: final(self)@.rotation, ..old(self)@ }),
            final(self)@.rotation is Some,
            rotation_made(old(self)@.rotation, dim, make_rotation, final(self)@.rotation),
    {
        if self.rotation.is_none() {
            self.rotation = Some(make_rotation(dim));
        }
    }

    fn ensure_codebook<C>(&mut self, dim: usize, make_codebook: C) where
        C: FnOnce(usize, usize) -> CodebookParts,

        requires
            old(self).wf(),
            old(self)@.boundaries is None || old(self)@.centroids is None
                ==> make_codebook.requires((old(self)@.bit_width, dim)),
        ensures
            final(self).wf(),
            old(self)@.cache_fits() ==> final(self)@.cache_fits(),
            final(self)@ == (IndexView {
                boundaries: final(self)@.boundaries,
                centroids: final(self)@.centroids,
                ..old(self)@
            }),
            final(self)@.boundaries is Some,
            final(self)@.centroids is Some,
            codebook_made(
                (old(self)@.boundaries, old(self)@.centroids),
                old(self)@.bit_width,
                dim,
                make_codebook,
                (final(self)@.boundaries, final(self)@.centroids),
            ),
    {
        if self.boundaries.is_none() || self.centroids.is_none() {
            let (boundaries, centroids): CodebookParts = make_codebook(self.bit_width, dim);
            if self.boundaries.is_none() {
                self.boundaries = Some(boundaries);
            }
            if self.centroids.is_none() {
                self.centroids = Some(centroids);
            }
        }
    }

    fn ensure_centroids<C>(&mut self, dim: usize, make_codebook: C) where
        C: FnOnce(usize, usize) -> CodebookParts,

        requires
            old(self).wf(),
            old(self)@.centroids is None ==> make_codebook.requires((old(self)@.bit_width, dim)),
        ensures
            final(self).wf(),
            old(self)@.cache_fits() ==> final(self)@.cache_fits(),
            final(self)@ == (IndexView { centroids: final(self)@.centroids, ..old(self)@ }),
            final(self)@.centroids is Some,
            centroids_made(
                old(self)@.centroids,
                old(self)@.bit_width,
                dim,
                make_codebook,
                final(self)@.centroids,
            ),
    {
        if self.centroids.is_none() {
            let (boundaries, centroids): CodebookParts = make_codebook(self.bit_width, dim);
            self.centroids = Some(centroids);
        }
    }
}

// ---------------------------------------------------------------------------
// Adding vectors
// ---------------------------------------------------------------------------

impl IndexView {
    /// The index with a batch of `n` encoded vectors behind those that it has.
    /// The calibration of the first vectors is the one that stays.
    pub open spec fn appended(
        self,
        n: usize,
        batch: crate::kernels::EncodedBatchView,
    ) -> IndexView {
        IndexView {
            n_vectors: (self.n_vectors + n) as usize,
            packed_codes: self.packed_codes + batch.packed,
            scales: self.scales + batch.scales,
            tqplus_shift: if self.n_vectors == 0 {
                batch.shift
            } else {
                self.tqplus_shift
            },
            tqplus_scale: if self.n_vectors == 0 {
                batch.scale
            } else {
                self.tqplus_scale
            },
            blocked: None,
            ..self
        }
    }

    /// What the encoder is handed for a flat batch, once the rotation and the
    /// codebook are there.
    pub open spec fn encode_task(self, vectors: Seq<Float32>) -> crate::kernels::EncodeTaskView {
        crate::kernels::EncodeTaskView {
            vectors,
            n: (vectors.len() / self.dim_or_zero() as nat) as usize,
            dim: self.dim_or_zero(),
            rotation: self.rotation->0,
            boundaries: self.boundaries->0,
            centroids: self.centroids->0,
            bit_width: self.bit_width,
            existing: self.calibration(),
        }
    }

    /// What the encoder may be handed for a flat batch: as
    /// [`Self::encode_task`] has it, with any rotation and codebook where none
    /// is kept.
    pub open spec fn may_encode(
        self,
        vectors: Seq<Float32>,
        task: crate::kernels::EncodeTaskView,
    ) -> bool {
        task == IndexView {
            rotation: kept_or(self.rotation, task.rotation),
            boundaries: kept_or(self.boundaries, task.boundaries),
            centroids: kept_or(self.centroids, task.centroids),
            ..self
        }.encode_task(vectors)
    }
}

/// The rows of two stretches of codes, one behind the other.
proof fn lemma_rows_concatenate(
    first: Seq<u8>,
    n: int,
    second: Seq<u8>,
    m: int,
    bits: int,
    dim: int,
    slot: int,
)
    requires
        crate::pack::valid_params(bits, dim),
        first.len() == n * crate::pack::row_bytes(bits, dim),
        second.len() == m * crate::pack::row_bytes(bits, dim),
        0 <= slot < n + m,
        0 <= n,
        0 <= m,
    ensures
        slot < n ==> crate::pack::row(first + second, bits, dim, slot) == crate::pack::row(
            first,
            bits,
            dim,
            slot,
        ),
        slot >= n ==> crate::pack::row(first + second, bits, dim, slot) == crate::pack::row(
            second,
            bits,
            dim,
            slot - n,
        ),
{
    let w = crate::pack::row_bytes(bits, dim);
    if slot < n {
        crate::pack::lemma_row_bounds(first.len() as int, n, bits, dim, slot);
        assert(crate::pack::row(first + second, bits, dim, slot) =~= crate::pack::row(
            first,
            bits,
            dim,
            slot,
        ));
    } else {
        crate::pack::lemma_row_bounds(second.len() as int, m, bits, dim, slot - n);
        assert(slot * w == n * w + (slot - n) * w && (slot + 1) * w == n * w + (slot - n + 1) * w)
            by (nonlinear_arith);
        assert(crate::pack::row(first + second, bits, dim, slot) =~= crate::pack::row(
            second,
            bits,
            dim,
            slot - n,
        ));
    }
}

/// Appending a batch that fits keeps the invariant, and puts the batch's
/// vectors behind those that were there.
pub proof fn lemma_appended(index: IndexView, n: usize, batch: crate::kernels::EncodedBatchView)
    requires
        index.wf(),
        index.dim is Some,
        batch.fits(n as int, index.dim->0 as int, index.bit_width as int),
        n > 0,
        index.n_vectors + n <= usize::MAX,
    ensures
        index.appended(n, batch).wf(),
        index.appended(n, batch).vectors() == index.vectors() + batch.vectors(
            index.dim->0 as int,
            index.bit_width as int,
        ),
{
    let after = index.appended(n, batch);
    let (bits, dim) = (index.bit_width as int, index.dim->0 as int);
    let w = index.row_bytes();
    assert(index.n_vectors * w + n * w == (index.n_vectors + n) * w) by (nonlinear_arith);
    let expected = index.vectors() + batch.vectors(dim, bits);
    assert forall|slot: int| 0 <= slot < after.n_vectors implies after.vectors()[slot]
        == expected[slot] by {
        lemma_rows_concatenate(
            index.packed_codes,
            index.n_vectors as int,
            batch.packed,
            n as int,
            bits,
            dim,
            slot,
        );
    }
    assert(after.vectors() =~= expected);
    assert forall|i: int| 0 <= i < after.scales.len() implies (
    #[trigger] after.scales[i]).valid_scale() by {
        if i < index.scales.len() {
            assert(index.scales[i].valid_scale());
        } else {
            assert(batch.scales[i - index.scales.len()].valid_scale());
        }
    }
}

impl TurboQuantIndex {
    /// Puts an encoded batch behind the vectors that are there. The blocked
    /// form, which belonged to the vectors before, is dropped.
    pub fn append_encoded(&mut self, n: usize, batch: EncodedBatch)
        requires
            old(self).wf(),
            old(self)@.dim is Some,
            batch@.fits(n as int, old(self)@.dim->0 as int, old(self)@.bit_width as int),
            n > 0,
        ensures
            final(self).wf(),
            old(self)@.cache_fits() ==> final(self)@.cache_fits(),
            old(self)@.n_vectors + n <= usize::MAX,
            final(self)@ == old(self)@.appended(n, batch@),
            final(self)@.vectors() == old(self)@.vectors() + batch@.vectors(
                old(self)@.dim->0 as int,
                old(self)@.bit_width as int,
            ),
    {
        let ghost before = self@;
        let ghost view = batch@;
        let mut batch: EncodedBatch = batch;
        self.packed_codes.append(&mut batch.packed);
        self.scales.append(&mut batch.scales);
        let packed_len: usize = self.packed_codes.len();
        proof {
            let w = before.row_bytes();
            assert(w >= 2) by (nonlinear_arith)
                requires
                    w == before.bit_width * (before.dim->0 as int / 8),
                    before.bit_width >= 2,
                    before.dim->0 as int / 8 >= 1,
            ;
            assert(before.n_vectors + n <= packed_len) by (nonlinear_arith)
                requires
                    packed_len == before.n_vectors * w + n * w,
                    w >= 2,
                    before.n_vectors >= 0,
                    n >= 0,
            ;
            lemma_appended(before, n, view);
        }
        if self.n_vectors == 0 {
            self.tqplus_shift = batch.shift;
            self.tqplus_scale = batch.scale;
        }
        self.n_vectors = self.n_vectors + n;
        self.blocked = None;
        assert(self@ == before.appended(n, view));
    }

    /// Adds a flat batch of vectors to an index that is committed to a
    /// dimension.
    ///
    /// An empty batch changes nothing. Otherwise the rotation and the codebook
    /// are made if they are not kept, and the batch is encoded: with the
    /// calibration of the first batch, or, for the first batch, with one that
    /// the encoder fits and that is kept from then on.
    pub fn add<R, C, E>(
        &mut self,
        vectors: &[Float32],
        make_rotation: R,
        make_codebook: C,
        encode: E,
    ) where
        R: FnOnce(usize) -> Vec<Float32>,
        C: FnOnce(usize, usize) -> CodebookParts,
        E: for <'a>FnOnce(EncodeTask<'a>) -> EncodedBatch,

        requires
            old(self).wf(),
            old(self)@.dim is Some,
            vectors@.len() % (old(self)@.dim->0 as nat) == 0,
            crate::validate::first_invalid(vectors@, old(self)@.dim->0) is None,
            vectors@.len() > 0 ==> encoding_ready(
                old(self)@,
                vectors@,
                make_rotation,
                make_codebook,
                encode,
            ),
        ensures
            final(self).wf(),
            old(self)@.cache_fits() ==> final(self)@.cache_fits(),
            added(old(self)@, vectors@, make_rotation, make_codebook, encode, final(self)@),
    {
        let dim: usize = self.dim();
        let n: usize = vectors.len() / dim;
        proof {
            vstd::arithmetic::div_mod::lemma_fundamental_div_mod(
                vectors@.len() as int,
                dim as int,
            );
            assert(n == 0 <==> vectors@.len() == 0) by (nonlinear_arith)
                requires
                    vectors@.len() == dim * n,
                    dim > 0,
            ;
        }
        if n == 0 {
            return ;
        }
        let ghost before = self@;
        self.ensure_rotation(dim, make_rotation);
        self.ensure_codebook(dim, make_codebook);
        let ghost ready = self@;
        let existing: Option<(&[Float32], &[Float32])> = if self.tqplus_shift.len() == 0 {
            None
        } else {
            Some((self.tqplus_shift.as_slice(), self.tqplus_scale.as_slice()))
        };
        let ghost mut handed: Option<EncodeTask> = None;
        let batch: EncodedBatch = match (&self.rotation, &self.boundaries, &self.centroids) {
            (Some(rotation), Some(boundaries), Some(centroids)) => {
                let task: EncodeTask = EncodeTask {
                    vectors,
                    n,
                    dim,
                    rotation: rotation.as_slice(),
                    boundaries: boundaries.as_slice(),
                    centroids: centroids.as_slice(),
                    bit_width: self.bit_width,
                    existing,
                };
                proof {
                    handed = Some(task);
                    assert(task@ == ready.encode_task(vectors@));
                    assert(before.may_encode(vectors@, task@));
                }
                encode(task)
            },
            _ => {
                return ;
            },
        };
        let ghost view = batch@;
        assert(encode.ensures((handed->0,), batch));
        self.append_encoded(n, batch);
        assert(ready.vectors() =~= before.vectors());
        assert(self@ == (IndexView {
            rotation: self@.rotation,
            boundaries: self@.boundaries,
            centroids: self@.centroids,
            ..before
        }).appended(n, view));
    }
}

/// The functions handed in can be called as adding a batch calls them, and the
/// encoder gives batches that fit.
pub open spec fn encoding_ready<R, C, E>(
    index: IndexView,
    vectors: Seq<Float32>,
    make_rotation: R,
    make_codebook: C,
    encode: E,
) -> bool where
    R: FnOnce(usize) -> Vec<Float32>,
    C: FnOnce(usize, usize) -> CodebookParts,
    E: for <'a>FnOnce(EncodeTask<'a>) -> EncodedBatch,
 {
    let dim = index.dim_or_zero();
    &&& index.rotation is None ==> make_rotation.requires((dim,))
    &&& index.boundaries is None || index.centroids is None ==> make_codebook.requires(
        (index.bit_width, dim),
    )
    &&& forall|task: EncodeTask|
        index.may_encode(vectors, task@) ==> #[trigger] encode.requires((task,))
    &&& forall|task: EncodeTask, batch: EncodedBatch|
        index.may_encode(vectors, task@) && #[trigger] encode.ensures((task,), batch)
            ==> batch@.fits(task.n as int, dim as int, index.bit_width as int)
}

/// A batch has been encoded and put behind the vectors that were there: the
/// encoder was handed the batch, what is kept, and the calibration of the
/// index, and what it gave was appended.
pub open spec fn encoded_and_appended<R, C, E>(
    before: IndexView,
    vectors: Seq<Float32>,
    make_rotation: R,
    make_codebook: C,
    encode: E,
    after: IndexView,
) -> bool where
    R: FnOnce(usize) -> Vec<Float32>,
    C: FnOnce(usize, usize) -> CodebookParts,
    E: for <'a>FnOnce(EncodeTask<'a>) -> EncodedBatch,
 {
    let dim = before.dim_or_zero();
    let ready = IndexView {
        rotation: after.rotation,
        boundaries: after.boundaries,
        centroids: after.centroids,
        ..before
    };
    &&& after.rotation is Some && after.boundaries is Some && after.centroids is Some
    &&& rotation_made(before.rotation, dim, make_rotation, after.rotation)
    &&& codebook_made(
        (before.boundaries, before.centroids),
        before.bit_width,
        dim,
        make_codebook,
        (after.boundaries, after.centroids),
    )
    &&& exists|task: EncodeTask, batch: EncodedBatch|
        {
            &&& #[trigger] encode.ensures((task,), batch)
            &&& task@ == ready.encode_task(vectors)
            &&& batch@.fits(task.n as int, dim as int, before.bit_width as int)
            &&& before.n_vectors + task.n <= usize::MAX
            &&& after == ready.appended(task.n, batch@)
            &&& after.vectors() == before.vectors() + batch@.vectors(
                dim as int,
                before.bit_width as int,
            )
        }
}

/// A batch has been added: an empty one changes nothing, and any other is
/// encoded and put behind the vectors that were there.
pub open spec fn added<R, C, E>(
    before: IndexView,
    vectors: Seq<Float32>,
    make_rotation: R,
    make_codebook: C,
    encode: E,
    after: IndexView,
) -> bool where
    R: FnOnce(usize) -> Vec<Float32>,
    C: FnOnce(usize, usize) -> CodebookParts,
    E: for <'a>FnOnce(EncodeTask<'a>) -> EncodedBatch,
 {
    if vectors.len() == 0 {
        after == before
    } else {
        encoded_and_appended(before, vectors, make_rotation, make_codebook, encode, after)
    }
}

impl IndexView {
    /// Why vectors of dimension `dim` are refused, if they are.
    pub open spec fn add_error(self, vectors: Seq<Float32>, dim: usize) -> Option<AddError> {
        let refused = match self.dim {
            Some(existing) => if existing != dim {
                Some(AddError::DimMismatch { existing, got: dim })
            } else {
                None
            },
            None => if dim == 0 || dim % 8 != 0 {
                Some(AddError::DimNotMultipleOf8(dim))
            } else if dim > MAX_DIM {
                Some(AddError::DimTooLarge { dim, max: MAX_DIM })
            } else {
                None
            },
        };
        if refused is Some {
            refused
        } else {
            match crate::validate::first_invalid(vectors, dim) {
                Some((vector_index, coord_index, value)) => Some(
                    AddError::InvalidInputValue { vector_index, coord_index, value },
                ),
                None => None,
            }
        }
    }

    /// The index, committed to a dimension.
    pub open spec fn committed(self, dim: usize) -> IndexView {
        IndexView { dim: Some(dim), ..self }
    }
}

/// Committing an index that has no vectors to a dimension keeps the invariant.
pub proof fn lemma_committed(index: IndexView, dim: usize)
    requires
        index.wf(),
        index.dim is None,
        valid_dim(dim),
    ensures
        index.committed(dim).wf(),
        index.cache_fits() ==> index.committed(dim).cache_fits(),
{
    let after = index.committed(dim);
    assert(after.n_vectors * after.row_bytes() == 0 && index.n_vectors * index.row_bytes() == 0)
        by (nonlinear_arith)
        requires
            after.n_vectors == 0,
            index.n_vectors == 0,
    ;
    if index.blocked is Some && index.cache_fits() {
        let layout = index.blocked->0.layout;
        let bits = index.bit_width as int;
        crate::pack::lemma_blocked_len(layout, index.packed_codes, 0, bits, 0);
        crate::pack::lemma_blocked_len(layout, index.packed_codes, 0, bits, dim as int);
        assert(crate::pack::blocked(layout, index.packed_codes, 0, bits, dim as int)
            =~= crate::pack::blocked(layout, index.packed_codes, 0, bits, 0));
    }
}

impl TurboQuantIndex {
    /// Adds vectors of dimension `dim`. An index that is not committed to a
    /// dimension is committed to this one; another must have it already.
    ///
    /// Where the dimension does not match, cannot be one, or a coordinate
    /// cannot be taken, nothing changes, and an index that was not committed
    /// to a dimension still is not.
    pub fn add_2d<R, C, E>(
        &mut self,
        vectors: &[Float32],
        dim: usize,
        make_rotation: R,
        make_codebook: C,
        encode: E,
    ) -> (result: Result<(), AddError>) where
        R: FnOnce(usize) -> Vec<Float32>,
        C: FnOnce(usize, usize) -> CodebookParts,
        E: for <'a>FnOnce(EncodeTask<'a>) -> EncodedBatch,

        requires
            old(self).wf(),
            old(self)@.add_error(vectors@, dim) is None ==> vectors@.len() % (dim as nat) == 0,
            old(self)@.add_error(vectors@, dim) is None && vectors@.len() > 0 ==> encoding_ready(
                old(self)@.committed(dim),
                vectors@,
                make_rotation,
                make_codebook,
                encode,
            ),
        ensures
            final(self).wf(),
            old(self)@.cache_fits() ==> final(self)@.cache_fits(),
            match old(self)@.add_error(vectors@, dim) {
                Some(error) => result == Err::<(), AddError>(error) && final(self)@ == old(self)@,
                None => result is Ok && added(
                    old(self)@.committed(dim),
                    vectors@,
                    make_rotation,
                    make_codebook,
                    encode,
                    final(self)@,
                ),
            },
    {
        match self.dim {
            Some(existing) => {
                if existing != dim {
                    return Err(AddError::DimMismatch { existing, got: dim });
                }
            },
            None => {
                if dim == 0 || dim % 8 != 0 {
                    return Err(AddError::DimNotMultipleOf8(dim));
                }
                if dim > MAX_DIM {
                    return Err(AddError::DimTooLarge { dim, max: MAX_DIM });
                }
            },
        }
        match first_invalid_coord(vectors, dim) {
            Some((vector_index, coord_index, value)) => {
                return Err(AddError::InvalidInputValue { vector_index, coord_index, value });
            },
            None => {},
        }
        if self.dim.is_none() {
            proof {
                lemma_committed(self@, dim);
            }
            self.dim = Some(dim);
        }
        assert(self@ == old(self)@.committed(dim));
        self.add(vectors, make_rotation, make_codebook, encode);
        Ok(())
    }
}

// ---------------------------------------------------------------------------
// Searching
// ---------------------------------------------------------------------------

impl IndexView {
    /// The blocked form that is kept, or the one that belongs to the codes.
    pub open spec fn kept_blocked(self, layout: BlockLayout) -> BlockedView {
        match self.blocked {
            Some(kept) => kept,
            None => self.blocked_form(layout),
        }
    }

    /// The blocked form is small enough for the machine.
    pub open spec fn blocked_fits_machine(self) -> bool {
        crate::pack::blocked_len(
            self.n_vectors as int,
            self.bit_width as int,
            self.dim_or_zero() as int,
        ) <= usize::MAX
    }

    /// The number of slots that a search may find.
    pub open spec fn allowed(self, mask: Option<Seq<bool>>) -> int {
        match mask {
            Some(mask) => crate::search::allowed_count(mask) as int,
            None => self.n_vectors as int,
        }
    }

    /// What the scoring is handed for flat queries, once what it needs is
    /// there.
    pub open spec fn search_task(
        self,
        queries: Seq<Float32>,
        k: usize,
        words: Option<Seq<u64>>,
    ) -> crate::kernels::SearchTaskView {
        crate::kernels::SearchTaskView {
            queries,
            nq: (queries.len() / self.dim_or_zero() as nat) as usize,
            rotation: self.rotation->0,
            layout: self.blocked->0.layout,
            blocked: self.blocked->0.data,
            centroids: self.centroids->0,
            scales: self.scales,
            tqplus_shift: self.tqplus_shift,
            tqplus_scale: self.tqplus_scale,
            bit_width: self.bit_width,
            dim: self.dim_or_zero(),
            n_vectors: self.n_vectors,
            n_blocks: self.blocked->0.n_blocks,
            k,
            mask: words,
        }
    }

    /// There is nothing to search, or everything that searching needs is kept.
    pub open spec fn is_prepared(self) -> bool {
        self.n_vectors == 0 || (self.rotation is Some && self.centroids is Some && self.blocked is Some)
    }

    /// The index with its blocked form made.
    pub open spec fn with_blocked(self, layout: BlockLayout) -> IndexView {
        IndexView { blocked: Some(self.kept_blocked(layout)), ..self }
    }
}

/// The packed mask is that of the mask, if there is one.
pub open spec fn words_fit(words: Option<Seq<u64>>, mask: Option<Seq<bool>>) -> bool {
    match mask {
        Some(mask) => words is Some && crate::search::packs_mask(words->0, mask),
        None => words is None,
    }
}

impl IndexView {
    /// What the scoring may be handed for flat queries: as
    /// [`Self::search_task`] has it, with any rotation and centroids where none
    /// are kept.
    pub open spec fn may_score(
        self,
        queries: Seq<Float32>,
        k: usize,
        mask: Option<Seq<bool>>,
        layout: BlockLayout,
        task: crate::kernels::SearchTaskView,
    ) -> bool {
        &&& words_fit(task.mask, mask)
        &&& task == (IndexView {
            rotation: kept_or(self.rotation, task.rotation),
            centroids: kept_or(self.centroids, task.centroids),
            ..self
        }).with_blocked(layout).search_task(queries, k, task.mask)
    }

    /// The number of results per query.
    pub open spec fn result_count(self, k: usize, mask: Option<Seq<bool>>) -> int {
        crate::search::effective_count(k as int, self.n_vectors as int, self.allowed(mask))
    }

    /// The number of queries in a flat batch.
    pub open spec fn query_count(self, queries: Seq<Float32>) -> nat {
        queries.len() / self.dim_or_zero() as nat
    }
}

/// The scoring can be called as a search calls it, and gives scores and slots
/// that fit.
pub open spec fn scorer_ready<S>(
    index: IndexView,
    queries: Seq<Float32>,
    k: usize,
    mask: Option<Seq<bool>>,
    layout: BlockLayout,
    score: S,
) -> bool where S: for <'a>FnOnce(SearchTask<'a>) -> (Vec<Float32>, Vec<i64>) {
    &&& forall|task: SearchTask|
        index.may_score(queries, k, mask, layout, task@) ==> #[trigger] score.requires((task,))
    &&& forall|task: SearchTask, found: (Vec<Float32>, Vec<i64>)|
        index.may_score(queries, k, mask, layout, task@) && #[trigger] score.ensures((task,), found)
            ==> crate::search::results_fit(
            found.0@,
            found.1@,
            index.query_count(queries) as int,
            index.result_count(k, mask),
            index.n_vectors as int,
            mask,
        )
}

/// The functions handed in can be called as a search calls them, and the
/// scoring gives scores and slots that fit.
pub open spec fn scoring_ready<R, C, S>(
    index: IndexView,
    queries: Seq<Float32>,
    k: usize,
    mask: Option<Seq<bool>>,
    layout: BlockLayout,
    make_rotation: R,
    make_codebook: C,
    score: S,
) -> bool where
    R: FnOnce(usize) -> Vec<Float32>,
    C: FnOnce(usize, usize) -> CodebookParts,
    S: for <'a>FnOnce(SearchTask<'a>) -> (Vec<Float32>, Vec<i64>),
 {
    &&& index.rotation is None ==> make_rotation.requires((index.dim_or_zero(),))
    &&& index.centroids is None ==> make_codebook.requires((index.bit_width, index.dim_or_zero()))
    &&& scorer_ready(index, queries, k, mask, layout, score)
}

/// Queries have been scored against an index that keeps what that needs: the
/// scoring was handed the queries, the index and the mask, and what it gave,
/// which fits, is the result.
pub open spec fn scored_by<S>(
    index: IndexView,
    queries: Seq<Float32>,
    k: usize,
    mask: Option<Seq<bool>>,
    score: S,
    result: SearchResults,
) -> bool where S: for <'a>FnOnce(SearchTask<'a>) -> (Vec<Float32>, Vec<i64>) {
    &&& result.nq == index.query_count(queries)
    &&& result.k == index.result_count(k, mask)
    &&& crate::search::results_fit(
        result.scores@,
        result.indices@,
        result.nq as int,
        result.k as int,
        index.n_vectors as int,
        mask,
    )
    &&& exists|task: SearchTask, found: (Vec<Float32>, Vec<i64>)|
        {
            &&& #[trigger] score.ensures((task,), found)
            &&& words_fit(task@.mask, mask)
            &&& task@ == index.search_task(queries, k, task@.mask)
            &&& result.scores == found.0
            &&& result.indices == found.1
        }
}

/// Queries have been scored: what scoring needs was made where it was not
/// kept, and the queries were scored against the index that then keeps it.
pub open spec fn scored<R, C, S>(
    before: IndexView,
    queries: Seq<Float32>,
    k: usize,
    mask: Option<Seq<bool>>,
    layout: BlockLayout,
    make_rotation: R,
    make_codebook: C,
    score: S,
    after: IndexView,
    result: SearchResults,
) -> bool where
    R: FnOnce(usize) -> Vec<Float32>,
    C: FnOnce(usize, usize) -> CodebookParts,
    S: for <'a>FnOnce(SearchTask<'a>) -> (Vec<Float32>, Vec<i64>),
 {
    &&& prepared(before, layout, make_rotation, make_codebook, after)
    &&& scored_by(after, queries, k, mask, score, result)
}

/// Queries and a mask that an index can be searched with.
pub open spec fn searchable(
    index: IndexView,
    queries: Seq<Float32>,
    mask: Option<Seq<bool>>,
) -> bool {
    &&& index.dim matches Some(dim) ==> queries.len() % (dim as nat) == 0
    &&& crate::validate::first_invalid(queries, index.dim_or_zero()) is None
    &&& mask matches Some(mask) ==> mask.len() == index.n_vectors
}

/// The result of a search that has nothing to find.
pub open spec fn nothing_found(
    index: IndexView,
    queries: Seq<Float32>,
    result: SearchResults,
) -> bool {
    &&& result.scores@.len() == 0 && result.indices@.len() == 0 && result.k == 0
    &&& result.nq == match index.dim {
        Some(dim) => queries.len() / (dim as nat),
        None => 0,
    }
}

/// A search has been run: an index without vectors has nothing to find and
/// stays as it is, and otherwise the queries were scored.
pub open spec fn searched<R, C, S>(
    before: IndexView,
    queries: Seq<Float32>,
    k: usize,
    mask: Option<Seq<bool>>,
    layout: BlockLayout,
    make_rotation: R,
    make_codebook: C,
    score: S,
    after: IndexView,
    result: SearchResults,
) -> bool where
    R: FnOnce(usize) -> Vec<Float32>,
    C: FnOnce(usize, usize) -> CodebookParts,
    S: for <'a>FnOnce(SearchTask<'a>) -> (Vec<Float32>, Vec<i64>),
 {
    if before.n_vectors == 0 {
        after == before && nothing_found(before, queries, result)
    } else {
        scored(
            before,
            queries,
            k,
            mask,
            layout,
            make_rotation,
            make_codebook,
            score,
            after,
            result,
        )
    }
}

/// What searching needs has been made where it was not kept, and nothing else
/// has changed.
pub open spec fn prepared<R, C>(
    before: IndexView,
    layout: BlockLayout,
    make_rotation: R,
    make_codebook: C,
    after: IndexView,
) -> bool where
    R: FnOnce(usize) -> Vec<Float32>,
    C: FnOnce(usize, usize) -> CodebookParts,
 {
    &&& after.rotation is Some && after.centroids is Some
    &&& rotation_made(before.rotation, before.dim_or_zero(), make_rotation, after.rotation)
    &&& centroids_made(
        before.centroids,
        before.bit_width,
        before.dim_or_zero(),
        make_codebook,
        after.centroids,
    )
    &&& after == IndexView {
        rotation: after.rotation,
        centroids: after.centroids,
        ..before
    }.with_blocked(layout)
}

impl TurboQuantIndex {
    fn ensure_blocked(&mut self, dim: usize, layout: BlockLayout)
        requires
            old(self).wf(),
            old(self)@.dim == Some(dim),
            old(self)@.blocked is None ==> old(self)@.blocked_fits_machine(),
        ensures
            final(self).wf(),
            old(self)@.cache_fits() ==> final(self)@.cache_fits(),
            final(self)@ == old(self)@.with_blocked(layout),
    {
        if self.blocked.is_none() {
            let packed_len: usize = self.packed_codes.len();
            proof {
                let w = self@.row_bytes();
                assert(w >= 2) by (nonlinear_arith)
                    requires
                        w == self@.bit_width * (dim as int / 8),
                        self@.bit_width >= 2,
                        dim as int / 8 >= 1,
                ;
                assert(2 * self@.n_vectors <= packed_len) by (nonlinear_arith)
                    requires
                        packed_len == self@.n_vectors * w,
                        w >= 2,
                        self@.n_vectors >= 0,
                ;
            }
            let (data, n_blocks): (Vec<u8>, usize) = repack(
                layout,
                self.packed_codes.as_slice(),
                self.n_vectors,
                self.bit_width,
                dim,
            );
            self.blocked = Some(BlockedCache { layout, data, n_blocks });
        }
    }

    /// Makes what searching needs (the rotation, the centroids and the blocked
    /// form), as far as it is not kept. An index without vectors needs
    /// nothing.
    ///
    /// Preparing is optional: searching does the same on first use.
    pub fn prepare<R, C>(&mut self, layout: BlockLayout, make_rotation: R, make_codebook: C) where
        R: FnOnce(usize) -> Vec<Float32>,
        C: FnOnce(usize, usize) -> CodebookParts,

        requires
            old(self).wf(),
            old(self)@.n_vectors > 0 ==> {
                &&& old(self)@.blocked is None ==> old(self)@.blocked_fits_machine()
                &&& old(self)@.rotation is None ==> make_rotation.requires(
                    (old(self)@.dim_or_zero(),),
                )
                &&& old(self)@.centroids is None ==> make_codebook.requires(
                    (old(self)@.bit_width, old(self)@.dim_or_zero()),
                )
            },
        ensures
            final(self).wf(),
            old(self)@.cache_fits() ==> final(self)@.cache_fits(),
            old(self)@.n_vectors == 0 ==> final(self)@ == old(self)@,
            old(self)@.n_vectors > 0 ==> prepared(
                old(self)@,
                layout,
                make_rotation,
                make_codebook,
                final(self)@,
            ),
    {
        let dim: usize = match self.dim {
            Some(dim) => dim,
            None => {
                return ;
            },
        };
        if self.n_vectors == 0 {
            return ;
        }
        self.ensure_rotation(dim, make_rotation);
        self.ensure_centroids(dim, make_codebook);
        let ghost ready = self@;
        assert(ready.blocked_form(layout) == old(self)@.blocked_form(layout));
        self.ensure_blocked(dim, layout);
        assert(self@ == (IndexView {
            rotation: self@.rotation,
            centroids: self@.centroids,
            ..old(self)@
        }).with_blocked(layout));
    }

    /// Whether everything that searching needs is there already.
    pub fn is_prepared(&self) -> (result: bool)
        ensures
            result == self@.is_prepared(),
    {
        self.n_vectors == 0 || (self.rotation.is_some() && self.centroids.is_some()
            && self.blocked.is_some())
    }

    /// Runs a top-`k` search against the index.
    ///
    /// What the search needs is made on first use and kept.
    pub fn search<R, C, S>(
        &mut self,
        queries: &[Float32],
        k: usize,
        layout: BlockLayout,
        make_rotation: R,
        make_codebook: C,
        score: S,
    ) -> (result: SearchResults) where
        R: FnOnce(usize) -> Vec<Float32>,
        C: FnOnce(usize, usize) -> CodebookParts,
        S: for <'a>FnOnce(SearchTask<'a>) -> (Vec<Float32>, Vec<i64>),

        requires
            old(self).wf(),
            searchable(old(self)@, queries@, None),
            old(self)@.n_vectors > 0 ==> {
                &&& old(self)@.blocked is None ==> old(self)@.blocked_fits_machine()
                &&& scoring_ready(
                    old(self)@,
                    queries@,
                    k,
                    None,
                    layout,
                    make_rotation,
                    make_codebook,
                    score,
                )
            },
        ensures
            final(self).wf(),
            old(self)@.cache_fits() ==> final(self)@.cache_fits(),
            searched(
                old(self)@,
                queries@,
                k,
                None,
                layout,
                make_rotation,
                make_codebook,
                score,
                final(self)@,
                result,
            ),
    {
        self.search_with_mask(queries, k, None, layout, make_rotation, make_codebook, score)
    }

    /// Runs a top-`k` search restricted to the slots that `mask` allows.
    ///
    /// A mask has one entry for each vector; only slots whose entry is `true`
    /// are found. Without a mask, every slot may be. The number of results per
    /// query is what was asked for, held to the number of vectors and to the
    /// number that the mask allows.
    ///
    /// An index without vectors has an empty result. Where it is not committed
    /// to a dimension either, the number of queries is unknown and given as
    /// zero.
    pub fn search_with_mask<R, C, S>(
        &mut self,
        queries: &[Float32],
        k: usize,
        mask: Option<&[bool]>,
        layout: BlockLayout,
        make_rotation: R,
        make_codebook: C,
        score: S,
    ) -> (result: SearchResults) where
        R: FnOnce(usize) -> Vec<Float32>,
        C: FnOnce(usize, usize) -> CodebookParts,
        S: for <'a>FnOnce(SearchTask<'a>) -> (Vec<Float32>, Vec<i64>),

        requires
            old(self).wf(),
            searchable(old(self)@, queries@, crate::search::mask_view(mask)),
            old(self)@.n_vectors > 0 ==> {
                &&& old(self)@.blocked is None ==> old(self)@.blocked_fits_machine()
                &&& scoring_ready(
                    old(self)@,
                    queries@,
                    k,
                    crate::search::mask_view(mask),
                    layout,
                    make_rotation,
                    make_codebook,
                    score,
                )
            },
        ensures
            final(self).wf(),
            old(self)@.cache_fits() ==> final(self)@.cache_fits(),
            searched(
                old(self)@,
                queries@,
                k,
                crate::search::mask_view(mask),
                layout,
                make_rotation,
                make_codebook,
                score,
                final(self)@,
                result,
            ),
    {
        let ghost before = self@;
        self.prepare(layout, make_rotation, make_codebook);
        proof {
            if before.n_vectors > 0 {
                lemma_prepared_scorer_ready(
                    before,
                    queries@,
                    k,
                    crate::search::mask_view(mask),
                    layout,
                    make_rotation,
                    make_codebook,
                    score,
                    self@,
                );
            }
        }
        self.search_prepared(queries, k, mask, score)
    }

    /// Runs a search on an index that has been prepared and not changed since.
    /// Nothing is made and nothing changes, so that any number of searches can
    /// run side by side.
    pub fn search_prepared<S>(
        &self,
        queries: &[Float32],
        k: usize,
        mask: Option<&[bool]>,
        score: S,
    ) -> (result: SearchResults) where
        S: for <'a>FnOnce(SearchTask<'a>) -> (Vec<Float32>, Vec<i64>),

        requires
            self.wf(),
            self@.is_prepared(),
            searchable(self@, queries@, crate::search::mask_view(mask)),
            self@.n_vectors > 0 ==> scorer_ready(
                self@,
                queries@,
                k,
                crate::search::mask_view(mask),
                self@.blocked->0.layout,
                score,
            ),
        ensures
            self@.n_vectors == 0 ==> nothing_found(self@, queries@, result),
            self@.n_vectors > 0 ==> scored_by(
                self@,
                queries@,
                k,
                crate::search::mask_view(mask),
                score,
                result,
            ),
    {
        let dim: usize = match self.dim {
            Some(dim) => dim,
            None => {
                return SearchResults { scores: Vec::new(), indices: Vec::new(), nq: 0, k: 0 };
            },
        };
        let nq: usize = queries.len() / dim;
        if self.n_vectors == 0 {
            return SearchResults { scores: Vec::new(), indices: Vec::new(), nq, k: 0 };
        }
        let (words, n_allowed): (Option<Vec<u64>>, usize) = match mask {
            Some(mask) => (Some(pack_mask(mask)), count_allowed(mask)),
            None => (None, self.n_vectors),
        };
        let fewer: usize = if k <= self.n_vectors {
            k
        } else {
            self.n_vectors
        };
        let effective_k: usize = if fewer <= n_allowed {
            fewer
        } else {
            n_allowed
        };
        let packed_mask: Option<&[u64]> = match &words {
            Some(words) => Some(words.as_slice()),
            None => None,
        };
        match (&self.rotation, &self.centroids, &self.blocked) {
            (Some(rotation), Some(centroids), Some(blocked)) => {
                let task: SearchTask = SearchTask {
                    queries,
                    nq,
                    rotation: rotation.as_slice(),
                    layout: blocked.layout,
                    blocked: blocked.data.as_slice(),
                    centroids: centroids.as_slice(),
                    scales: self.scales.as_slice(),
                    tqplus_shift: self.tqplus_shift.as_slice(),
                    tqplus_scale: self.tqplus_scale.as_slice(),
                    bit_width: self.bit_width,
                    dim,
                    n_vectors: self.n_vectors,
                    n_blocks: blocked.n_blocks,
                    k,
                    mask: packed_mask,
                };
                let ghost handed = task;
                assert(task@ == self@.search_task(queries@, k, task@.mask));
                assert(words_fit(task@.mask, crate::search::mask_view(mask)));
                assert(self@.may_score(
                    queries@,
                    k,
                    crate::search::mask_view(mask),
                    blocked.layout,
                    task@,
                )) by {
                    assert(self@ == (IndexView {
                        rotation: kept_or(self@.rotation, task@.rotation),
                        centroids: kept_or(self@.centroids, task@.centroids),
                        ..self@
                    }).with_blocked(blocked.layout));
                }
                let (scores, indices): (Vec<Float32>, Vec<i64>) = score(task);
                assert(score.ensures((handed,), (scores, indices)));
                SearchResults { scores, indices, nq, k: effective_k }
            },
            _ => SearchResults { scores: Vec::new(), indices: Vec::new(), nq, k: 0 },
        }
    }
}

/// A scoring that can be called for an index can be called for it once it has
/// been prepared.
proof fn lemma_prepared_scorer_ready<R, C, S>(
    before: IndexView,
    queries: Seq<Float32>,
    k: usize,
    mask: Option<Seq<bool>>,
    layout: BlockLayout,
    make_rotation: R,
    make_codebook: C,
    score: S,
    after: IndexView,
) where
    R: FnOnce(usize) -> Vec<Float32>,
    C: FnOnce(usize, usize) -> CodebookParts,
    S: for <'a>FnOnce(SearchTask<'a>) -> (Vec<Float32>, Vec<i64>),

    requires
        scorer_ready(before, queries, k, mask, layout, score),
        prepared(before, layout, make_rotation, make_codebook, after),
    ensures
        scorer_ready(after, queries, k, mask, after.blocked->0.layout, score),
{
    assert forall|task: SearchTask| #[trigger]
        after.may_score(queries, k, mask, after.blocked->0.layout, task@) implies before.may_score(
        queries,
        k,
        mask,
        layout,
        task@,
    ) by {
        let t = task@;
        let ready = IndexView {
            rotation: kept_or(before.rotation, t.rotation),
            centroids: kept_or(before.centroids, t.centroids),
            ..before
        };
        assert(after.with_blocked(after.blocked->0.layout) == after);
        assert(t == after.search_task(queries, k, t.mask));
        assert(ready.with_blocked(layout) == after);
    }
}

// ---------------------------------------------------------------------------
// Storing and loading
// ---------------------------------------------------------------------------

/// What is stored of an index. The dimension is zero where the index is not
/// committed to one, which no other index can have.
pub struct StoredIndex<'a> {
    pub bit_width: usize,
    pub dim: usize,
    pub n_vectors: usize,
    pub packed_codes: &'a [u8],
    pub scales: &'a [Float32],
    pub tqplus_shift: &'a [Float32],
    pub tqplus_scale: &'a [Float32],
}

/// What was stored of an index, read back.
pub struct LoadedIndex {
    pub bit_width: usize,
    pub dim: usize,
    pub n_vectors: usize,
    pub packed_codes: Vec<u8>,
    pub scales: Vec<Float32>,
    pub tqplus_shift: Vec<Float32>,
    pub tqplus_scale: Vec<Float32>,
}

/// The contents of a [`StoredIndex`] or a [`LoadedIndex`].
pub struct StoredView {
    pub bit_width: usize,
    pub dim: usize,
    pub n_vectors: usize,
    pub packed_codes: Seq<u8>,
    pub scales: Seq<Float32>,
    pub tqplus_shift: Seq<Float32>,
    pub tqplus_scale: Seq<Float32>,
}

impl<'a> View for StoredIndex<'a> {
    type V = StoredView;

    open spec fn view(&self) -> StoredView {
        StoredView {
            bit_width: self.bit_width,
            dim: self.dim,
            n_vectors: self.n_vectors,
            packed_codes: self.packed_codes@,
            scales: self.scales@,
            tqplus_shift: self.tqplus_shift@,
            tqplus_scale: self.tqplus_scale@,
        }
    }
}

impl View for LoadedIndex {
    type V = StoredView;

    open spec fn view(&self) -> StoredView {
        StoredView {
            bit_width: self.bit_width,
            dim: self.dim,
            n_vectors: self.n_vectors,
            packed_codes: self.packed_codes@,
            scales: self.scales@,
            tqplus_shift: self.tqplus_shift@,
            tqplus_scale: self.tqplus_scale@,
        }
    }
}

impl StoredView {
    /// The parts that an index is put together from after loading.
    pub open spec fn parts(self) -> IndexParts {
        IndexParts {
            dim: if self.dim == 0 {
                None
            } else {
                Some(self.dim)
            },
            bit_width: self.bit_width,
            n_vectors: self.n_vectors,
            packed_codes: self.packed_codes,
            scales: self.scales,
            tqplus_shift: self.tqplus_shift,
            tqplus_scale: self.tqplus_scale,
        }
    }
}

impl IndexView {
    /// What is stored.
    pub open spec fn stored(self) -> StoredView {
        StoredView {
            bit_width: self.bit_width,
            dim: self.dim_or_zero(),
            n_vectors: self.n_vectors,
            packed_codes: self.packed_codes,
            scales: self.scales,
            tqplus_shift: self.tqplus_shift,
            tqplus_scale: self.tqplus_scale,
        }
    }

    /// The index as it is without anything derived and without a history.
    pub open spec fn bare(self) -> IndexView {
        IndexView {
            rotation: None,
            boundaries: None,
            centroids: None,
            blocked: None,
            cache_dirty: crate::runtime_cache::RuntimeCacheModeView::AppendOnly,
            ..self
        }
    }

    /// The parts of the index, as its accessors give them.
    pub open spec fn parts(self) -> IndexParts {
        IndexParts {
            dim: self.dim,
            bit_width: self.bit_width,
            n_vectors: self.n_vectors,
            packed_codes: self.packed_codes,
            scales: self.scales,
            tqplus_shift: self.tqplus_shift,
            tqplus_scale: self.tqplus_scale,
        }
    }
}

/// An index put together again from its own parts is the index, bar what can
/// be derived: its parts are never refused, and nothing in them changes.
pub proof fn lemma_parts_round_trip(index: IndexView)
    requires
        index.wf(),
        index.packed_codes.len() <= usize::MAX,
    ensures
        index.parts().error() is None,
        index.parts().index() == index.bare(),
{
    let parts = index.parts();
    crate::validate::lemma_first_bad(parts.scales, crate::validate::bad_scale(), 0);
    crate::validate::lemma_first_bad(parts.tqplus_shift, crate::validate::bad_tqplus_shift(), 0);
    crate::validate::lemma_first_bad(parts.tqplus_scale, crate::validate::bad_tqplus_scale(), 0);
    if index.dim is None {
        assert(index.n_vectors * index.row_bytes() == 0) by (nonlinear_arith)
            requires
                index.n_vectors == 0,
        ;
    }
    assert(parts.length_error() is None);
    assert(parts.value_error() is None);
}

/// A stored index loads back as it was, bar what can be derived, whether or
/// not it was committed to a dimension.
pub proof fn lemma_stored_index_loads_back(index: IndexView)
    requires
        index.wf(),
        index.packed_codes.len() <= usize::MAX,
    ensures
        index.stored().parts().error() is None,
        index.stored().parts().index() == index.bare(),
{
    lemma_parts_round_trip(index);
}

/// An index put together from parts that were accepted can always be stored
/// and loaded back.
pub proof fn lemma_accepted_parts_load_back(parts: IndexParts)
    requires
        parts.error() is None,
    ensures
        parts.index().stored().parts().error() is None,
        parts.index().stored().parts().index() == parts.index(),
{
    lemma_parts_make_index(parts);
    if parts.dim is None {
        assert(parts.packed_codes.len() == 0);
    }
    lemma_stored_index_loads_back(parts.index());
}

/// The functions handed in can be called as the fingerprint of an index's
/// rotation calls them.
pub open spec fn fingerprint_ready<T, R, F>(index: IndexView, make_rotation: R, compute: F) -> bool where
    R: FnOnce(usize) -> Vec<Float32>,
    F: for <'a>FnOnce(&'a [Float32], usize) -> T,
 {
    index.n_vectors > 0 ==> {
        &&& index.rotation is None ==> make_rotation.requires((index.dim_or_zero(),))
        &&& forall|rotation: &[Float32]|
            kept_or(index.rotation, rotation@) == Some(rotation@) ==> #[trigger] compute.requires(
                (rotation, index.dim_or_zero()),
            )
    }
}

/// The fingerprint of an index: the empty one where there are no vectors, and
/// otherwise that of the rotation which is kept from then on.
pub open spec fn fingerprinted<T, R, F>(
    index: IndexView,
    empty: T,
    make_rotation: R,
    compute: F,
    kept: Option<Seq<Float32>>,
    fingerprint: T,
) -> bool where
    R: FnOnce(usize) -> Vec<Float32>,
    F: for <'a>FnOnce(&'a [Float32], usize) -> T,
 {
    if index.n_vectors == 0 {
        fingerprint == empty && kept == index.rotation
    } else {
        &&& rotation_made(index.rotation, index.dim_or_zero(), make_rotation, kept)
        &&& exists|rotation: &[Float32]|
            {
                &&& #[trigger] compute.ensures((rotation, index.dim_or_zero()), fingerprint)
                &&& kept == Some(rotation@)
            }
    }
}

/// A function can be handed an index and its fingerprint.
pub open spec fn sending_ready<T, O, R, F, S>(
    index: IndexView,
    empty: T,
    make_rotation: R,
    compute: F,
    send: S,
) -> bool where
    R: FnOnce(usize) -> Vec<Float32>,
    F: for <'a>FnOnce(&'a [Float32], usize) -> T,
    S: for <'a>FnOnce(StoredIndex<'a>, T) -> O,
 {
    forall|rotation: Option<Seq<Float32>>, stored: StoredIndex, fingerprint: T|
        #![trigger fingerprinted(index, empty, make_rotation, compute, rotation, fingerprint), send.requires((stored, fingerprint))]
        fingerprinted(index, empty, make_rotation, compute, rotation, fingerprint) && stored@
            == index.stored() ==> send.requires((stored, fingerprint))
}

/// A function was handed an index and its fingerprint, and what it gave is the
/// result; of the index nothing has changed but that its rotation may be kept.
pub open spec fn sent<T, O, R, F, S>(
    before: IndexView,
    empty: T,
    make_rotation: R,
    compute: F,
    send: S,
    after: IndexView,
    result: O,
) -> bool where
    R: FnOnce(usize) -> Vec<Float32>,
    F: for <'a>FnOnce(&'a [Float32], usize) -> T,
    S: for <'a>FnOnce(StoredIndex<'a>, T) -> O,
 {
    &&& after == IndexView { rotation: after.rotation, ..before }
    &&& exists|stored: StoredIndex, fingerprint: T|
        {
            &&& #[trigger] send.ensures((stored, fingerprint), result)
            &&& fingerprinted(
                before,
                empty,
                make_rotation,
                compute,
                after.rotation,
                fingerprint,
            )
            &&& stored@ == before.stored()
        }
}

/// A function was handed an index, its fingerprint and what has happened to its
/// codes, and what it gave is the result. Where that worked, the codes count
/// as written; the rotation may be kept; nothing else has changed.
pub open spec fn written<T, E, R, F, S>(
    before: IndexView,
    empty: T,
    make_rotation: R,
    compute: F,
    send: S,
    after: IndexView,
    result: Result<(), E>,
) -> bool where
    R: FnOnce(usize) -> Vec<Float32>,
    F: for <'a>FnOnce(&'a [Float32], usize) -> T,
    S: for <'a>FnOnce(StoredIndex<'a>, T, RuntimeCacheMode) -> Result<(), E>,
 {
    &&& after == IndexView {
        rotation: after.rotation,
        cache_dirty: if result is Ok {
            crate::runtime_cache::RuntimeCacheModeView::AppendOnly
        } else {
            before.cache_dirty
        },
        ..before
    }
    &&& exists|stored: StoredIndex, fingerprint: T, mode: RuntimeCacheMode|
        {
            &&& #[trigger] send.ensures((stored, fingerprint, mode), result)
            &&& fingerprinted(
                before,
                empty,
                make_rotation,
                compute,
                after.rotation,
                fingerprint,
            )
            &&& stored@ == before.stored()
            &&& mode.wf() && mode@ == before.cache_dirty
        }
}

impl TurboQuantIndex {
    /// What is to be stored of the index.
    pub fn stored(&self) -> (result: StoredIndex<'_>)
        ensures
            result@ == self@.stored(),
    {
        StoredIndex {
            bit_width: self.bit_width,
            dim: self.dim(),
            n_vectors: self.n_vectors,
            packed_codes: self.packed_codes.as_slice(),
            scales: self.scales.as_slice(),
            tqplus_shift: self.tqplus_shift.as_slice(),
            tqplus_scale: self.tqplus_scale.as_slice(),
        }
    }

    /// The fingerprint of the index's rotation: the empty one where there are
    /// no vectors, otherwise computed from the rotation, which is made if it
    /// is not kept.
    pub fn rotation_fingerprint<T, R, F>(
        &mut self,
        empty: T,
        make_rotation: R,
        compute: F,
    ) -> (result: T) where
        R: FnOnce(usize) -> Vec<Float32>,
        F: for <'a>FnOnce(&'a [Float32], usize) -> T,

        requires
            old(self).wf(),
            fingerprint_ready(old(self)@, make_rotation, compute),
        ensures
            final(self).wf(),
            old(self)@.cache_fits() ==> final(self)@.cache_fits(),
            final(self)@ == (IndexView { rotation: final(self)@.rotation, ..old(self)@ }),
            fingerprinted(
                old(self)@,
                empty,
                make_rotation,
                compute,
                final(self)@.rotation,
                result,
            ),
    {
        let dim: usize = match self.dim {
            Some(dim) => dim,
            None => {
                return empty;
            },
        };
        if self.n_vectors == 0 {
            return empty;
        }
        self.ensure_rotation(dim, make_rotation);
        match &self.rotation {
            Some(rotation) => compute(rotation.as_slice(), dim),
            None => empty,
        }
    }

    /// Hands the index to `send`, with the fingerprint of its rotation and
    /// with what has happened to its codes since they were last written. Where
    /// that works, what is kept beside the index is taken to be up to date.
    ///
    /// `empty`, `make_rotation` and `compute` are as in
    /// [`Self::rotation_fingerprint`].
    pub fn write<T, E, R, F, S>(
        &mut self,
        empty: T,
        make_rotation: R,
        compute: F,
        send: S,
    ) -> (result: Result<(), E>) where
        R: FnOnce(usize) -> Vec<Float32>,
        F: for <'a>FnOnce(&'a [Float32], usize) -> T,
        S: for <'a>FnOnce(StoredIndex<'a>, T, RuntimeCacheMode) -> Result<(), E>,

        requires
            old(self).wf(),
            fingerprint_ready(old(self)@, make_rotation, compute),
            forall|
                rotation: Option<Seq<Float32>>,
                stored: StoredIndex,
                fingerprint: T,
                mode: RuntimeCacheMode,
            |
                #![trigger fingerprinted(old(self)@, empty, make_rotation, compute, rotation, fingerprint), send.requires((stored, fingerprint, mode))]
                {
                    &&& fingerprinted(
                        old(self)@,
                        empty,
                        make_rotation,
                        compute,
                        rotation,
                        fingerprint,
                    )
                    &&& stored@ == old(self)@.stored()
                    &&& mode.wf() && mode@ == old(self)@.cache_dirty
                } ==> send.requires((stored, fingerprint, mode)),
        ensures
            final(self).wf(),
            old(self)@.cache_fits() ==> final(self)@.cache_fits(),
            written(old(self)@, empty, make_rotation, compute, send, final(self)@, result),
    {
        let fingerprint: T = self.rotation_fingerprint(empty, make_rotation, compute);
        let ghost ready = self@;
        assert(fingerprinted(
            old(self)@,
            empty,
            make_rotation,
            compute,
            ready.rotation,
            fingerprint,
        ));
        let mode: RuntimeCacheMode = self.runtime_cache_mode();
        let result: Result<(), E> = send(self.stored(), fingerprint, mode);
        match &result {
            Ok(_) => {
                self.mark_runtime_cache_written();
            },
            Err(_) => {},
        }
        result
    }

    /// Hands the index to `send`, with the fingerprint of its rotation. What
    /// is kept beside the index stays as it is.
    pub fn write_to_writer<T, E, R, F, S>(
        &mut self,
        empty: T,
        make_rotation: R,
        compute: F,
        send: S,
    ) -> (result: Result<(), E>) where
        R: FnOnce(usize) -> Vec<Float32>,
        F: for <'a>FnOnce(&'a [Float32], usize) -> T,
        S: for <'a>FnOnce(StoredIndex<'a>, T) -> Result<(), E>,

        requires
            old(self).wf(),
            fingerprint_ready(old(self)@, make_rotation, compute),
            sending_ready(old(self)@, empty, make_rotation, compute, send),
        ensures
            final(self).wf(),
            old(self)@.cache_fits() ==> final(self)@.cache_fits(),
            sent(old(self)@, empty, make_rotation, compute, send, final(self)@, result),
    {
        let fingerprint: T = self.rotation_fingerprint(empty, make_rotation, compute);
        assert(fingerprinted(
            old(self)@,
            empty,
            make_rotation,
            compute,
            self@.rotation,
            fingerprint,
        ));
        send(self.stored(), fingerprint)
    }

    /// The bytes of the index, as `format` lays out what is stored of it and
    /// the fingerprint of its rotation. What is kept beside the index stays as
    /// it is.
    pub fn to_bytes<T, R, F, S>(
        &mut self,
        empty: T,
        make_rotation: R,
        compute: F,
        format: S,
    ) -> (result: Vec<u8>) where
        R: FnOnce(usize) -> Vec<Float32>,
        F: for <'a>FnOnce(&'a [Float32], usize) -> T,
        S: for <'a>FnOnce(StoredIndex<'a>, T) -> Vec<u8>,

        requires
            old(self).wf(),
            fingerprint_ready(old(self)@, make_rotation, compute),
            sending_ready(old(self)@, empty, make_rotation, compute, format),
        ensures
            final(self).wf(),
            old(self)@.cache_fits() ==> final(self)@.cache_fits(),
            sent(old(self)@, empty, make_rotation, compute, format, final(self)@, result),
    {
        let fingerprint: T = self.rotation_fingerprint(empty, make_rotation, compute);
        assert(fingerprinted(
            old(self)@,
            empty,
            make_rotation,
            compute,
            self@.rotation,
            fingerprint,
        ));
        format(self.stored(), fingerprint)
    }

    /// Keeps a rotation that has been made already, unless one is kept.
    pub fn seed_rotation(&mut self, rotation: Option<Vec<Float32>>)
        requires
            old(self).wf(),
        ensures
            final(self).wf(),
            old(self)@.cache_fits() ==> final(self)@.cache_fits(),
            final(self)@ == (IndexView {
                rotation: if old(self)@.rotation is Some {
                    old(self)@.rotation
                } else {
                    kept(rotation)
                },
                ..old(self)@
            }),
    {
        if self.rotation.is_none() {
            self.rotation = rotation;
        }
    }

    /// Puts an index together from what was loaded, and keeps the rotation
    /// that was made on the way.
    pub fn from_loaded(loaded: LoadedIndex, rotation: Option<Vec<Float32>>) -> (result: Result<
        TurboQuantIndex,
        FromPartsError,
    >)
        ensures
            match loaded@.parts().error() {
                Some(error) => result == Err::<TurboQuantIndex, FromPartsError>(error),
                None => result is Ok && result->Ok_0.wf() && result->Ok_0@ == (IndexView {
                    rotation: kept(rotation),
                    ..loaded@.parts().index()
                }),
            },
    {
        Self::from_loaded_with_cache(loaded, rotation, None)
    }

    /// As [`Self::from_loaded`], with what was derived from the index before
    /// and stored beside it, which is kept as it is.
    pub fn from_loaded_with_cache(
        loaded: LoadedIndex,
        rotation: Option<Vec<Float32>>,
        runtime_cache: Option<RuntimeCache>,
    ) -> (result: Result<TurboQuantIndex, FromPartsError>)
        ensures
            match loaded@.parts().error() {
                Some(error) => result == Err::<TurboQuantIndex, FromPartsError>(error),
                None => result is Ok && result->Ok_0.wf() && result->Ok_0@ == (IndexView {
                    rotation: match runtime_cache {
                        Some(cache) => Some(cache.rotation@),
                        None => kept(rotation),
                    },
                    ..loaded@.parts().index_with_cache(runtime_cache)
                }),
            },
    {
        let dim: Option<usize> = if loaded.dim == 0 {
            None
        } else {
            Some(loaded.dim)
        };
        match Self::from_parts_with_cache(
            dim,
            loaded.bit_width,
            loaded.n_vectors,
            loaded.packed_codes,
            loaded.scales,
            loaded.tqplus_shift,
            loaded.tqplus_scale,
            runtime_cache,
        ) {
            Err(error) => Err(error),
            Ok(index) => {
                let mut index: TurboQuantIndex = index;
                index.seed_rotation(rotation);
                Ok(index)
            },
        }
    }
}

// ---------------------------------------------------------------------------
// Reading an index back
// ---------------------------------------------------------------------------

/// Why an index was not loaded.
#[derive(Debug)]
pub enum LoadError<E> {
    /// It could not be read.
    Read(E),
    /// What was read does not make an index.
    Parts(FromPartsError),
}

/// What was read has been put together: a failure to read is passed on, parts
/// that make no index are refused, and otherwise the index is that of the
/// parts, with what was kept beside it and, where nothing was, with the
/// rotation that came with them.
pub open spec fn assembled<E>(
    got: Result<(LoadedIndex, Option<Vec<Float32>>, Option<RuntimeCache>), E>,
    result: Result<TurboQuantIndex, LoadError<E>>,
) -> bool {
    match got {
        Err(error) => result == Err::<TurboQuantIndex, LoadError<E>>(LoadError::Read(error)),
        Ok((loaded, rotation, cache)) => match loaded@.parts().error() {
            Some(error) => result == Err::<TurboQuantIndex, LoadError<E>>(LoadError::Parts(error)),
            None => result is Ok && result->Ok_0.wf() && result->Ok_0@ == (IndexView {
                rotation: match cache {
                    Some(cache) => Some(cache.rotation@),
                    None => kept(rotation),
                },
                ..loaded@.parts().index_with_cache(cache)
            }),
        },
    }
}

/// What was read, as it is without anything kept beside the index.
pub open spec fn without_cache<E>(
    got: Result<(LoadedIndex, Option<Vec<Float32>>), E>,
) -> Result<(LoadedIndex, Option<Vec<Float32>>, Option<RuntimeCache>), E> {
    match got {
        Ok((loaded, rotation)) => Ok((loaded, rotation, None)),
        Err(error) => Err(error),
    }
}

/// Bytes were taken apart, and what they held has been put together.
pub open spec fn parsed<E, L>(
    bytes: &[u8],
    parse: L,
    result: Result<TurboQuantIndex, LoadError<E>>,
) -> bool where L: for <'a>FnOnce(&'a [u8]) -> Result<(LoadedIndex, Option<Vec<Float32>>), E> {
    exists|got: Result<(LoadedIndex, Option<Vec<Float32>>), E>| #[trigger]
        parse.ensures((bytes,), got) && assembled(without_cache(got), result)
}

impl TurboQuantIndex {
    /// Reads an index, with what is kept beside it, and puts it together.
    pub fn load<E, L>(read: L) -> (result: Result<TurboQuantIndex, LoadError<E>>) where
        L: FnOnce() -> Result<(LoadedIndex, Option<Vec<Float32>>, Option<RuntimeCache>), E>,

        requires
            read.requires(()),
        ensures
            exists|got: Result<(LoadedIndex, Option<Vec<Float32>>, Option<RuntimeCache>), E>|
                #[trigger] read.ensures((), got) && assembled(got, result),
    {
        let got: Result<(LoadedIndex, Option<Vec<Float32>>, Option<RuntimeCache>), E> = read();
        match got {
            Err(error) => Err(LoadError::Read(error)),
            Ok((loaded, rotation, cache)) => match Self::from_loaded_with_cache(
                loaded,
                rotation,
                cache,
            ) {
                Err(error) => Err(LoadError::Parts(error)),
                Ok(index) => Ok(index),
            },
        }
    }

    /// Reads an index and puts it together.
    pub fn load_from_reader<E, L>(read: L) -> (result: Result<TurboQuantIndex, LoadError<E>>) where
        L: FnOnce() -> Result<(LoadedIndex, Option<Vec<Float32>>), E>,

        requires
            read.requires(()),
        ensures
            exists|got: Result<(LoadedIndex, Option<Vec<Float32>>), E>| #[trigger]
                read.ensures((), got) && assembled(without_cache(got), result),
    {
        let got: Result<(LoadedIndex, Option<Vec<Float32>>), E> = read();
        Self::assemble(got)
    }

    /// Puts an index together from its bytes, which `parse` takes apart.
    pub fn from_bytes<E, L>(bytes: &[u8], parse: L) -> (result: Result<
        TurboQuantIndex,
        LoadError<E>,
    >) where L: for <'a>FnOnce(&'a [u8]) -> Result<(LoadedIndex, Option<Vec<Float32>>), E>,
        requires
            parse.requires((bytes,)),
        ensures
            parsed(bytes, parse, result),
    {
        let got: Result<(LoadedIndex, Option<Vec<Float32>>), E> = parse(bytes);
        Self::assemble(got)
    }

    fn assemble<E>(got: Result<(LoadedIndex, Option<Vec<Float32>>), E>) -> (result: Result<
        TurboQuantIndex,
        LoadError<E>,
    >)
        ensures
            assembled(without_cache(got), result),
    {
        match got {
            Err(error) => Err(LoadError::Read(error)),
            Ok((loaded, rotation)) => match Self::from_loaded(loaded, rotation) {
                Err(error) => Err(LoadError::Parts(error)),
                Ok(index) => Ok(index),
            },
        }
    }
}

} // verus!
