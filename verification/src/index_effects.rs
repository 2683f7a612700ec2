//! What each operation on an index does, field by field.
//!
//! The contracts of the index speak of whole states; the laws here say of each
//! field what stands in it afterwards, and of each function handed in what it
//! is given, in terms of the arrays themselves.

use vstd::prelude::*;

use crate::codebook::CodebookParts;
use crate::error::{AddError, FromPartsError};
use crate::float32::Float32;
use crate::index::{IndexParts, IndexView, LoadError, LoadedIndex, StoredIndex, TurboQuantIndex};
use crate::kernels::{EncodeTask, EncodedBatch, SearchTask};
use crate::pack::BlockLayout;
use crate::runtime_cache::{RuntimeCache, RuntimeCacheMode};
use crate::search::SearchResults;

verus! {

// ---------------------------------------------------------------------------
// What an index is
// ---------------------------------------------------------------------------

/// The invariant, in numbers: which bit widths and dimensions there are, how
/// long every array is, and what every value can be.
pub proof fn lemma_invariant_in_numbers(index: IndexView)
    ensures
        index.wf() <==> {
            let dim = match index.dim {
                Some(dim) => dim as int,
                None => 0,
            };
            &&& index.bit_width == 2 || index.bit_width == 3 || index.bit_width == 4
            &&& index.dim is Some ==> dim > 0 && dim % 8 == 0 && dim <= 16384
            &&& index.dim is None ==> index.n_vectors == 0 && index.tqplus_shift.len() == 0
            &&& index.packed_codes.len() == index.n_vectors * (index.bit_width * (dim / 8))
            &&& index.scales.len() == index.n_vectors
            &&& index.tqplus_shift.len() == index.tqplus_scale.len()
            &&& index.tqplus_shift.len() == 0 || index.tqplus_shift.len() == dim
            &&& index.n_vectors > 0 ==> index.tqplus_shift.len() == dim
            &&& forall|i: int|
                0 <= i < index.scales.len() ==> (#[trigger] index.scales[i]).bits < 0x7F80_0000
                    || index.scales[i].bits == 0x8000_0000
            &&& forall|i: int|
                0 <= i < index.tqplus_shift.len() ==> (#[trigger] index.tqplus_shift[i]).bits
                    % 0x8000_0000 < 0x7F80_0000
            &&& forall|i: int|
                0 <= i < index.tqplus_scale.len() ==> 0 < (#[trigger] index.tqplus_scale[i]).bits
                    < 0x7F80_0000
        },
{
    assert forall|i: int| 0 <= i < index.scales.len() implies ((
    #[trigger] index.scales[i]).valid_scale() <==> (index.scales[i].bits < 0x7F80_0000
        || index.scales[i].bits == 0x8000_0000)) by {
        crate::float32::lemma_classes_by_bits(index.scales[i]);
    }
    assert forall|i: int| 0 <= i < index.tqplus_shift.len() implies ((
    #[trigger] index.tqplus_shift[i]).valid_tqplus_shift() <==> index.tqplus_shift[i].bits
        % 0x8000_0000 < 0x7F80_0000) by {
        crate::float32::lemma_classes_by_bits(index.tqplus_shift[i]);
    }
    assert forall|i: int| 0 <= i < index.tqplus_scale.len() implies ((
    #[trigger] index.tqplus_scale[i]).valid_tqplus_scale() <==> 0 < index.tqplus_scale[i].bits
        < 0x7F80_0000) by {
        crate::float32::lemma_classes_by_bits(index.tqplus_scale[i]);
    }
}

/// The smaller notions, in numbers: which dimensions and bit widths there are,
/// the dimension as a number, and what a kept blocked form is held to.
pub proof fn lemma_notions_in_numbers(index: IndexView, dim: usize, bit_width: usize)
    ensures
        crate::index::MAX_DIM == 16384,
        crate::index::valid_dim(dim) <==> dim > 0 && dim % 8 == 0 && dim <= 16384,
        crate::index::valid_bit_width(bit_width) <==> bit_width == 2 || bit_width == 3 || bit_width
            == 4,
        index.dim is None ==> index.dim_or_zero() == 0,
        index.dim is Some ==> index.dim_or_zero() == index.dim->0,
        index.blocked is None ==> index.cache_fits(),
        index.blocked is Some ==> (index.cache_fits() <==> ({
            let kept = index.blocked->0;
            &&& kept.n_blocks == (index.n_vectors + 31) / 32
            &&& kept.data == crate::pack::blocked(
                kept.layout,
                index.packed_codes,
                index.n_vectors as int,
                index.bit_width as int,
                match index.dim {
                    Some(dim) => dim as int,
                    None => 0,
                },
            )
        })),
{
    crate::pack::lemma_sizes(index.n_vectors as int, 2, 0, 0);
}

/// The vectors of an index, by the bytes of the codes.
pub proof fn lemma_vectors_by_bytes(index: IndexView, dim: usize, slot: int, t: int)
    requires
        index.wf(),
        index.dim == Some(dim),
    ensures
        index.vectors().len() == index.n_vectors,
        0 <= slot < index.n_vectors ==> {
            &&& index.vectors()[slot].1 == index.scales[slot]
            &&& index.vectors()[slot].0.len() == index.bit_width * (dim as int / 8)
        },
        0 <= slot < index.n_vectors && 0 <= t < index.bit_width * (dim as int / 8)
            ==> index.vectors()[slot].0[t] == index.packed_codes[slot * (index.bit_width * (
        dim as int / 8)) + t],
{
    if 0 <= slot < index.n_vectors {
        crate::pack::lemma_row_bounds(
            index.packed_codes.len() as int,
            index.n_vectors as int,
            index.bit_width as int,
            dim as int,
            slot,
        );
    }
}

/// A new index has the dimension and the bit width that it was asked for, and
/// nothing else.
pub proof fn lemma_empty_holds_nothing(dim: Option<usize>, bit_width: usize)
    ensures
        ({
            let index = IndexView::empty(dim, bit_width);
            &&& index.dim == dim && index.bit_width == bit_width && index.n_vectors == 0
            &&& index.packed_codes.len() == 0 && index.scales.len() == 0
            &&& index.tqplus_shift.len() == 0 && index.tqplus_scale.len() == 0
            &&& index.rotation is None && index.boundaries is None && index.centroids is None
            &&& index.blocked is None && index.cache_dirty is AppendOnly
        }),
{
}

// ---------------------------------------------------------------------------
// Adding
// ---------------------------------------------------------------------------

/// What adding a batch does. An empty one changes nothing. Any other is handed
/// to the encoder with the dimension, the bit width, the rotation and the
/// codebook that are kept from then on, and with the calibration that the index
/// has, if it has one; what the encoder gives is put behind the codes and the
/// scales; the first vectors bring their calibration, and later ones leave it.
pub proof fn lemma_add_field_by_field<R, C, E>(
    before: IndexView,
    vectors: Seq<Float32>,
    make_rotation: R,
    make_codebook: C,
    encode: E,
    after: IndexView,
    dim: usize,
) where
    R: FnOnce(usize) -> Vec<Float32>,
    C: FnOnce(usize, usize) -> CodebookParts,
    E: for <'a>FnOnce(EncodeTask<'a>) -> EncodedBatch,

    requires
        before.wf(),
        before.dim == Some(dim),
        vectors.len() <= usize::MAX,
        crate::index::added(before, vectors, make_rotation, make_codebook, encode, after),
    ensures
        vectors.len() == 0 ==> after == before,
        after.dim == Some(dim),
        after.bit_width == before.bit_width,
        after.cache_dirty == before.cache_dirty,
        vectors.len() > 0 ==> after.blocked is None,
        vectors.len() > 0 ==> exists|task: EncodeTask, batch: EncodedBatch|
            {
                &&& #[trigger] encode.ensures((task,), batch)
                &&& task.vectors@ == vectors
                &&& task.n == vectors.len() / (dim as nat)
                &&& task.dim == dim
                &&& task.bit_width == before.bit_width
                &&& after.rotation == Some(task.rotation@)
                &&& after.boundaries == Some(task.boundaries@)
                &&& after.centroids == Some(task.centroids@)
                &&& before.tqplus_shift.len() == 0 ==> task.existing is None
                &&& before.tqplus_shift.len() > 0 ==> task.existing is Some && (task.existing->0).0@
                    == before.tqplus_shift && (task.existing->0).1@ == before.tqplus_scale
                &&& batch.packed@.len() == task.n * (before.bit_width * (dim as int / 8))
                &&& batch.scales@.len() == task.n
                &&& after.n_vectors == before.n_vectors + task.n
                &&& after.packed_codes == before.packed_codes + batch.packed@
                &&& after.scales == before.scales + batch.scales@
                &&& before.n_vectors == 0 ==> after.tqplus_shift == batch.shift@
                    && after.tqplus_scale == batch.scale@
                &&& before.n_vectors > 0 ==> after.tqplus_shift == before.tqplus_shift
                    && after.tqplus_scale == before.tqplus_scale
            },
        before.rotation is Some ==> after.rotation == before.rotation,
        vectors.len() > 0 && before.rotation is None ==> exists|made: Vec<Float32>| #[trigger]
            make_rotation.ensures((dim,), made) && after.rotation == Some(made@),
        before.boundaries is Some ==> after.boundaries == before.boundaries,
        before.centroids is Some ==> after.centroids == before.centroids,
        vectors.len() > 0 && (before.boundaries is None || before.centroids is None) ==> exists|
            made: CodebookParts,
        |
            {
                &&& #[trigger] make_codebook.ensures((before.bit_width, dim), made)
                &&& before.boundaries is None ==> after.boundaries == Some(made.0@)
                &&& before.centroids is None ==> after.centroids == Some(made.1@)
            },
{
    if vectors.len() > 0 {
        let ready = IndexView {
            rotation: after.rotation,
            boundaries: after.boundaries,
            centroids: after.centroids,
            ..before
        };
        let (task, batch) = choose|task: EncodeTask, batch: EncodedBatch|
            {
                &&& #[trigger] encode.ensures((task,), batch)
                &&& task@ == ready.encode_task(vectors)
                &&& batch@.fits(task.n as int, dim as int, before.bit_width as int)
                &&& before.n_vectors + task.n <= usize::MAX
                &&& after == ready.appended(task.n, batch@)
                &&& after.vectors() == before.vectors() + batch@.vectors(
                    dim as int,
                    before.bit_width as int,
                )
            };
        crate::kernels::lemma_batch_fits_exactly(
            batch,
            task.n as int,
            dim as int,
            before.bit_width as int,
        );
        vstd::arithmetic::div_mod::lemma_div_is_ordered_by_denominator(
            vectors.len() as int,
            1,
            dim as int,
        );
        assert(task.vectors@ == task@.vectors && task.rotation@ == task@.rotation
            && task.boundaries@ == task@.boundaries && task.centroids@ == task@.centroids);
        assert(encode.ensures((task,), batch));
    }
}

/// What appending an encoded batch does, on the batch's own arrays.
pub proof fn lemma_append_field_by_field(index: IndexView, n: usize, batch: EncodedBatch)
    requires
        index.n_vectors + n <= usize::MAX,
    ensures
        ({
            let after = index.appended(n, batch@);
            &&& after.n_vectors == index.n_vectors + n
            &&& after.packed_codes == index.packed_codes + batch.packed@
            &&& after.scales == index.scales + batch.scales@
            &&& index.n_vectors == 0 ==> after.tqplus_shift == batch.shift@ && after.tqplus_scale
                == batch.scale@
            &&& index.n_vectors > 0 ==> after.tqplus_shift == index.tqplus_shift
                && after.tqplus_scale == index.tqplus_scale
            &&& after.blocked is None
            &&& after.dim == index.dim && after.bit_width == index.bit_width
            &&& after.rotation == index.rotation && after.boundaries == index.boundaries
                && after.centroids == index.centroids
            &&& after.cache_dirty == index.cache_dirty
        }),
{
}

/// Adding asks no more of the functions handed in than this: that a rotation
/// and a codebook can be made where they are not kept, and that the encoder
/// takes the vectors with what the index has and gives as many codes, scales
/// and calibration values as the vectors call for, all of them good.
pub proof fn lemma_add_asks_no_more<R, C, E>(
    index: IndexView,
    vectors: Seq<Float32>,
    make_rotation: R,
    make_codebook: C,
    encode: E,
    dim: usize,
) where
    R: FnOnce(usize) -> Vec<Float32>,
    C: FnOnce(usize, usize) -> CodebookParts,
    E: for <'a>FnOnce(EncodeTask<'a>) -> EncodedBatch,

    requires
        index.dim == Some(dim),
        dim > 0,
        vectors.len() <= usize::MAX,
        index.rotation is None ==> make_rotation.requires((dim,)),
        index.boundaries is None || index.centroids is None ==> make_codebook.requires(
            (index.bit_width, dim),
        ),
        forall|task: EncodeTask|
            {
                &&& task.vectors@ == vectors
                &&& task.n == vectors.len() / (dim as nat)
                &&& task.dim == dim
                &&& task.bit_width == index.bit_width
                &&& index.rotation is Some ==> index.rotation == Some(task.rotation@)
                &&& index.boundaries is Some ==> index.boundaries == Some(task.boundaries@)
                &&& index.centroids is Some ==> index.centroids == Some(task.centroids@)
                &&& index.tqplus_shift.len() == 0 ==> task.existing is None
                &&& index.tqplus_shift.len() > 0 ==> task.existing is Some && (task.existing->0).0@
                    == index.tqplus_shift && (task.existing->0).1@ == index.tqplus_scale
            } ==> #[trigger] encode.requires((task,)),
        forall|task: EncodeTask, batch: EncodedBatch|
            {
                &&& #[trigger] encode.ensures((task,), batch)
                &&& task.vectors@ == vectors
                &&& task.n == vectors.len() / (dim as nat)
                &&& task.dim == dim
                &&& task.bit_width == index.bit_width
                &&& index.rotation is Some ==> index.rotation == Some(task.rotation@)
                &&& index.boundaries is Some ==> index.boundaries == Some(task.boundaries@)
                &&& index.centroids is Some ==> index.centroids == Some(task.centroids@)
                &&& index.tqplus_shift.len() == 0 ==> task.existing is None
                &&& index.tqplus_shift.len() > 0 ==> task.existing is Some && (task.existing->0).0@
                    == index.tqplus_shift && (task.existing->0).1@ == index.tqplus_scale
            } ==> batch@.fits(task.n as int, dim as int, index.bit_width as int),
    ensures
        crate::index::encoding_ready(index, vectors, make_rotation, make_codebook, encode),
{
    vstd::arithmetic::div_mod::lemma_div_is_ordered_by_denominator(
        vectors.len() as int,
        1,
        dim as int,
    );
    assert forall|task: EncodeTask| index.may_encode(vectors, task@) implies {
        &&& task.vectors@ == vectors
        &&& #[trigger] task@.n == vectors.len() / (dim as nat)
        &&& task.dim == dim
        &&& task.bit_width == index.bit_width
        &&& index.rotation is Some ==> index.rotation == Some(task.rotation@)
        &&& index.boundaries is Some ==> index.boundaries == Some(task.boundaries@)
        &&& index.centroids is Some ==> index.centroids == Some(task.centroids@)
        &&& index.tqplus_shift.len() == 0 ==> task.existing is None
        &&& index.tqplus_shift.len() > 0 ==> task.existing is Some && (task.existing->0).0@
            == index.tqplus_shift && (task.existing->0).1@ == index.tqplus_scale
    } by {
        assert(task@.vectors == task.vectors@ && task@.rotation == task.rotation@
            && task@.boundaries == task.boundaries@ && task@.centroids == task.centroids@);
    }
}

/// Which vectors are refused, and why: those of another dimension than the
/// index has; for an index without one, those of a dimension that none can
/// have; and those with a coordinate that is not a number, infinite, or of a
/// magnitude of 1e16 or more, the first of which is named. All others are
/// taken. Taking vectors fixes the dimension, and nothing else changes by it.
pub proof fn lemma_which_vectors_are_refused(index: IndexView, vectors: Seq<Float32>, dim: usize)
    requires
        vectors.len() <= usize::MAX,
    ensures
        index.dim is Some && index.dim->0 != dim ==> index.add_error(vectors, dim) == Some(
            AddError::DimMismatch { existing: index.dim->0, got: dim },
        ),
        index.dim is None && (dim == 0 || dim % 8 != 0) ==> index.add_error(vectors, dim) == Some(
            AddError::DimNotMultipleOf8(dim),
        ),
        index.dim is None && dim % 8 == 0 && dim > 16384 ==> index.add_error(vectors, dim) == Some(
            AddError::DimTooLarge { dim, max: 16384 },
        ),
        index.dim == Some(dim) || (index.dim is None && dim > 0 && dim % 8 == 0 && dim <= 16384)
            ==> match index.add_error(vectors, dim) {
            None => forall|k: int|
                0 <= k < vectors.len() ==> (#[trigger] vectors[k]).bits % 0x8000_0000 < 0x5A0E_1BCA,
            Some(AddError::InvalidInputValue { vector_index, coord_index, value }) => exists|i: int|
                {
                    &&& 0 <= i < vectors.len()
                    &&& #[trigger] vectors[i] == value
                    &&& value.bits % 0x8000_0000 >= 0x5A0E_1BCA
                    &&& forall|k: int|
                        0 <= k < i ==> (#[trigger] vectors[k]).bits % 0x8000_0000 < 0x5A0E_1BCA
                    &&& dim > 0 ==> coord_index < dim && vector_index * dim + coord_index == i
                },
            Some(_) => false,
        },
        index.committed(dim).dim == Some(dim),
        index.committed(dim).bit_width == index.bit_width,
        index.committed(dim).n_vectors == index.n_vectors,
        index.committed(dim).packed_codes == index.packed_codes,
        index.committed(dim).scales == index.scales,
        index.committed(dim).tqplus_shift == index.tqplus_shift,
        index.committed(dim).tqplus_scale == index.tqplus_scale,
        index.committed(dim).rotation == index.rotation,
        index.committed(dim).boundaries == index.boundaries,
        index.committed(dim).centroids == index.centroids,
        index.committed(dim).blocked == index.blocked,
        index.committed(dim).cache_dirty == index.cache_dirty,
{
    crate::validate::lemma_first_invalid_is_first(vectors, dim);
}

// ---------------------------------------------------------------------------
// Removing
// ---------------------------------------------------------------------------

/// What removing does, slot by slot: there is one vector less; the slot that
/// was asked for holds the row and the scale of the last one, and every other
/// slot what it held.
pub proof fn lemma_remove_slot_by_slot(
    index: IndexView,
    idx: usize,
    dim: usize,
    slot: int,
    t: int,
)
    requires
        index.wf(),
        index.dim == Some(dim),
        idx < index.n_vectors,
        0 <= slot < index.n_vectors - 1,
        0 <= t < index.bit_width * (dim as int / 8),
    ensures
        ({
            let after = index.swap_removed(idx);
            let w = index.bit_width * (dim as int / 8);
            let last = index.n_vectors - 1;
            &&& after.n_vectors == last
            &&& after.packed_codes.len() == last * w
            &&& after.scales.len() == last
            &&& slot == idx ==> after.packed_codes[slot * w + t] == index.packed_codes[last * w + t]
            &&& slot != idx ==> after.packed_codes[slot * w + t] == index.packed_codes[slot * w + t]
            &&& slot == idx ==> after.scales[slot] == index.scales[last]
            &&& slot != idx ==> after.scales[slot] == index.scales[slot]
        }),
{
    let w = index.bit_width * (dim as int / 8);
    let last = index.n_vectors - 1;
    assert(index.row_bytes() == w);
    crate::index::lemma_rows_apart(w, slot, last);
    if slot < idx {
        crate::index::lemma_rows_apart(w, slot, idx as int);
    } else if idx < slot {
        crate::index::lemma_rows_apart(w, idx as int, slot);
    }
}

/// What removing leaves alone and what it notes, also where the last vector is
/// removed or the only one: the blocks of the slot and of the last vector are
/// noted and no other, and all else stays but for the blocked form.
pub proof fn lemma_remove_leaves_the_rest(index: IndexView, idx: usize, block: usize)
    requires
        index.wf(),
        idx < index.n_vectors,
    ensures
        ({
            let after = index.swap_removed(idx);
            &&& after.n_vectors == index.n_vectors - 1
            &&& after.scales.len() == index.n_vectors - 1
            &&& after.packed_codes.len() == (index.n_vectors - 1) * (index.bit_width * (
            index.dim->0 as int / 8))
            &&& after.dim == index.dim && after.bit_width == index.bit_width
            &&& after.tqplus_shift == index.tqplus_shift && after.tqplus_scale
                == index.tqplus_scale
            &&& after.rotation == index.rotation && after.boundaries == index.boundaries
                && after.centroids == index.centroids
            &&& after.blocked is None
            &&& after.cache_dirty is DirtyBlocks
            &&& after.cache_dirty.blocks().contains(block) <==> index.cache_dirty.blocks().contains(
                block,
            ) || block == idx as int / 32 || block == (index.n_vectors - 1) / 32
        }),
{
    crate::index::lemma_swap_removed(index, idx);
    lemma_invariant_in_numbers(index.swap_removed(idx));
}

// ---------------------------------------------------------------------------
// Searching
// ---------------------------------------------------------------------------

/// What preparing does: the rotation and the centroids are made where they are
/// not kept, the blocked form of the codes likewise, and nothing else changes.
pub proof fn lemma_prepare_field_by_field<R, C>(
    before: IndexView,
    layout: BlockLayout,
    make_rotation: R,
    make_codebook: C,
    after: IndexView,
    dim: usize,
) where
    R: FnOnce(usize) -> Vec<Float32>,
    C: FnOnce(usize, usize) -> CodebookParts,

    requires
        before.dim == Some(dim),
        crate::index::prepared(before, layout, make_rotation, make_codebook, after),
    ensures
        after.dim == before.dim,
        after.bit_width == before.bit_width,
        after.n_vectors == before.n_vectors,
        after.packed_codes == before.packed_codes,
        after.scales == before.scales,
        after.tqplus_shift == before.tqplus_shift,
        after.tqplus_scale == before.tqplus_scale,
        after.boundaries == before.boundaries,
        after.cache_dirty == before.cache_dirty,
        after.rotation is Some,
        after.centroids is Some,
        after.blocked is Some,
        before.rotation is Some ==> after.rotation == before.rotation,
        before.rotation is None ==> exists|made: Vec<Float32>| #[trigger]
            make_rotation.ensures((dim,), made) && after.rotation == Some(made@),
        before.centroids is Some ==> after.centroids == before.centroids,
        before.centroids is None ==> exists|made: CodebookParts| #[trigger]
            make_codebook.ensures((before.bit_width, dim), made) && after.centroids == Some(made.1@),
        before.blocked is Some ==> after.blocked == before.blocked,
        before.blocked is None ==> {
            &&& (after.blocked->0).layout == layout
            &&& (after.blocked->0).n_blocks == (before.n_vectors + 31) / 32
            &&& (after.blocked->0).data == crate::pack::blocked(
                layout,
                before.packed_codes,
                before.n_vectors as int,
                before.bit_width as int,
                dim as int,
            )
        },
{
    crate::pack::lemma_sizes(
        before.n_vectors as int,
        before.bit_width as int,
        dim as int,
        0,
    );
}

/// What a search of an index with vectors hands to the scoring, and what it
/// gives: the queries as they are, as many as they are, every array of the
/// index under its own name, the rotation, the centroids and the blocked form
/// that the index keeps, the number of results asked for, and the mask bit by
/// bit. The result is what the scoring gave.
pub proof fn lemma_scoring_field_by_field<S>(
    index: IndexView,
    queries: Seq<Float32>,
    k: usize,
    mask: Option<Seq<bool>>,
    score: S,
    result: SearchResults,
    dim: usize,
) where
    S: for <'a>FnOnce(SearchTask<'a>) -> (Vec<Float32>, Vec<i64>),

    requires
        index.dim == Some(dim),
        dim > 0,
        queries.len() <= usize::MAX,
        mask is Some ==> (mask->0).len() == index.n_vectors,
        index.rotation is Some,
        index.centroids is Some,
        index.blocked is Some,
        crate::index::scored_by(index, queries, k, mask, score, result),
    ensures
        exists|task: SearchTask, found: (Vec<Float32>, Vec<i64>)|
            {
                &&& #[trigger] score.ensures((task,), found)
                &&& task.layout == (index.blocked->0).layout
                &&& task.blocked@ == (index.blocked->0).data
                &&& task.n_blocks == (index.blocked->0).n_blocks
                &&& task.queries@ == queries
                &&& task.nq == queries.len() / (dim as nat)
                &&& task.dim == dim
                &&& task.bit_width == index.bit_width
                &&& task.n_vectors == index.n_vectors
                &&& task.k == k
                &&& task.scales@ == index.scales
                &&& task.tqplus_shift@ == index.tqplus_shift
                &&& task.tqplus_scale@ == index.tqplus_scale
                &&& index.rotation == Some(task.rotation@)
                &&& index.centroids == Some(task.centroids@)
                &&& mask is None ==> task.mask is None
                &&& mask is Some ==> task.mask is Some && (task.mask->0)@.len() == (index.n_vectors
                    + 63) / 64 && forall|slot: int|
                    0 <= slot < index.n_vectors ==> ((((task.mask->0)@[slot / 64] >> ((slot
                        % 64) as u64)) & 1 == 1) <==> #[trigger] (mask->0)[slot])
                &&& result.scores == found.0
                &&& result.indices == found.1
            },
        result.nq == queries.len() / (dim as nat),
        result.k <= k,
        result.k <= index.n_vectors,
        mask is None ==> result.k == k || result.k == index.n_vectors,
        mask is Some ==> ({
            let allowed = Set::new(|i: int| 0 <= i < (mask->0).len() && (mask->0)[i]).len();
            &&& result.k <= allowed
            &&& result.k == k || result.k == index.n_vectors || result.k == allowed
        }),
        crate::search::results_fit(
            result.scores@,
            result.indices@,
            result.nq as int,
            result.k as int,
            index.n_vectors as int,
            mask,
        ),
{
    vstd::arithmetic::div_mod::lemma_div_is_ordered_by_denominator(
        queries.len() as int,
        1,
        dim as int,
    );
    let (task, found) = choose|task: SearchTask, found: (Vec<Float32>, Vec<i64>)|
        {
            &&& #[trigger] score.ensures((task,), found)
            &&& crate::index::words_fit(task@.mask, mask)
            &&& task@ == index.search_task(queries, k, task@.mask)
            &&& result.scores == found.0
            &&& result.indices == found.1
        };
    assert(task@.queries == task.queries@ && task@.scales == task.scales@ && task@.tqplus_shift
        == task.tqplus_shift@ && task@.tqplus_scale == task.tqplus_scale@ && task@.rotation
        == task.rotation@ && task@.centroids == task.centroids@ && task@.blocked == task.blocked@);
    if mask is Some {
        let words = (task.mask->0)@;
        assert forall|slot: int| 0 <= slot < index.n_vectors implies (((words[slot / 64] >> ((slot
            % 64) as u64)) & 1 == 1) <==> #[trigger] (mask->0)[slot]) by {
            crate::search::lemma_packed_mask_by_bits(words, mask->0, slot);
        }
        crate::search::lemma_allowed_count_is_set_size(mask->0);
    }
    assert(score.ensures((task,), found));
}

/// What a search does: an index without vectors stays as it is and has nothing
/// to find; any other is prepared, and its queries are scored against what it
/// then holds.
pub proof fn lemma_search_cases<R, C, S>(
    before: IndexView,
    queries: Seq<Float32>,
    k: usize,
    mask: Option<Seq<bool>>,
    layout: BlockLayout,
    make_rotation: R,
    make_codebook: C,
    score: S,
    after: IndexView,
    result: SearchResults,
) where
    R: FnOnce(usize) -> Vec<Float32>,
    C: FnOnce(usize, usize) -> CodebookParts,
    S: for <'a>FnOnce(SearchTask<'a>) -> (Vec<Float32>, Vec<i64>),

    requires
        crate::index::searched(
            before,
            queries,
            k,
            mask,
            layout,
            make_rotation,
            make_codebook,
            score,
            after,
            result,
        ),
    ensures
        before.n_vectors == 0 ==> {
            &&& after == before
            &&& result.scores@.len() == 0 && result.indices@.len() == 0 && result.k == 0
            &&& before.dim is None ==> result.nq == 0
            &&& before.dim is Some ==> result.nq == queries.len() / (before.dim->0 as nat)
        },
        before.n_vectors > 0 ==> {
            &&& crate::index::prepared(before, layout, make_rotation, make_codebook, after)
            &&& crate::index::scored_by(after, queries, k, mask, score, result)
        },
{
}

/// Which queries and masks an index can be searched with, and which indexes
/// can be searched without making anything first.
pub proof fn lemma_what_can_be_searched(
    index: IndexView,
    queries: Seq<Float32>,
    mask: Option<Seq<bool>>,
)
    requires
        queries.len() <= usize::MAX,
    ensures
        crate::index::searchable(index, queries, mask) <==> {
            &&& index.dim is Some ==> queries.len() % (index.dim->0 as nat) == 0
            &&& forall|k: int|
                0 <= k < queries.len() ==> (#[trigger] queries[k]).bits % 0x8000_0000 < 0x5A0E_1BCA
            &&& mask is Some ==> (mask->0).len() == index.n_vectors
        },
        index.is_prepared() <==> index.n_vectors == 0 || (index.rotation is Some
            && index.centroids is Some && index.blocked is Some),
        index.blocked_fits_machine() <==> (index.n_vectors + 31) / 32
            * crate::pack::byte_groups(index.bit_width as int, index.dim_or_zero() as int) * 32
            <= usize::MAX,
{
    crate::validate::lemma_first_invalid_is_first(queries, index.dim_or_zero());
    crate::pack::lemma_sizes(
        index.n_vectors as int,
        index.bit_width as int,
        index.dim_or_zero() as int,
        0,
    );
}

/// A search asks no more of the scoring than this: that it takes what the index
/// holds, and gives results that fit.
pub proof fn lemma_search_asks_no_more<R, C, S>(
    index: IndexView,
    queries: Seq<Float32>,
    k: usize,
    mask: Option<Seq<bool>>,
    layout: BlockLayout,
    make_rotation: R,
    make_codebook: C,
    score: S,
    dim: usize,
) where
    R: FnOnce(usize) -> Vec<Float32>,
    C: FnOnce(usize, usize) -> CodebookParts,
    S: for <'a>FnOnce(SearchTask<'a>) -> (Vec<Float32>, Vec<i64>),

    requires
        index.dim == Some(dim),
        dim > 0,
        queries.len() <= usize::MAX,
        index.rotation is None ==> make_rotation.requires((dim,)),
        index.centroids is None ==> make_codebook.requires((index.bit_width, dim)),
        forall|task: SearchTask|
            {
                &&& task.queries@ == queries
                &&& task.nq == queries.len() / (dim as nat)
                &&& task.dim == dim
                &&& task.bit_width == index.bit_width
                &&& task.n_vectors == index.n_vectors
                &&& task.k == k
                &&& task.scales@ == index.scales
                &&& task.tqplus_shift@ == index.tqplus_shift
                &&& task.tqplus_scale@ == index.tqplus_scale
                &&& index.rotation is Some ==> index.rotation == Some(task.rotation@)
                &&& index.centroids is Some ==> index.centroids == Some(task.centroids@)
                &&& index.blocked is Some ==> task.layout == (index.blocked->0).layout
                    && task.blocked@ == (index.blocked->0).data && task.n_blocks == (
                index.blocked->0).n_blocks
                &&& index.blocked is None ==> task.layout == layout && task.n_blocks == (
                index.n_vectors + 31) / 32 && task.blocked@ == crate::pack::blocked(
                    layout,
                    index.packed_codes,
                    index.n_vectors as int,
                    index.bit_width as int,
                    dim as int,
                )
                &&& mask is None ==> task.mask is None
                &&& mask is Some ==> task.mask is Some && crate::search::packs_mask(
                    (task.mask->0)@,
                    mask->0,
                )
            } ==> #[trigger] score.requires((task,)),
        forall|task: SearchTask, found: (Vec<Float32>, Vec<i64>)|
            {
                &&& #[trigger] score.ensures((task,), found)
                &&& task.queries@ == queries
                &&& task.nq == queries.len() / (dim as nat)
                &&& task.dim == dim
                &&& task.bit_width == index.bit_width
                &&& task.n_vectors == index.n_vectors
                &&& task.k == k
                &&& task.scales@ == index.scales
                &&& task.tqplus_shift@ == index.tqplus_shift
                &&& task.tqplus_scale@ == index.tqplus_scale
                &&& index.rotation is Some ==> index.rotation == Some(task.rotation@)
                &&& index.centroids is Some ==> index.centroids == Some(task.centroids@)
                &&& index.blocked is Some ==> task.layout == (index.blocked->0).layout
                    && task.blocked@ == (index.blocked->0).data && task.n_blocks == (
                index.blocked->0).n_blocks
                &&& index.blocked is None ==> task.layout == layout && task.n_blocks == (
                index.n_vectors + 31) / 32 && task.blocked@ == crate::pack::blocked(
                    layout,
                    index.packed_codes,
                    index.n_vectors as int,
                    index.bit_width as int,
                    dim as int,
                )
                &&& mask is None ==> task.mask is None
                &&& mask is Some ==> task.mask is Some && crate::search::packs_mask(
                    (task.mask->0)@,
                    mask->0,
                )
            } ==> crate::search::results_fit(
                found.0@,
                found.1@,
                queries.len() as int / dim as int,
                crate::search::effective_count(
                    k as int,
                    index.n_vectors as int,
                    match mask {
                        Some(mask) => crate::search::allowed_count(mask) as int,
                        None => index.n_vectors as int,
                    },
                ),
                index.n_vectors as int,
                mask,
            ),
    ensures
        crate::index::scoring_ready(
            index,
            queries,
            k,
            mask,
            layout,
            make_rotation,
            make_codebook,
            score,
        ),
{
    vstd::arithmetic::div_mod::lemma_div_is_ordered_by_denominator(
        queries.len() as int,
        1,
        dim as int,
    );
    crate::pack::lemma_sizes(index.n_vectors as int, 2, 0, 0);
    assert forall|task: SearchTask| #[trigger]
        index.may_score(queries, k, mask, layout, task@) implies {
        &&& task.queries@ == queries
        &&& task.nq == queries.len() / (dim as nat)
        &&& task.dim == dim
        &&& task.bit_width == index.bit_width
        &&& task.n_vectors == index.n_vectors
        &&& task.k == k
        &&& task.scales@ == index.scales
        &&& task.tqplus_shift@ == index.tqplus_shift
        &&& task.tqplus_scale@ == index.tqplus_scale
        &&& index.rotation is Some ==> index.rotation == Some(task.rotation@)
        &&& index.centroids is Some ==> index.centroids == Some(task.centroids@)
        &&& index.blocked is Some ==> task.layout == (index.blocked->0).layout
            && task.blocked@ == (index.blocked->0).data && task.n_blocks == (
                index.blocked->0).n_blocks
        &&& index.blocked is None ==> task.layout == layout && task.n_blocks == (
                index.n_vectors + 31) / 32 && task.blocked@ == crate::pack::blocked(
            layout,
            index.packed_codes,
            index.n_vectors as int,
            index.bit_width as int,
            dim as int,
                )
        &&& mask is None ==> task.mask is None
        &&& mask is Some ==> task.mask is Some && crate::search::packs_mask(
            (task.mask->0)@,
            mask->0,
                )
    } by {
        assert(task@.queries == task.queries@ && task@.scales == task.scales@ && task@.tqplus_shift
            == task.tqplus_shift@ && task@.tqplus_scale == task.tqplus_scale@ && task@.rotation
            == task.rotation@ && task@.centroids == task.centroids@ && task@.blocked
            == task.blocked@);
    }
}

// ---------------------------------------------------------------------------
// Storing and loading
// ---------------------------------------------------------------------------

/// What a writer is handed: every field of the index under its own name, the
/// dimension as zero where there is none, and the fingerprint of the rotation,
/// which is the empty one where there are no vectors. Of the index nothing
/// changes but that its rotation may be kept from then on.
pub proof fn lemma_sent_field_by_field<T, O, R, F, S>(
    before: IndexView,
    empty: T,
    make_rotation: R,
    compute: F,
    send: S,
    after: IndexView,
    result: O,
    dim: usize,
) where
    R: FnOnce(usize) -> Vec<Float32>,
    F: for <'a>FnOnce(&'a [Float32], usize) -> T,
    S: for <'a>FnOnce(StoredIndex<'a>, T) -> O,

    requires
        before.n_vectors > 0 ==> before.dim == Some(dim),
        crate::index::sent(before, empty, make_rotation, compute, send, after, result),
    ensures
        exists|stored: StoredIndex, print: T|
            {
                &&& #[trigger] send.ensures((stored, print), result)
                &&& stored.bit_width == before.bit_width
                &&& before.dim is Some ==> stored.dim == before.dim->0
                &&& before.dim is None ==> stored.dim == 0
                &&& stored.n_vectors == before.n_vectors
                &&& stored.packed_codes@ == before.packed_codes
                &&& stored.scales@ == before.scales
                &&& stored.tqplus_shift@ == before.tqplus_shift
                &&& stored.tqplus_scale@ == before.tqplus_scale
                &&& before.n_vectors == 0 ==> print == empty && after.rotation == before.rotation
                &&& before.n_vectors > 0 ==> exists|rotation: &[Float32]|
                    #[trigger] compute.ensures((rotation, dim), print) && after.rotation == Some(
                        rotation@,
                    )
            },
        before.rotation is Some ==> after.rotation == before.rotation,
        before.n_vectors > 0 && before.rotation is None ==> exists|made: Vec<Float32>| #[trigger]
            make_rotation.ensures((dim,), made) && after.rotation == Some(made@),
        after.dim == before.dim && after.bit_width == before.bit_width && after.n_vectors
            == before.n_vectors,
        after.packed_codes == before.packed_codes && after.scales == before.scales,
        after.tqplus_shift == before.tqplus_shift && after.tqplus_scale == before.tqplus_scale,
        after.boundaries == before.boundaries && after.centroids == before.centroids,
        after.blocked == before.blocked && after.cache_dirty == before.cache_dirty,
{
    let (stored, print) = choose|stored: StoredIndex, print: T|
        {
            &&& #[trigger] send.ensures((stored, print), result)
            &&& crate::index::fingerprinted(
                before,
                empty,
                make_rotation,
                compute,
                after.rotation,
                print,
            )
            &&& stored@ == before.stored()
        };
    assert(stored@.packed_codes == stored.packed_codes@ && stored@.scales == stored.scales@
        && stored@.tqplus_shift == stored.tqplus_shift@ && stored@.tqplus_scale
        == stored.tqplus_scale@);
    assert(send.ensures((stored, print), result));
}

/// What writing a file hands out is the same, with what has happened to the
/// codes since they were last written; where it works that is forgotten, and
/// where it fails it is not.
pub proof fn lemma_written_field_by_field<T, X, R, F, S>(
    before: IndexView,
    empty: T,
    make_rotation: R,
    compute: F,
    send: S,
    after: IndexView,
    result: Result<(), X>,
    dim: usize,
) where
    R: FnOnce(usize) -> Vec<Float32>,
    F: for <'a>FnOnce(&'a [Float32], usize) -> T,
    S: for <'a>FnOnce(StoredIndex<'a>, T, RuntimeCacheMode) -> Result<(), X>,

    requires
        before.n_vectors > 0 ==> before.dim == Some(dim),
        crate::index::written(before, empty, make_rotation, compute, send, after, result),
    ensures
        exists|stored: StoredIndex, print: T, mode: RuntimeCacheMode|
            {
                &&& #[trigger] send.ensures((stored, print, mode), result)
                &&& stored.bit_width == before.bit_width
                &&& before.dim is Some ==> stored.dim == before.dim->0
                &&& before.dim is None ==> stored.dim == 0
                &&& stored.n_vectors == before.n_vectors
                &&& stored.packed_codes@ == before.packed_codes
                &&& stored.scales@ == before.scales
                &&& stored.tqplus_shift@ == before.tqplus_shift
                &&& stored.tqplus_scale@ == before.tqplus_scale
                &&& before.n_vectors == 0 ==> print == empty && after.rotation == before.rotation
                &&& before.n_vectors > 0 ==> exists|rotation: &[Float32]|
                    #[trigger] compute.ensures((rotation, dim), print) && after.rotation == Some(
                        rotation@,
                    )
                &&& mode.wf() && mode@ == before.cache_dirty
            },
        result is Ok ==> after.cache_dirty is AppendOnly,
        result is Err ==> after.cache_dirty == before.cache_dirty,
        before.rotation is Some ==> after.rotation == before.rotation,
        before.n_vectors > 0 && before.rotation is None ==> exists|made: Vec<Float32>| #[trigger]
            make_rotation.ensures((dim,), made) && after.rotation == Some(made@),
        after.dim == before.dim && after.bit_width == before.bit_width && after.n_vectors
            == before.n_vectors,
        after.packed_codes == before.packed_codes && after.scales == before.scales,
        after.tqplus_shift == before.tqplus_shift && after.tqplus_scale == before.tqplus_scale,
        after.boundaries == before.boundaries && after.centroids == before.centroids,
        after.blocked == before.blocked,
{
    let (stored, print, mode) = choose|stored: StoredIndex, print: T, mode: RuntimeCacheMode|
        {
            &&& #[trigger] send.ensures((stored, print, mode), result)
            &&& crate::index::fingerprinted(
                before,
                empty,
                make_rotation,
                compute,
                after.rotation,
                print,
            )
            &&& stored@ == before.stored()
            &&& mode.wf() && mode@ == before.cache_dirty
        };
    assert(stored@.packed_codes == stored.packed_codes@ && stored@.scales == stored.scales@
        && stored@.tqplus_shift == stored.tqplus_shift@ && stored@.tqplus_scale
        == stored.tqplus_scale@);
    assert(send.ensures((stored, print, mode), result));
}

/// The fingerprint of an index, and what it keeps of the rotation.
pub proof fn lemma_fingerprint_cases<T, R, F>(
    before: IndexView,
    empty: T,
    make_rotation: R,
    compute: F,
    kept: Option<Seq<Float32>>,
    print: T,
    dim: usize,
) where
    R: FnOnce(usize) -> Vec<Float32>,
    F: for <'a>FnOnce(&'a [Float32], usize) -> T,

    requires
        before.n_vectors > 0 ==> before.dim == Some(dim),
        crate::index::fingerprinted(before, empty, make_rotation, compute, kept, print),
    ensures
        before.n_vectors == 0 ==> print == empty && kept == before.rotation,
        before.n_vectors > 0 ==> exists|rotation: &[Float32]| #[trigger]
            compute.ensures((rotation, dim), print) && kept == Some(rotation@),
        before.rotation is Some ==> kept == before.rotation,
        before.n_vectors > 0 && before.rotation is None ==> exists|made: Vec<Float32>| #[trigger]
            make_rotation.ensures((dim,), made) && kept == Some(made@),
{
}

/// What a writer is asked for, and the functions of the fingerprint: no more
/// than that they take what the index holds.
pub proof fn lemma_sending_asks_no_more<T, O, R, F, S>(
    index: IndexView,
    empty: T,
    make_rotation: R,
    compute: F,
    send: S,
    dim: usize,
) where
    R: FnOnce(usize) -> Vec<Float32>,
    F: for <'a>FnOnce(&'a [Float32], usize) -> T,
    S: for <'a>FnOnce(StoredIndex<'a>, T) -> O,

    requires
        index.dim == Some(dim),
        index.rotation is None ==> make_rotation.requires((dim,)),
        forall|rotation: &[Float32]|
            index.rotation is None || index.rotation == Some(rotation@)
                ==> #[trigger] compute.requires((rotation, dim)),
        forall|stored: StoredIndex, print: T|
            {
                &&& stored.bit_width == index.bit_width
                &&& stored.dim == dim
                &&& stored.n_vectors == index.n_vectors
                &&& stored.packed_codes@ == index.packed_codes
                &&& stored.scales@ == index.scales
                &&& stored.tqplus_shift@ == index.tqplus_shift
                &&& stored.tqplus_scale@ == index.tqplus_scale
            } ==> #[trigger] send.requires((stored, print)),
    ensures
        crate::index::fingerprint_ready(index, make_rotation, compute),
        crate::index::sending_ready(index, empty, make_rotation, compute, send),
{
    assert forall|stored: StoredIndex| stored@ == index.stored() implies {
        &&& stored.bit_width == index.bit_width
        &&& stored.dim == dim
        &&& stored.n_vectors == index.n_vectors
        &&& #[trigger] stored@.packed_codes == index.packed_codes && stored@.packed_codes
            == stored.packed_codes@
        &&& stored.scales@ == index.scales
        &&& stored.tqplus_shift@ == index.tqplus_shift
        &&& stored.tqplus_scale@ == index.tqplus_scale
    } by {
        assert(stored@.scales == stored.scales@ && stored@.tqplus_shift == stored.tqplus_shift@
            && stored@.tqplus_scale == stored.tqplus_scale@);
    }
}

/// What is stored and what was loaded, field by field: every field under its
/// own name, a dimension of zero standing for none.
pub proof fn lemma_stored_and_loaded_fields(
    index: IndexView,
    stored: StoredIndex,
    loaded: LoadedIndex,
)
    ensures
        stored@ == index.stored() ==> {
            &&& stored.bit_width == index.bit_width
            &&& index.dim is Some ==> stored.dim == index.dim->0
            &&& index.dim is None ==> stored.dim == 0
            &&& stored.n_vectors == index.n_vectors
            &&& stored.packed_codes@ == index.packed_codes
            &&& stored.scales@ == index.scales
            &&& stored.tqplus_shift@ == index.tqplus_shift
            &&& stored.tqplus_scale@ == index.tqplus_scale
        },
        ({
            let parts = loaded@.parts();
            &&& loaded.dim == 0 ==> parts.dim is None
            &&& loaded.dim != 0 ==> parts.dim == Some(loaded.dim)
            &&& parts.bit_width == loaded.bit_width
            &&& parts.n_vectors == loaded.n_vectors
            &&& parts.packed_codes == loaded.packed_codes@
            &&& parts.scales == loaded.scales@
            &&& parts.tqplus_shift == loaded.tqplus_shift@
            &&& parts.tqplus_scale == loaded.tqplus_scale@
        }),
{
    if stored@ == index.stored() {
        assert(stored@.packed_codes == stored.packed_codes@ && stored@.scales == stored.scales@
            && stored@.tqplus_shift == stored.tqplus_shift@ && stored@.tqplus_scale
            == stored.tqplus_scale@);
    }
}

/// The index that parts make holds the parts, each under its own name; where
/// there are vectors without a calibration, the shifts are zeros and the scales
/// ones. What was derived before is kept as it is; otherwise nothing is.
pub proof fn lemma_parts_field_by_field(parts: IndexParts, cache: Option<RuntimeCache>)
    requires
        parts.n_vectors > 0 ==> parts.dim is Some,
    ensures
        ({
            let index = parts.index_with_cache(cache);
            let plain = parts.index();
            &&& index.dim == parts.dim && plain.dim == parts.dim
            &&& index.bit_width == parts.bit_width && plain.bit_width == parts.bit_width
            &&& index.n_vectors == parts.n_vectors && plain.n_vectors == parts.n_vectors
            &&& index.packed_codes == parts.packed_codes && plain.packed_codes
                == parts.packed_codes
            &&& index.scales == parts.scales && plain.scales == parts.scales
            &&& index.tqplus_shift == plain.tqplus_shift && index.tqplus_scale
                == plain.tqplus_scale
            &&& parts.tqplus_shift.len() > 0 || parts.n_vectors == 0 ==> plain.tqplus_shift
                == parts.tqplus_shift && plain.tqplus_scale == parts.tqplus_scale
            &&& parts.tqplus_shift.len() == 0 && parts.n_vectors > 0 ==> {
                &&& plain.tqplus_shift.len() == parts.dim->0 && plain.tqplus_scale.len()
                    == parts.dim->0
                &&& forall|i: int|
                    0 <= i < parts.dim->0 ==> (#[trigger] plain.tqplus_shift[i]).bits == 0
                &&& forall|i: int|
                    0 <= i < parts.dim->0 ==> (#[trigger] plain.tqplus_scale[i]).bits == 0x3F80_0000
            }
            &&& index.cache_dirty is AppendOnly && plain.cache_dirty is AppendOnly
            &&& plain.rotation is None && plain.boundaries is None && plain.centroids is None
                && plain.blocked is None
            &&& cache is None ==> index == plain
            &&& cache is Some ==> {
                &&& index.rotation == Some((cache->0).rotation@)
                &&& index.boundaries == Some((cache->0).boundaries@)
                &&& index.centroids == Some((cache->0).centroids@)
                &&& index.blocked is Some
                &&& (index.blocked->0).layout == (cache->0).layout
                &&& (index.blocked->0).data == (cache->0).blocked_data@
                &&& (index.blocked->0).n_blocks == (cache->0).n_blocks
            }
        }),
{
    crate::float32::lemma_identity_patterns();
}

/// Which parts are accepted: those whose bit width and dimension an index can
/// have, whose arrays have the lengths that these and the number of vectors
/// give, and whose values are good.
pub proof fn lemma_which_parts_are_accepted(parts: IndexParts)
    ensures
        parts.error() is None <==> {
            &&& parts.bit_width == 2 || parts.bit_width == 3 || parts.bit_width == 4
            &&& parts.tqplus_shift.len() == parts.tqplus_scale.len()
            &&& parts.dim is Some ==> {
                let dim = parts.dim->0 as int;
                let size = parts.n_vectors * (parts.bit_width * (dim / 8));
                &&& dim > 0 && dim % 8 == 0 && dim <= 16384
                &&& size <= usize::MAX
                &&& parts.packed_codes.len() == size
                &&& parts.scales.len() == parts.n_vectors
                &&& parts.tqplus_shift.len() == 0 || parts.tqplus_shift.len() == dim
            }
            &&& parts.dim is None ==> parts.n_vectors == 0 && parts.packed_codes.len() == 0
                && parts.scales.len() == 0 && parts.tqplus_shift.len() == 0
            &&& forall|i: int|
                0 <= i < parts.scales.len() ==> (#[trigger] parts.scales[i]).bits < 0x7F80_0000
                    || parts.scales[i].bits == 0x8000_0000
            &&& forall|i: int|
                0 <= i < parts.tqplus_shift.len() ==> (#[trigger] parts.tqplus_shift[i]).bits
                    % 0x8000_0000 < 0x7F80_0000
            &&& forall|i: int|
                0 <= i < parts.tqplus_scale.len() ==> 0 < (#[trigger] parts.tqplus_scale[i]).bits
                    < 0x7F80_0000
        },
{
    crate::validate::lemma_first_bad_parts(parts.scales);
    crate::validate::lemma_first_bad_parts(parts.tqplus_shift);
    crate::validate::lemma_first_bad_parts(parts.tqplus_scale);
}

/// Which error names parts whose lengths are wrong: the first that applies, in
/// this order.
pub proof fn lemma_which_length_is_named(parts: IndexParts, dim: usize)
    requires
        parts.dim is Some ==> parts.dim->0 == dim,
        parts.packed_codes.len() <= usize::MAX,
        parts.scales.len() <= usize::MAX,
        parts.tqplus_shift.len() <= usize::MAX,
        parts.tqplus_scale.len() <= usize::MAX,
    ensures
        ({
            let error = parts.error();
            let committed = parts.dim is Some;
            let bits = 2 <= parts.bit_width <= 4;
            let arrays = bits && parts.tqplus_shift.len() == parts.tqplus_scale.len();
            let whole = arrays && committed && dim > 0 && dim % 8 == 0;
            let small = whole && dim <= 16384;
            let size = parts.n_vectors * (parts.bit_width * (dim as int / 8));
            let fits = small && size <= usize::MAX;
            let codes = fits && parts.packed_codes.len() == size;
            let scales = codes && parts.scales.len() == parts.n_vectors;
            let lazy = arrays && !committed;
            &&& !bits ==> error == Some(FromPartsError::BitWidthOutOfRange(parts.bit_width))
            &&& bits && !arrays ==> error == Some(
                FromPartsError::TqplusLengthMismatch {
                    shift_len: parts.tqplus_shift.len() as usize,
                    scale_len: parts.tqplus_scale.len() as usize,
                },
            )
            &&& arrays && committed && !whole ==> error == Some(
                FromPartsError::DimNotPositiveMultipleOf8(dim),
            )
            &&& whole && !small ==> error == Some(FromPartsError::DimTooLarge { dim, max: 16384 })
            &&& small && !fits ==> error == Some(
                FromPartsError::PackedCodesSizeOverflow {
                    n_vectors: parts.n_vectors,
                    dim,
                    bit_width: parts.bit_width,
                },
            )
            &&& fits && !codes ==> error == Some(
                FromPartsError::PackedCodesLengthMismatch {
                    expected: size as usize,
                    got: parts.packed_codes.len() as usize,
                },
            )
            &&& codes && !scales ==> error == Some(
                FromPartsError::ScalesLengthMismatch {
                    expected: parts.n_vectors,
                    got: parts.scales.len() as usize,
                },
            )
            &&& scales && parts.tqplus_shift.len() != 0 && parts.tqplus_shift.len() != dim ==> error
                == Some(
                FromPartsError::TqplusLengthNotDim { got: parts.tqplus_shift.len() as usize, dim },
            )
            &&& lazy && parts.n_vectors != 0 ==> error == Some(
                FromPartsError::LazyMustHaveZeroVectors(parts.n_vectors),
            )
            &&& lazy && parts.n_vectors == 0 && parts.packed_codes.len() != 0 ==> error == Some(
                FromPartsError::LazyMustHaveEmptyPackedCodes(parts.packed_codes.len() as usize),
            )
            &&& lazy && parts.n_vectors == 0 && parts.packed_codes.len() == 0
                && parts.scales.len() != 0 ==> error == Some(
                FromPartsError::LazyMustHaveEmptyScales(parts.scales.len() as usize),
            )
            &&& lazy && parts.n_vectors == 0 && parts.packed_codes.len() == 0
                && parts.scales.len() == 0 && parts.tqplus_shift.len() != 0 ==> error == Some(
                FromPartsError::LazyMustHaveEmptyTqplus(parts.tqplus_shift.len() as usize),
            )
        }),
{
}

/// Which error names parts whose lengths are right and whose values are not:
/// the first bad scale, else the first bad shift, else the first bad
/// calibration scale.
pub proof fn lemma_which_value_is_named(parts: IndexParts, i: int)
    requires
        parts.length_error() is None,
        0 <= i < usize::MAX,
    ensures
        ({
            let good_scales = forall|k: int|
                0 <= k < parts.scales.len() ==> (#[trigger] parts.scales[k]).bits < 0x7F80_0000
                    || parts.scales[k].bits == 0x8000_0000;
            let good_shifts = forall|k: int|
                0 <= k < parts.tqplus_shift.len() ==> (#[trigger] parts.tqplus_shift[k]).bits
                    % 0x8000_0000 < 0x7F80_0000;
            &&& i < parts.scales.len() && !(parts.scales[i].bits < 0x7F80_0000
                || parts.scales[i].bits == 0x8000_0000) && (forall|k: int|
                0 <= k < i ==> (#[trigger] parts.scales[k]).bits < 0x7F80_0000
                    || parts.scales[k].bits == 0x8000_0000) ==> parts.error() == Some(
                FromPartsError::InvalidScaleValue { slot: i as usize, value: parts.scales[i] },
            )
            &&& good_scales && i < parts.tqplus_shift.len() && parts.tqplus_shift[i].bits
                % 0x8000_0000 >= 0x7F80_0000 && (forall|k: int|
                0 <= k < i ==> (#[trigger] parts.tqplus_shift[k]).bits % 0x8000_0000 < 0x7F80_0000)
                ==> parts.error() == Some(
                FromPartsError::InvalidTqplusShiftValue {
                    coord: i as usize,
                    value: parts.tqplus_shift[i],
                },
            )
            &&& good_scales && good_shifts && i < parts.tqplus_scale.len() && !(0
                < parts.tqplus_scale[i].bits < 0x7F80_0000) && (forall|k: int|
                0 <= k < i ==> 0 < (#[trigger] parts.tqplus_scale[k]).bits < 0x7F80_0000)
                ==> parts.error() == Some(
                FromPartsError::InvalidTqplusScaleValue {
                    coord: i as usize,
                    value: parts.tqplus_scale[i],
                },
            )
        }),
{
    crate::validate::lemma_first_bad_parts(parts.scales);
    crate::validate::lemma_first_bad_parts(parts.tqplus_shift);
    crate::validate::lemma_first_bad_parts(parts.tqplus_scale);
}

/// What is loaded, field by field: a failure to read is passed on; parts that
/// are not accepted are refused with their error; and otherwise every field of
/// the index is the one of that name that was read.
pub proof fn lemma_load_field_by_field<X>(
    loaded: LoadedIndex,
    rotation: Option<Vec<Float32>>,
    cache: Option<RuntimeCache>,
    failure: X,
    result: Result<TurboQuantIndex, LoadError<X>>,
    failed: Result<TurboQuantIndex, LoadError<X>>,
)
    requires
        crate::index::assembled(Ok((loaded, rotation, cache)), result),
        crate::index::assembled(Err(failure), failed),
    ensures
        failed is Err,
        failed->Err_0 == LoadError::<X>::Read(failure),
        result is Ok <==> loaded@.parts().error() is None,
        result is Err ==> result->Err_0 == LoadError::<X>::Parts(loaded@.parts().error()->0),
        result is Ok ==> ({
            let index = result->Ok_0@;
            &&& loaded.dim == 0 ==> index.dim is None
            &&& loaded.dim != 0 ==> index.dim == Some(loaded.dim)
            &&& index.bit_width == loaded.bit_width
            &&& index.n_vectors == loaded.n_vectors
            &&& index.packed_codes == loaded.packed_codes@
            &&& index.scales == loaded.scales@
            &&& loaded.tqplus_shift@.len() > 0 || loaded.n_vectors == 0 ==> index.tqplus_shift
                == loaded.tqplus_shift@ && index.tqplus_scale == loaded.tqplus_scale@
            &&& loaded.tqplus_shift@.len() == 0 && loaded.n_vectors > 0 ==> {
                &&& index.tqplus_shift.len() == loaded.dim && index.tqplus_scale.len() == loaded.dim
                &&& forall|i: int|
                    0 <= i < loaded.dim ==> (#[trigger] index.tqplus_shift[i]).bits == 0
                &&& forall|i: int|
                    0 <= i < loaded.dim ==> (#[trigger] index.tqplus_scale[i]).bits == 0x3F80_0000
            }
            &&& result->Ok_0.wf()
            &&& cache is None && rotation is None ==> index.rotation is None
            &&& cache is None && rotation is Some ==> index.rotation == Some((rotation->0)@)
            &&& cache is None ==> index.boundaries is None && index.centroids is None
                && index.blocked is None
            &&& cache is Some ==> {
                &&& index.rotation == Some((cache->0).rotation@)
                &&& index.boundaries == Some((cache->0).boundaries@)
                &&& index.centroids == Some((cache->0).centroids@)
                &&& index.blocked is Some
                &&& (index.blocked->0).layout == (cache->0).layout
                &&& (index.blocked->0).data == (cache->0).blocked_data@
                &&& (index.blocked->0).n_blocks == (cache->0).n_blocks
            }
            &&& index.cache_dirty is AppendOnly
        }),
{
    crate::float32::lemma_identity_patterns();
}

/// Values that may be there or not are looked at one by one.
pub proof fn lemma_optional_values(
    values: Option<Vec<Float32>>,
    mask: Option<&[bool]>,
    dir: Option<crate::codebook_cache::CachePath>,
)
    ensures
        values is None ==> crate::index::kept(values) is None,
        values is Some ==> crate::index::kept(values) == Some((values->0)@),
        mask is None ==> crate::search::mask_view(mask) is None,
        mask is Some ==> crate::search::mask_view(mask) == Some((mask->0)@),
        dir is None ==> crate::codebook_cache::dir_view(dir) is None,
        dir is Some ==> crate::codebook_cache::dir_view(dir) == Some((dir->0)@),
{
}

/// Taking bytes apart hands over the bytes, and puts together what came of
/// them.
pub proof fn lemma_bytes_are_taken_apart<X, L>(
    bytes: &[u8],
    parse: L,
    result: Result<TurboQuantIndex, LoadError<X>>,
) where L: for <'a>FnOnce(&'a [u8]) -> Result<(LoadedIndex, Option<Vec<Float32>>), X>,
    requires
        crate::index::parsed(bytes, parse, result),
    ensures
        exists|got: Result<(LoadedIndex, Option<Vec<Float32>>), X>|
            {
                &&& #[trigger] parse.ensures((bytes,), got)
                &&& got is Err ==> result is Err && result->Err_0 == LoadError::<X>::Read(got->Err_0)
                &&& got is Ok ==> crate::index::assembled(
                    Ok::<_, X>(((got->Ok_0).0, (got->Ok_0).1, None)),
                    result,
                )
            },
{
}

/// Reading without anything kept beside the index.
pub proof fn lemma_reading_without_cache<X>(got: Result<(LoadedIndex, Option<Vec<Float32>>), X>)
    ensures
        got is Ok ==> crate::index::without_cache(got) == Ok::<
            (LoadedIndex, Option<Vec<Float32>>, Option<RuntimeCache>),
            X,
        >(((got->Ok_0).0, (got->Ok_0).1, None)),
        got is Err ==> crate::index::without_cache(got) == Err::<
            (LoadedIndex, Option<Vec<Float32>>, Option<RuntimeCache>),
            X,
        >(got->Err_0),
{
}

} // verus!
