//! What holds of an index across several operations.

use vstd::prelude::*;

use crate::codebook::CodebookParts;
use crate::error::AddError;
use crate::float32::Float32;
use crate::index::IndexView;
use crate::kernels::{EncodeTask, EncodedBatch, EncodedBatchView};
use crate::pack::{BlockLayout, BLOCK};
use crate::runtime_cache::RuntimeCacheModeView;

verus! {

// ---------------------------------------------------------------------------
// Dimension and calibration
// ---------------------------------------------------------------------------

/// The dimension never changes once the index is committed to one: vectors of
/// any other dimension are refused, and adding and removing leave it alone.
pub proof fn lemma_dim_is_locked(
    index: IndexView,
    vectors: Seq<Float32>,
    dim: usize,
    n: usize,
    batch: EncodedBatchView,
    idx: usize,
)
    requires
        index.dim is Some,
    ensures
        dim != index.dim->0 ==> index.add_error(vectors, dim) == Some(
            AddError::DimMismatch { existing: index.dim->0, got: dim },
        ),
        index.appended(n, batch).dim == index.dim,
        index.swap_removed(idx).dim == index.dim,
{
}

/// An index that is not committed to a dimension takes exactly the dimensions
/// that one can be constructed with.
pub proof fn lemma_first_add_takes_constructible_dims(
    index: IndexView,
    vectors: Seq<Float32>,
    dim: usize,
)
    requires
        index.dim is None,
        crate::validate::first_invalid(vectors, dim) is None,
    ensures
        index.add_error(vectors, dim) is None <==> crate::index::valid_dim(dim),
{
}

/// All vectors of an index live in one calibrated coordinate system: as long
/// as there are vectors there is a calibration, the encoder is handed it with
/// every further batch, and neither adding nor removing changes it.
pub proof fn lemma_calibration_is_frozen(
    index: IndexView,
    vectors: Seq<Float32>,
    n: usize,
    batch: EncodedBatchView,
    idx: usize,
)
    requires
        index.wf(),
        index.n_vectors > 0,
    ensures
        index.calibration() is Some,
        index.encode_task(vectors).existing == index.calibration(),
        index.appended(n, batch).calibration() == index.calibration(),
        index.swap_removed(idx).calibration() == index.calibration(),
{
}

// ---------------------------------------------------------------------------
// Adding and removing
// ---------------------------------------------------------------------------

/// Adding extends the index: the codes and the scales that were there come
/// first, with one row and one scale for each new vector behind them, and
/// neither the dimension, nor the bit width, nor the calibration of vectors
/// that were there changes.
pub proof fn lemma_add_extends<R, C, E>(
    before: IndexView,
    vectors: Seq<Float32>,
    make_rotation: R,
    make_codebook: C,
    encode: E,
    after: IndexView,
) where
    R: FnOnce(usize) -> Vec<Float32>,
    C: FnOnce(usize, usize) -> CodebookParts,
    E: for <'a>FnOnce(EncodeTask<'a>) -> EncodedBatch,

    requires
        before.wf(),
        before.dim is Some,
        vectors.len() <= usize::MAX,
        crate::index::added(before, vectors, make_rotation, make_codebook, encode, after),
    ensures
        after.wf(),
        after.n_vectors == before.n_vectors + vectors.len() / (before.dim->0 as nat),
        before.packed_codes.is_prefix_of(after.packed_codes),
        after.packed_codes.len() == after.n_vectors * before.row_bytes(),
        before.scales.is_prefix_of(after.scales),
        after.scales.len() == after.n_vectors,
        before.n_vectors > 0 ==> after.tqplus_shift == before.tqplus_shift && after.tqplus_scale
            == before.tqplus_scale,
        after.dim == before.dim,
        after.bit_width == before.bit_width,
{
    let dim = before.dim->0;
    if vectors.len() == 0 {
        assert(0nat / (dim as nat) == 0) by (nonlinear_arith)
            requires
                dim > 0,
        ;
    } else {
        let ready = IndexView {
            rotation: after.rotation,
            boundaries: after.boundaries,
            centroids: after.centroids,
            ..before
        };
        let (task, batch) = choose|task: EncodeTask, batch: EncodedBatch|
            {
                &&& #[trigger] encode.ensures((task,), batch)
                &&& task@ == ready.encode_task(vectors)
                &&& batch@.fits(task.n as int, dim as int, before.bit_width as int)
                &&& before.n_vectors + task.n <= usize::MAX
                &&& after == ready.appended(task.n, batch@)
                &&& after.vectors() == before.vectors() + batch@.vectors(
                    dim as int,
                    before.bit_width as int,
                )
            };
        vstd::arithmetic::div_mod::lemma_div_is_ordered_by_denominator(
            vectors.len() as int,
            1,
            dim as int,
        );
        assert(task.n == vectors.len() / (dim as nat));
        if task.n > 0 {
            crate::index::lemma_appended(ready, task.n, batch@);
        } else {
            assert(0 * before.row_bytes() == 0);
            assert(after.packed_codes =~= before.packed_codes);
            assert(after.scales =~= before.scales);
        }
        assert(before.packed_codes =~= after.packed_codes.take(before.packed_codes.len() as int));
    }
}

/// Removing the vector that was added last undoes the addition: the vectors
/// are those that were there before.
pub proof fn lemma_remove_undoes_add(index: IndexView, batch: EncodedBatchView)
    requires
        index.wf(),
        index.dim is Some,
        batch.fits(1, index.dim->0 as int, index.bit_width as int),
        index.n_vectors < usize::MAX,
    ensures
        index.appended(1, batch).swap_removed(index.n_vectors).vectors() == index.vectors(),
        index.appended(1, batch).swap_removed(index.n_vectors).n_vectors == index.n_vectors,
{
    let longer = index.appended(1, batch);
    crate::index::lemma_appended(index, 1, batch);
    crate::index::lemma_swap_removed(longer, index.n_vectors);
    let all = longer.vectors();
    assert(all.update(index.n_vectors as int, all.last()) =~= all);
    assert(all.drop_last() =~= index.vectors());
}

/// The vectors and the calibration of an index determine its codes: there is
/// nothing in the codes but the rows of the vectors.
pub proof fn lemma_vectors_determine_codes(a: IndexView, b: IndexView)
    requires
        a.wf(),
        b.wf(),
        a.dim == b.dim,
        a.bit_width == b.bit_width,
        a.vectors() == b.vectors(),
    ensures
        a.packed_codes == b.packed_codes,
        a.scales == b.scales,
{
    let w = a.row_bytes();
    let n = a.n_vectors as int;
    assert(a.vectors().len() == n && b.vectors().len() == b.n_vectors);
    assert(b.row_bytes() == w);
    assert(b.packed_codes.len() == b.n_vectors * b.row_bytes());
    assert forall|i: int| 0 <= i < a.packed_codes.len() implies a.packed_codes[i]
        == b.packed_codes[i] by {
        assert(w > 0) by (nonlinear_arith)
            requires
                0 <= i < n * w,
                n >= 0,
        ;
        let slot = i / w;
        let at = i % w;
        vstd::arithmetic::div_mod::lemma_fundamental_div_mod(i, w);
        vstd::arithmetic::div_mod::lemma_mod_bound(i, w);
        assert(0 <= slot < n) by (nonlinear_arith)
            requires
                i == w * slot + at,
                0 <= at < w,
                0 <= i < n * w,
        ;
        assert(w * slot == slot * w) by (nonlinear_arith);
        crate::pack::lemma_row_bounds(
            a.packed_codes.len() as int,
            n,
            a.bit_width as int,
            a.dim_or_zero() as int,
            slot,
        );
        assert(a.vectors()[slot].0 == b.vectors()[slot].0);
        assert(a.row(slot)[at] == a.packed_codes[i]);
        assert(b.row(slot)[at] == b.packed_codes[i]);
    }
    assert(a.packed_codes =~= b.packed_codes);
    assert forall|i: int| 0 <= i < a.scales.len() implies a.scales[i] == b.scales[i] by {
        assert(a.vectors()[i].1 == a.scales[i]);
        assert(b.vectors()[i].1 == b.scales[i]);
    }
    assert(a.scales =~= b.scales);
}

// ---------------------------------------------------------------------------
// Searching
// ---------------------------------------------------------------------------

/// A search gives as many results per query as were asked for, or as the mask
/// allows where those are fewer; without a mask, or with one that allows every
/// slot, all vectors may be found.
pub proof fn lemma_result_count(index: IndexView, k: usize, mask: Option<Seq<bool>>)
    requires
        mask matches Some(mask) ==> mask.len() == index.n_vectors,
    ensures
        crate::search::effective_count(k as int, index.n_vectors as int, index.allowed(mask))
            == if k <= index.allowed(mask) {
            k as int
        } else {
            index.allowed(mask)
        },
        mask is None ==> index.allowed(mask) == index.n_vectors,
        mask is Some && (forall|i: int| 0 <= i < (mask->0).len() ==> #[trigger] (mask->0)[i])
            ==> index.allowed(mask) == index.n_vectors,
{
    if mask is Some {
        crate::search::lemma_allowed_count_bound(mask->0);
        if forall|i: int| 0 <= i < mask->0.len() ==> #[trigger] (mask->0)[i] {
            crate::search::lemma_full_mask_allows_all(mask->0);
        }
    }
}

// ---------------------------------------------------------------------------
// What is derived on first use
// ---------------------------------------------------------------------------

/// Preparing an index that has been prepared changes nothing, whatever it is
/// handed.
pub proof fn lemma_prepare_is_idempotent<R, C>(
    before: IndexView,
    layout: BlockLayout,
    make_rotation: R,
    make_codebook: C,
    after: IndexView,
) where R: FnOnce(usize) -> Vec<Float32>, C: FnOnce(usize, usize) -> CodebookParts
    requires
        before.rotation is Some,
        before.centroids is Some,
        before.blocked is Some,
        crate::index::prepared(before, layout, make_rotation, make_codebook, after),
    ensures
        after == before,
{
}

// ---------------------------------------------------------------------------
// What is kept on disk beside the index
// ---------------------------------------------------------------------------

/// The vector that `written` had at a slot is still there, with its codes.
pub open spec fn keeps(index: IndexView, written: IndexView, slot: int) -> bool {
    &&& slot < index.n_vectors
    &&& index.row(slot) == written.row(slot)
}

/// The index knows what has become of the codes that were written: it keeps
/// every vector whose block is not marked.
pub open spec fn tracks(index: IndexView, written: IndexView) -> bool {
    &&& index.bit_width == written.bit_width
    &&& written.dim is Some ==> index.dim == written.dim
    &&& forall|slot: int|
        0 <= slot < written.n_vectors && !index.cache_dirty.blocks().contains(
            (slot / BLOCK as int) as usize,
        ) ==> #[trigger] keeps(index, written, slot)
}

/// Right after writing, nothing is marked, and nothing needs to be.
pub proof fn lemma_tracks_after_write(index: IndexView)
    ensures
        tracks(IndexView { cache_dirty: RuntimeCacheModeView::AppendOnly, ..index }, index),
{
}

/// Committing to a dimension keeps track.
pub proof fn lemma_tracks_commit(index: IndexView, written: IndexView, dim: usize)
    requires
        tracks(index, written),
        index.wf(),
        written.wf(),
        index.dim is None,
    ensures
        tracks(index.committed(dim), written),
{
}

/// Adding vectors keeps track, and marks nothing.
pub proof fn lemma_tracks_append(
    index: IndexView,
    written: IndexView,
    n: usize,
    batch: EncodedBatchView,
)
    requires
        tracks(index, written),
        index.wf(),
        index.dim is Some,
        batch.fits(n as int, index.dim->0 as int, index.bit_width as int),
        n > 0,
        index.n_vectors + n <= usize::MAX,
    ensures
        tracks(index.appended(n, batch), written),
        index.appended(n, batch).cache_dirty == index.cache_dirty,
{
    let after = index.appended(n, batch);
    crate::index::lemma_appended(index, n, batch);
    assert forall|slot: int|
        0 <= slot < written.n_vectors && !after.cache_dirty.blocks().contains(
            (slot / BLOCK as int) as usize,
        ) implies #[trigger] keeps(after, written, slot) by {
        assert(keeps(index, written, slot));
        assert(after.vectors()[slot].0 == index.vectors()[slot].0);
    }
}

/// Removing a vector keeps track: what it changes is marked.
pub proof fn lemma_tracks_swap_remove(index: IndexView, written: IndexView, idx: usize)
    requires
        tracks(index, written),
        index.wf(),
        idx < index.n_vectors,
    ensures
        tracks(index.swap_removed(idx), written),
{
    let after = index.swap_removed(idx);
    let last = index.n_vectors - 1;
    crate::index::lemma_swap_removed(index, idx);
    assert forall|slot: int|
        0 <= slot < written.n_vectors && !after.cache_dirty.blocks().contains(
            (slot / BLOCK as int) as usize,
        ) implies #[trigger] keeps(after, written, slot) by {
        let blocks = index.cache_dirty.blocks();
        assert(after.cache_dirty.blocks() == blocks.insert(idx / BLOCK).insert(
            last as usize / BLOCK,
        ));
        assert(keeps(index, written, slot));
        assert(slot != idx && slot != last);
        assert(after.vectors()[slot].0 == index.vectors()[slot].0);
    }
}

/// A block that was full when the codes were written and is not marked has in
/// the blocked form the bytes that it had: only marked blocks and what lies
/// behind the full ones must be made again.
pub proof fn lemma_unmarked_block_is_unchanged(
    index: IndexView,
    written: IndexView,
    layout: BlockLayout,
    block: usize,
)
    requires
        tracks(index, written),
        index.wf(),
        written.wf(),
        (block + 1) * BLOCK <= written.n_vectors,
        !index.cache_dirty.blocks().contains(block),
    ensures
        block < crate::pack::block_count(index.n_vectors as int),
        crate::pack::blocked_range(
            layout,
            index.packed_codes,
            index.n_vectors as int,
            index.bit_width as int,
            index.dim_or_zero() as int,
            block as int,
            block + 1,
        ) == crate::pack::blocked_range(
            layout,
            written.packed_codes,
            written.n_vectors as int,
            written.bit_width as int,
            written.dim_or_zero() as int,
            block as int,
            block + 1,
        ),
{
    let (bits, dim) = (index.bit_width as int, index.dim_or_zero() as int);
    assert forall|v: int| block * BLOCK <= v < block * BLOCK + BLOCK implies #[trigger]
        crate::pack::agree_on(
            index.packed_codes,
            index.n_vectors as int,
            written.packed_codes,
            written.n_vectors as int,
            bits,
            dim,
            v,
        ) by {
        assert(v / BLOCK as int == block);
        assert(keeps(index, written, v));
    }
    let first = block * BLOCK;
    assert(first / BLOCK as int == block);
    assert(keeps(index, written, first));
    crate::pack::lemma_block_depends_on_its_vectors(
        layout,
        index.packed_codes,
        index.n_vectors as int,
        written.packed_codes,
        written.n_vectors as int,
        bits,
        dim,
        block as int,
    );
}

} // verus!
