//! What is kept is never stale.
//!
//! The laws here speak of numeric kernels that always give the same for the
//! same: [`Numerics`] names what they give. Whatever is done to an index then,
//! what it keeps is what would be made anew, so that an index and the one put
//! together from its parts answer alike.

use vstd::prelude::*;

use crate::codebook::CodebookParts;
use crate::float32::Float32;
use crate::index::{IndexParts, IndexView, LoadError, LoadedIndex, StoredIndex, StoredView, TurboQuantIndex};
use crate::kernels::{EncodeTask, EncodeTaskView, EncodedBatch, EncodedBatchView, SearchTask, SearchTaskView};
use crate::pack::BlockLayout;
use crate::runtime_cache::{RuntimeCache, RuntimeCacheMode};
use crate::search::SearchResults;

verus! {

/// What a set of kernels gives.
pub struct Numerics {
    /// The rotation of a dimension.
    pub rotation_of: spec_fn(usize) -> Seq<Float32>,
    /// The codebook of a bit width and a dimension.
    pub codebook_of: spec_fn(usize, usize) -> (Seq<Float32>, Seq<Float32>),
    /// The encoding of a batch.
    pub encode_of: spec_fn(EncodeTaskView) -> EncodedBatchView,
    /// The scores and slots of queries.
    pub score_of: spec_fn(SearchTaskView) -> (Seq<Float32>, Seq<i64>),
}

impl Numerics {
    /// A function gives the rotation.
    pub open spec fn rotates<R: FnOnce(usize) -> Vec<Float32>>(self, make: R, dim: usize) -> bool {
        forall|made: Vec<Float32>| #[trigger]
            make.ensures((dim,), made) ==> made@ == (self.rotation_of)(dim)
    }

    /// A function gives the codebook.
    pub open spec fn books<C: FnOnce(usize, usize) -> CodebookParts>(
        self,
        make: C,
        bits: usize,
        dim: usize,
    ) -> bool {
        forall|made: CodebookParts| #[trigger]
            make.ensures((bits, dim), made) ==> (made.0@, made.1@) == (self.codebook_of)(bits, dim)
    }

    /// A function gives the encoding.
    pub open spec fn encodes<E: for <'a>FnOnce(EncodeTask<'a>) -> EncodedBatch>(
        self,
        encode: E,
    ) -> bool {
        forall|task: EncodeTask, batch: EncodedBatch| #[trigger]
            encode.ensures((task,), batch) ==> batch@ == (self.encode_of)(task@)
    }

    /// A function gives the scores and slots.
    pub open spec fn scores<S: for <'a>FnOnce(SearchTask<'a>) -> (Vec<Float32>, Vec<i64>)>(
        self,
        score: S,
    ) -> bool {
        forall|task: SearchTask, found: (Vec<Float32>, Vec<i64>)| #[trigger]
            score.ensures((task,), found) ==> (found.0@, found.1@) == (self.score_of)(task@)
    }

    /// The scoring heeds of a mask which slots it allows, and nothing else.
    pub open spec fn masks_by_slots(self) -> bool {
        forall|a: SearchTaskView, b: SearchTaskView|
            same_slots(a, b) ==> #[trigger] (self.score_of)(a) == #[trigger] (self.score_of)(b)
    }
}

/// A packed mask, or none, allows a slot.
pub open spec fn slot_allowed(words: Option<Seq<u64>>, slot: int) -> bool {
    words matches Some(words) ==> crate::search::mask_bit(words, slot)
}

/// Two tasks that differ at most in how they say which slots may be found.
pub open spec fn same_slots(a: SearchTaskView, b: SearchTaskView) -> bool {
    &&& a == SearchTaskView { mask: a.mask, ..b }
    &&& forall|slot: int|
        0 <= slot < a.n_vectors ==> (#[trigger] slot_allowed(a.mask, slot) <==> slot_allowed(
            b.mask,
            slot,
        ))
}

/// What the index keeps is what would be made anew.
pub open spec fn fresh(index: IndexView, numerics: Numerics, layout: BlockLayout) -> bool {
    let book = (numerics.codebook_of)(index.bit_width, index.dim_or_zero());
    &&& index.dim is None ==> index.rotation is None && index.boundaries is None
        && index.centroids is None
    &&& index.rotation is Some ==> index.rotation == Some(
        (numerics.rotation_of)(index.dim_or_zero()),
    )
    &&& index.boundaries is Some ==> index.boundaries == Some(book.0)
    &&& index.centroids is Some ==> index.centroids == Some(book.1)
    &&& index.blocked is Some ==> index.blocked == Some(index.blocked_form(layout))
}

// ---------------------------------------------------------------------------
// What stays fresh
// ---------------------------------------------------------------------------

/// A new index keeps nothing, and so does one put together from parts.
pub proof fn lemma_new_is_fresh(
    dim: Option<usize>,
    bit_width: usize,
    parts: IndexParts,
    numerics: Numerics,
    layout: BlockLayout,
)
    ensures
        fresh(IndexView::empty(dim, bit_width), numerics, layout),
        fresh(parts.index(), numerics, layout),
{
}

/// Removing a vector keeps an index fresh.
pub proof fn lemma_remove_keeps_fresh(
    index: IndexView,
    idx: usize,
    numerics: Numerics,
    layout: BlockLayout,
)
    requires
        fresh(index, numerics, layout),
    ensures
        fresh(index.swap_removed(idx), numerics, layout),
{
}

/// Committing an index to a dimension keeps it fresh.
pub proof fn lemma_commit_keeps_fresh(
    index: IndexView,
    dim: usize,
    numerics: Numerics,
    layout: BlockLayout,
)
    requires
        index.wf(),
        crate::index::valid_dim(dim),
        index.dim is None || index.dim == Some(dim),
        fresh(index, numerics, layout),
    ensures
        fresh(index.committed(dim), numerics, layout),
{
    if index.dim is None {
        crate::index::lemma_committed(index, dim);
        assert(index.committed(dim).cache_fits());
    } else {
        assert(index.committed(dim) == index);
    }
}

/// Adding vectors keeps an index fresh.
pub proof fn lemma_add_keeps_fresh<R, C, E>(
    before: IndexView,
    vectors: Seq<Float32>,
    make_rotation: R,
    make_codebook: C,
    encode: E,
    after: IndexView,
    numerics: Numerics,
    layout: BlockLayout,
) where
    R: FnOnce(usize) -> Vec<Float32>,
    C: FnOnce(usize, usize) -> CodebookParts,
    E: for <'a>FnOnce(EncodeTask<'a>) -> EncodedBatch,

    requires
        before.dim is Some,
        fresh(before, numerics, layout),
        numerics.rotates(make_rotation, before.dim_or_zero()),
        numerics.books(make_codebook, before.bit_width, before.dim_or_zero()),
        crate::index::added(before, vectors, make_rotation, make_codebook, encode, after),
    ensures
        fresh(after, numerics, layout),
        after.bit_width == before.bit_width && after.dim == before.dim,
{
}

/// Preparing keeps an index fresh, and changes nothing that it stores and
/// nothing that is known of its codes.
pub proof fn lemma_prepare_keeps_fresh<R, C>(
    before: IndexView,
    layout: BlockLayout,
    make_rotation: R,
    make_codebook: C,
    after: IndexView,
    numerics: Numerics,
) where
    R: FnOnce(usize) -> Vec<Float32>,
    C: FnOnce(usize, usize) -> CodebookParts,

    requires
        before.dim is Some,
        fresh(before, numerics, layout),
        numerics.rotates(make_rotation, before.dim_or_zero()),
        numerics.books(make_codebook, before.bit_width, before.dim_or_zero()),
        crate::index::prepared(before, layout, make_rotation, make_codebook, after),
    ensures
        fresh(after, numerics, layout),
        after.stored() == before.stored(),
        after.cache_dirty == before.cache_dirty,
{
    assert(after.blocked_form(layout) == before.blocked_form(layout));
}

/// Searching keeps an index fresh, and changes nothing that it stores and
/// nothing that is known of its codes.
pub proof fn lemma_search_keeps_fresh<R, C, S>(
    before: IndexView,
    queries: Seq<Float32>,
    k: usize,
    mask: Option<Seq<bool>>,
    layout: BlockLayout,
    make_rotation: R,
    make_codebook: C,
    score: S,
    after: IndexView,
    result: SearchResults,
    numerics: Numerics,
) where
    R: FnOnce(usize) -> Vec<Float32>,
    C: FnOnce(usize, usize) -> CodebookParts,
    S: for <'a>FnOnce(SearchTask<'a>) -> (Vec<Float32>, Vec<i64>),

    requires
        before.wf(),
        fresh(before, numerics, layout),
        numerics.rotates(make_rotation, before.dim_or_zero()),
        numerics.books(make_codebook, before.bit_width, before.dim_or_zero()),
        crate::index::searched(
            before,
            queries,
            k,
            mask,
            layout,
            make_rotation,
            make_codebook,
            score,
            after,
            result,
        ),
    ensures
        fresh(after, numerics, layout),
        after.stored() == before.stored(),
        after.cache_dirty == before.cache_dirty,
{
    if before.n_vectors > 0 {
        lemma_prepare_keeps_fresh(before, layout, make_rotation, make_codebook, after, numerics);
    }
}

// ---------------------------------------------------------------------------
// Equal indexes answer alike
// ---------------------------------------------------------------------------

/// Adding the same vectors to indexes that store the same gives indexes that
/// store the same, whatever the two kept before.
pub proof fn lemma_add_is_determined<R1, C1, E1, R2, C2, E2>(
    x: IndexView,
    y: IndexView,
    vectors: Seq<Float32>,
    rotation1: R1,
    codebook1: C1,
    encode1: E1,
    rotation2: R2,
    codebook2: C2,
    encode2: E2,
    x_after: IndexView,
    y_after: IndexView,
    numerics: Numerics,
    layout: BlockLayout,
) where
    R1: FnOnce(usize) -> Vec<Float32>,
    C1: FnOnce(usize, usize) -> CodebookParts,
    E1: for <'a>FnOnce(EncodeTask<'a>) -> EncodedBatch,
    R2: FnOnce(usize) -> Vec<Float32>,
    C2: FnOnce(usize, usize) -> CodebookParts,
    E2: for <'a>FnOnce(EncodeTask<'a>) -> EncodedBatch,

    requires
        x.dim is Some,
        x.bare() == y.bare(),
        fresh(x, numerics, layout),
        fresh(y, numerics, layout),
        numerics.rotates(rotation1, x.dim_or_zero()),
        numerics.rotates(rotation2, x.dim_or_zero()),
        numerics.books(codebook1, x.bit_width, x.dim_or_zero()),
        numerics.books(codebook2, x.bit_width, x.dim_or_zero()),
        numerics.encodes(encode1),
        numerics.encodes(encode2),
        crate::index::added(x, vectors, rotation1, codebook1, encode1, x_after),
        crate::index::added(y, vectors, rotation2, codebook2, encode2, y_after),
    ensures
        x_after.bare() == y_after.bare(),
{
    if vectors.len() > 0 {
        lemma_add_value(x, vectors, rotation1, codebook1, encode1, x_after, numerics, layout);
        lemma_add_value(y, vectors, rotation2, codebook2, encode2, y_after, numerics, layout);
        let (a, b) = (anew(x, numerics), anew(y, numerics));
        assert(a.encode_task(vectors) == b.encode_task(vectors));
        let task = a.encode_task(vectors);
        assert(a.appended(task.n, (numerics.encode_of)(task)).bare() == b.appended(
            task.n,
            (numerics.encode_of)(task),
        ).bare());
    }
}

/// The index with everything made that adding and searching need, bar the
/// blocked form.
spec fn anew(index: IndexView, numerics: Numerics) -> IndexView {
    let book = (numerics.codebook_of)(index.bit_width, index.dim_or_zero());
    IndexView {
        rotation: Some((numerics.rotation_of)(index.dim_or_zero())),
        boundaries: Some(book.0),
        centroids: Some(book.1),
        ..index
    }
}

/// What adding a batch gives.
proof fn lemma_add_value<R, C, E>(
    before: IndexView,
    vectors: Seq<Float32>,
    make_rotation: R,
    make_codebook: C,
    encode: E,
    after: IndexView,
    numerics: Numerics,
    layout: BlockLayout,
) where
    R: FnOnce(usize) -> Vec<Float32>,
    C: FnOnce(usize, usize) -> CodebookParts,
    E: for <'a>FnOnce(EncodeTask<'a>) -> EncodedBatch,

    requires
        before.dim is Some,
        vectors.len() > 0,
        fresh(before, numerics, layout),
        numerics.rotates(make_rotation, before.dim_or_zero()),
        numerics.books(make_codebook, before.bit_width, before.dim_or_zero()),
        numerics.encodes(encode),
        crate::index::added(before, vectors, make_rotation, make_codebook, encode, after),
    ensures
        after == anew(before, numerics).appended(
            anew(before, numerics).encode_task(vectors).n,
            (numerics.encode_of)(anew(before, numerics).encode_task(vectors)),
        ),
{
    let ready = IndexView {
        rotation: after.rotation,
        boundaries: after.boundaries,
        centroids: after.centroids,
        ..before
    };
    assert(ready == anew(before, numerics));
}

/// An empty batch is as good as none: it changes nothing, and what is added
/// next gives what it would have given without it.
pub proof fn lemma_empty_batch_is_identity<R, C, E, R1, C1, E1, R2, C2, E2>(
    index: IndexView,
    vectors: Seq<Float32>,
    rotation: R,
    codebook: C,
    encode: E,
    rotation1: R1,
    codebook1: C1,
    encode1: E1,
    rotation2: R2,
    codebook2: C2,
    encode2: E2,
    between: IndexView,
    with: IndexView,
    without: IndexView,
    numerics: Numerics,
    layout: BlockLayout,
) where
    R: FnOnce(usize) -> Vec<Float32>,
    C: FnOnce(usize, usize) -> CodebookParts,
    E: for <'a>FnOnce(EncodeTask<'a>) -> EncodedBatch,
    R1: FnOnce(usize) -> Vec<Float32>,
    C1: FnOnce(usize, usize) -> CodebookParts,
    E1: for <'a>FnOnce(EncodeTask<'a>) -> EncodedBatch,
    R2: FnOnce(usize) -> Vec<Float32>,
    C2: FnOnce(usize, usize) -> CodebookParts,
    E2: for <'a>FnOnce(EncodeTask<'a>) -> EncodedBatch,

    requires
        index.dim is Some,
        fresh(index, numerics, layout),
        numerics.rotates(rotation1, index.dim_or_zero()),
        numerics.rotates(rotation2, index.dim_or_zero()),
        numerics.books(codebook1, index.bit_width, index.dim_or_zero()),
        numerics.books(codebook2, index.bit_width, index.dim_or_zero()),
        numerics.encodes(encode1),
        numerics.encodes(encode2),
        crate::index::added(index, seq![], rotation, codebook, encode, between),
        crate::index::added(between, vectors, rotation1, codebook1, encode1, with),
        crate::index::added(index, vectors, rotation2, codebook2, encode2, without),
    ensures
        between == index,
        with.bare() == without.bare(),
{
    lemma_add_is_determined(
        between,
        index,
        vectors,
        rotation1,
        codebook1,
        encode1,
        rotation2,
        codebook2,
        encode2,
        with,
        without,
        numerics,
        layout,
    );
}

/// What scoring is handed once everything that it needs is there.
spec fn full_task(
    index: IndexView,
    numerics: Numerics,
    layout: BlockLayout,
    queries: Seq<Float32>,
    k: usize,
    words: Option<Seq<u64>>,
) -> SearchTaskView {
    IndexView {
        blocked: Some(index.blocked_form(layout)),
        ..anew(index, numerics)
    }.search_task(queries, k, words)
}

/// What a search gives.
proof fn lemma_search_value<R, C, S>(
    before: IndexView,
    queries: Seq<Float32>,
    k: usize,
    mask: Option<Seq<bool>>,
    layout: BlockLayout,
    make_rotation: R,
    make_codebook: C,
    score: S,
    after: IndexView,
    result: SearchResults,
    numerics: Numerics,
) -> (words: Option<Seq<u64>>) where
    R: FnOnce(usize) -> Vec<Float32>,
    C: FnOnce(usize, usize) -> CodebookParts,
    S: for <'a>FnOnce(SearchTask<'a>) -> (Vec<Float32>, Vec<i64>),

    requires
        before.wf(),
        before.n_vectors > 0,
        fresh(before, numerics, layout),
        numerics.rotates(make_rotation, before.dim_or_zero()),
        numerics.books(make_codebook, before.bit_width, before.dim_or_zero()),
        numerics.scores(score),
        crate::index::searched(
            before,
            queries,
            k,
            mask,
            layout,
            make_rotation,
            make_codebook,
            score,
            after,
            result,
        ),
    ensures
        result.nq == before.query_count(queries),
        result.k == before.result_count(k, mask),
        crate::index::words_fit(words, mask),
        (result.scores@, result.indices@) == (numerics.score_of)(
            full_task(before, numerics, layout, queries, k, words),
        ),
{
    lemma_prepare_keeps_fresh(before, layout, make_rotation, make_codebook, after, numerics);
    assert(after.blocked_form(layout) == before.blocked_form(layout));
    let (task, found) = choose|task: SearchTask, found: (Vec<Float32>, Vec<i64>)|
        {
            &&& #[trigger] score.ensures((task,), found)
            &&& crate::index::words_fit(task@.mask, mask)
            &&& task@ == after.search_task(queries, k, task@.mask)
            &&& result.scores == found.0
            &&& result.indices == found.1
        };
    assert(task@ == full_task(before, numerics, layout, queries, k, task@.mask));
    task@.mask
}

/// Indexes that store the same are searched alike, whatever the two keep: no
/// result comes from anything older than the last change. In particular an
/// index and the one put together from its parts give the same results.
pub proof fn lemma_search_is_determined<R1, C1, S1, R2, C2, S2>(
    x: IndexView,
    y: IndexView,
    queries: Seq<Float32>,
    k: usize,
    mask: Option<Seq<bool>>,
    layout: BlockLayout,
    rotation1: R1,
    codebook1: C1,
    score1: S1,
    rotation2: R2,
    codebook2: C2,
    score2: S2,
    x_after: IndexView,
    y_after: IndexView,
    x_result: SearchResults,
    y_result: SearchResults,
    numerics: Numerics,
) where
    R1: FnOnce(usize) -> Vec<Float32>,
    C1: FnOnce(usize, usize) -> CodebookParts,
    S1: for <'a>FnOnce(SearchTask<'a>) -> (Vec<Float32>, Vec<i64>),
    R2: FnOnce(usize) -> Vec<Float32>,
    C2: FnOnce(usize, usize) -> CodebookParts,
    S2: for <'a>FnOnce(SearchTask<'a>) -> (Vec<Float32>, Vec<i64>),

    requires
        x.wf(),
        y.wf(),
        x.bare() == y.bare(),
        fresh(x, numerics, layout),
        fresh(y, numerics, layout),
        numerics.rotates(rotation1, x.dim_or_zero()),
        numerics.rotates(rotation2, x.dim_or_zero()),
        numerics.books(codebook1, x.bit_width, x.dim_or_zero()),
        numerics.books(codebook2, x.bit_width, x.dim_or_zero()),
        numerics.scores(score1),
        numerics.scores(score2),
        crate::index::searched(
            x,
            queries,
            k,
            mask,
            layout,
            rotation1,
            codebook1,
            score1,
            x_after,
            x_result,
        ),
        crate::index::searched(
            y,
            queries,
            k,
            mask,
            layout,
            rotation2,
            codebook2,
            score2,
            y_after,
            y_result,
        ),
    ensures
        x_result.nq == y_result.nq,
        x_result.k == y_result.k,
        x_result.scores@ == y_result.scores@,
        x_result.indices@ == y_result.indices@,
{
    if x.n_vectors > 0 {
        let w1 = lemma_search_value(
            x,
            queries,
            k,
            mask,
            layout,
            rotation1,
            codebook1,
            score1,
            x_after,
            x_result,
            numerics,
        );
        let w2 = lemma_search_value(
            y,
            queries,
            k,
            mask,
            layout,
            rotation2,
            codebook2,
            score2,
            y_after,
            y_result,
            numerics,
        );
        if mask is Some {
            crate::search::lemma_packs_mask_unique(w1->0, w2->0, mask->0);
        }
        assert(w1 == w2);
        assert(full_task(x, numerics, layout, queries, k, w1) == full_task(
            y,
            numerics,
            layout,
            queries,
            k,
            w2,
        ));
    } else {
        assert(x_result.scores@ =~= y_result.scores@);
        assert(x_result.indices@ =~= y_result.indices@);
    }
}

/// The index put together from an index's parts is accepted, stores the same
/// and keeps nothing, so that the laws above hold of the two.
pub proof fn lemma_rebuilt_index_stores_the_same(
    index: IndexView,
    numerics: Numerics,
    layout: BlockLayout,
)
    requires
        index.wf(),
        index.packed_codes.len() <= usize::MAX,
    ensures
        index.parts().error() is None,
        index.parts().index().wf(),
        index.parts().index().bare() == index.bare(),
        fresh(index.parts().index(), numerics, layout),
{
    crate::index::lemma_parts_round_trip(index);
}

/// A mask that allows every slot changes no result, where the scoring heeds of
/// a mask only which slots it allows.
pub proof fn lemma_full_mask_changes_no_result<R1, C1, S1, R2, C2, S2>(
    x: IndexView,
    y: IndexView,
    queries: Seq<Float32>,
    k: usize,
    mask: Seq<bool>,
    layout: BlockLayout,
    rotation1: R1,
    codebook1: C1,
    score1: S1,
    rotation2: R2,
    codebook2: C2,
    score2: S2,
    x_after: IndexView,
    y_after: IndexView,
    unmasked: SearchResults,
    masked: SearchResults,
    numerics: Numerics,
) where
    R1: FnOnce(usize) -> Vec<Float32>,
    C1: FnOnce(usize, usize) -> CodebookParts,
    S1: for <'a>FnOnce(SearchTask<'a>) -> (Vec<Float32>, Vec<i64>),
    R2: FnOnce(usize) -> Vec<Float32>,
    C2: FnOnce(usize, usize) -> CodebookParts,
    S2: for <'a>FnOnce(SearchTask<'a>) -> (Vec<Float32>, Vec<i64>),

    requires
        x.wf(),
        y.wf(),
        x.bare() == y.bare(),
        mask.len() == x.n_vectors,
        forall|i: int| 0 <= i < mask.len() ==> #[trigger] mask[i],
        fresh(x, numerics, layout),
        fresh(y, numerics, layout),
        numerics.rotates(rotation1, x.dim_or_zero()),
        numerics.rotates(rotation2, x.dim_or_zero()),
        numerics.books(codebook1, x.bit_width, x.dim_or_zero()),
        numerics.books(codebook2, x.bit_width, x.dim_or_zero()),
        numerics.scores(score1),
        numerics.scores(score2),
        numerics.masks_by_slots(),
        crate::index::searched(
            x,
            queries,
            k,
            None,
            layout,
            rotation1,
            codebook1,
            score1,
            x_after,
            unmasked,
        ),
        crate::index::searched(
            y,
            queries,
            k,
            Some(mask),
            layout,
            rotation2,
            codebook2,
            score2,
            y_after,
            masked,
        ),
    ensures
        unmasked.nq == masked.nq,
        unmasked.k == masked.k,
        unmasked.scores@ == masked.scores@,
        unmasked.indices@ == masked.indices@,
{
    if x.n_vectors > 0 {
        let w1 = lemma_search_value(
            x,
            queries,
            k,
            None,
            layout,
            rotation1,
            codebook1,
            score1,
            x_after,
            unmasked,
            numerics,
        );
        let w2 = lemma_search_value(
            y,
            queries,
            k,
            Some(mask),
            layout,
            rotation2,
            codebook2,
            score2,
            y_after,
            masked,
            numerics,
        );
        crate::search::lemma_full_mask_allows_all(mask);
        let a = full_task(x, numerics, layout, queries, k, w1);
        let b = full_task(y, numerics, layout, queries, k, w2);
        assert forall|slot: int| 0 <= slot < a.n_vectors implies (#[trigger] slot_allowed(
            a.mask,
            slot,
        ) <==> slot_allowed(b.mask, slot)) by {
            assert(crate::search::mask_bit(w2->0, slot) <==> slot < mask.len() && mask[slot]);
        }
        assert(same_slots(a, b));
    } else {
        assert(unmasked.scores@ =~= masked.scores@);
        assert(unmasked.indices@ =~= masked.indices@);
    }
}

// ---------------------------------------------------------------------------
// Bytes
// ---------------------------------------------------------------------------

/// The fingerprint of indexes that store the same is the same.
pub proof fn lemma_fingerprint_is_determined<T, R1, F1, R2, F2>(
    x: IndexView,
    y: IndexView,
    empty: T,
    rotation1: R1,
    compute1: F1,
    rotation2: R2,
    compute2: F2,
    x_kept: Option<Seq<Float32>>,
    y_kept: Option<Seq<Float32>>,
    x_print: T,
    y_print: T,
    numerics: Numerics,
    layout: BlockLayout,
    print_of: spec_fn(Seq<Float32>, usize) -> T,
) where
    R1: FnOnce(usize) -> Vec<Float32>,
    F1: for <'a>FnOnce(&'a [Float32], usize) -> T,
    R2: FnOnce(usize) -> Vec<Float32>,
    F2: for <'a>FnOnce(&'a [Float32], usize) -> T,

    requires
        x.bare() == y.bare(),
        fresh(x, numerics, layout),
        fresh(y, numerics, layout),
        numerics.rotates(rotation1, x.dim_or_zero()),
        numerics.rotates(rotation2, x.dim_or_zero()),
        prints(print_of, compute1),
        prints(print_of, compute2),
        crate::index::fingerprinted(x, empty, rotation1, compute1, x_kept, x_print),
        crate::index::fingerprinted(y, empty, rotation2, compute2, y_kept, y_print),
    ensures
        x_print == y_print,
        x.n_vectors > 0 ==> x_kept == y_kept && x_kept == Some(
            (numerics.rotation_of)(x.dim_or_zero()),
        ),
{
    if x.n_vectors > 0 {
        lemma_print_value(x, empty, rotation1, compute1, x_kept, x_print, numerics, layout, print_of);
        lemma_print_value(y, empty, rotation2, compute2, y_kept, y_print, numerics, layout, print_of);
    }
}

/// What the fingerprint of an index with vectors is.
proof fn lemma_print_value<T, R, F>(
    index: IndexView,
    empty: T,
    make_rotation: R,
    compute: F,
    kept: Option<Seq<Float32>>,
    print: T,
    numerics: Numerics,
    layout: BlockLayout,
    print_of: spec_fn(Seq<Float32>, usize) -> T,
) where
    R: FnOnce(usize) -> Vec<Float32>,
    F: for <'a>FnOnce(&'a [Float32], usize) -> T,

    requires
        index.n_vectors > 0,
        fresh(index, numerics, layout),
        numerics.rotates(make_rotation, index.dim_or_zero()),
        prints(print_of, compute),
        crate::index::fingerprinted(index, empty, make_rotation, compute, kept, print),
    ensures
        kept == Some((numerics.rotation_of)(index.dim_or_zero())),
        print == print_of((numerics.rotation_of)(index.dim_or_zero()), index.dim_or_zero()),
{
}

/// A function gives the fingerprint of a rotation.
pub open spec fn prints<T, F: for <'a>FnOnce(&'a [Float32], usize) -> T>(
    print_of: spec_fn(Seq<Float32>, usize) -> T,
    compute: F,
) -> bool {
    forall|rotation: &[Float32], dim: usize, print: T| #[trigger]
        compute.ensures((rotation, dim), print) ==> print == print_of(rotation@, dim)
}

/// A function lays out the bytes of what is stored.
pub open spec fn formats<T, B: for <'a>FnOnce(StoredIndex<'a>, T) -> Vec<u8>>(
    bytes_of: spec_fn(StoredView, T) -> Seq<u8>,
    format: B,
) -> bool {
    forall|stored: StoredIndex, print: T, bytes: Vec<u8>| #[trigger]
        format.ensures((stored, print), bytes) ==> bytes@ == bytes_of(stored@, print)
}

/// Indexes that store the same have the same bytes.
pub proof fn lemma_bytes_are_determined<T, R1, F1, B1, R2, F2, B2>(
    x: IndexView,
    y: IndexView,
    empty: T,
    rotation1: R1,
    compute1: F1,
    format1: B1,
    rotation2: R2,
    compute2: F2,
    format2: B2,
    x_after: IndexView,
    y_after: IndexView,
    x_bytes: Vec<u8>,
    y_bytes: Vec<u8>,
    numerics: Numerics,
    layout: BlockLayout,
    print_of: spec_fn(Seq<Float32>, usize) -> T,
    bytes_of: spec_fn(StoredView, T) -> Seq<u8>,
) where
    R1: FnOnce(usize) -> Vec<Float32>,
    F1: for <'a>FnOnce(&'a [Float32], usize) -> T,
    B1: for <'a>FnOnce(StoredIndex<'a>, T) -> Vec<u8>,
    R2: FnOnce(usize) -> Vec<Float32>,
    F2: for <'a>FnOnce(&'a [Float32], usize) -> T,
    B2: for <'a>FnOnce(StoredIndex<'a>, T) -> Vec<u8>,

    requires
        x.wf(),
        x.bare() == y.bare(),
        fresh(x, numerics, layout),
        fresh(y, numerics, layout),
        numerics.rotates(rotation1, x.dim_or_zero()),
        numerics.rotates(rotation2, x.dim_or_zero()),
        prints(print_of, compute1),
        prints(print_of, compute2),
        formats(bytes_of, format1),
        formats(bytes_of, format2),
        crate::index::sent(x, empty, rotation1, compute1, format1, x_after, x_bytes),
        crate::index::sent(y, empty, rotation2, compute2, format2, y_after, y_bytes),
    ensures
        x_bytes@ == y_bytes@,
        x_after.cache_dirty == x.cache_dirty,
        fresh(x_after, numerics, layout),
{
    let (s1, p1) = choose|stored: StoredIndex, print: T|
        {
            &&& #[trigger] format1.ensures((stored, print), x_bytes)
            &&& crate::index::fingerprinted(
                x,
                empty,
                rotation1,
                compute1,
                x_after.rotation,
                print,
            )
            &&& stored@ == x.stored()
        };
    let (s2, p2) = choose|stored: StoredIndex, print: T|
        {
            &&& #[trigger] format2.ensures((stored, print), y_bytes)
            &&& crate::index::fingerprinted(
                y,
                empty,
                rotation2,
                compute2,
                y_after.rotation,
                print,
            )
            &&& stored@ == y.stored()
        };
    lemma_fingerprint_is_determined(
        x,
        y,
        empty,
        rotation1,
        compute1,
        rotation2,
        compute2,
        x_after.rotation,
        y_after.rotation,
        p1,
        p2,
        numerics,
        layout,
        print_of,
    );
    assert(x.stored() == x.bare().stored() && y.stored() == y.bare().stored());
    assert(x_after.blocked_form(layout) == x.blocked_form(layout));
}

/// Writing hands out the contents and the fingerprint that the bytes are made
/// of: what is written to a file is what the bytes are.
pub proof fn lemma_write_hands_out_the_bytes<T, X, R1, F1, W1, R2, F2, B2>(
    index: IndexView,
    empty: T,
    rotation1: R1,
    compute1: F1,
    send: W1,
    rotation2: R2,
    compute2: F2,
    format: B2,
    written_after: IndexView,
    bytes_after: IndexView,
    result: Result<(), X>,
    bytes: Vec<u8>,
    numerics: Numerics,
    layout: BlockLayout,
    print_of: spec_fn(Seq<Float32>, usize) -> T,
    bytes_of: spec_fn(StoredView, T) -> Seq<u8>,
) where
    R1: FnOnce(usize) -> Vec<Float32>,
    F1: for <'a>FnOnce(&'a [Float32], usize) -> T,
    W1: for <'a>FnOnce(StoredIndex<'a>, T, RuntimeCacheMode) -> Result<(), X>,
    R2: FnOnce(usize) -> Vec<Float32>,
    F2: for <'a>FnOnce(&'a [Float32], usize) -> T,
    B2: for <'a>FnOnce(StoredIndex<'a>, T) -> Vec<u8>,

    requires
        fresh(index, numerics, layout),
        numerics.rotates(rotation1, index.dim_or_zero()),
        numerics.rotates(rotation2, index.dim_or_zero()),
        prints(print_of, compute1),
        prints(print_of, compute2),
        formats(bytes_of, format),
        crate::index::written(index, empty, rotation1, compute1, send, written_after, result),
        crate::index::sent(index, empty, rotation2, compute2, format, bytes_after, bytes),
    ensures
        exists|stored: StoredIndex, print: T, mode: RuntimeCacheMode|
            {
                &&& #[trigger] send.ensures((stored, print, mode), result)
                &&& bytes_of(stored@, print) == bytes@
            },
{
    let (s1, p1, mode) = choose|stored: StoredIndex, print: T, mode: RuntimeCacheMode|
        {
            &&& #[trigger] send.ensures((stored, print, mode), result)
            &&& crate::index::fingerprinted(
                index,
                empty,
                rotation1,
                compute1,
                written_after.rotation,
                print,
            )
            &&& stored@ == index.stored()
            &&& mode.wf() && mode@ == index.cache_dirty
        };
    let (s2, p2) = choose|stored: StoredIndex, print: T|
        {
            &&& #[trigger] format.ensures((stored, print), bytes)
            &&& crate::index::fingerprinted(
                index,
                empty,
                rotation2,
                compute2,
                bytes_after.rotation,
                print,
            )
            &&& stored@ == index.stored()
        };
    lemma_fingerprint_is_determined(
        index,
        index,
        empty,
        rotation1,
        compute1,
        rotation2,
        compute2,
        written_after.rotation,
        bytes_after.rotation,
        p1,
        p2,
        numerics,
        layout,
        print_of,
    );
}

/// What was read is what was stored of an index: the index comes back, bar
/// what can be derived, whatever was kept beside it.
pub proof fn lemma_stored_contents_load_back<X>(
    index: IndexView,
    loaded: LoadedIndex,
    rotation: Option<Vec<Float32>>,
    cache: Option<RuntimeCache>,
    result: Result<TurboQuantIndex, LoadError<X>>,
)
    requires
        index.wf(),
        index.packed_codes.len() <= usize::MAX,
        loaded@ == index.stored(),
        crate::index::assembled(Ok((loaded, rotation, cache)), result),
    ensures
        result is Ok,
        result->Ok_0@.bare() == index.bare(),
{
    crate::index::lemma_stored_index_loads_back(index);
    assert(index.bare().bare() == index.bare());
}

/// The bytes of an index give the index back, where `parse` takes apart what
/// `format` lays out.
pub proof fn lemma_bytes_load_back<T, X, R, F, B, P>(
    index: IndexView,
    empty: T,
    make_rotation: R,
    compute: F,
    format: B,
    parse: P,
    after: IndexView,
    bytes: Vec<u8>,
    read: &[u8],
    result: Result<TurboQuantIndex, LoadError<X>>,
) where
    R: FnOnce(usize) -> Vec<Float32>,
    F: for <'a>FnOnce(&'a [Float32], usize) -> T,
    B: for <'a>FnOnce(StoredIndex<'a>, T) -> Vec<u8>,
    P: for <'a>FnOnce(&'a [u8]) -> Result<(LoadedIndex, Option<Vec<Float32>>), X>,

    requires
        index.wf(),
        index.packed_codes.len() <= usize::MAX,
        read@ == bytes@,
        crate::index::sent(index, empty, make_rotation, compute, format, after, bytes),
        crate::index::parsed(read, parse, result),
        forall|
            stored: StoredIndex,
            print: T,
            laid_out: Vec<u8>,
            taken: &[u8],
            got: Result<(LoadedIndex, Option<Vec<Float32>>), X>,
        |
            #![trigger format.ensures((stored, print), laid_out), parse.ensures((taken,), got)]
            format.ensures((stored, print), laid_out) && parse.ensures((taken,), got) && taken@
                == laid_out@ ==> got is Ok && (got->Ok_0).0@ == stored@,
    ensures
        result is Ok,
        result->Ok_0@.bare() == index.bare(),
{
    let got = choose|got: Result<(LoadedIndex, Option<Vec<Float32>>), X>| #[trigger]
        parse.ensures((read,), got) && crate::index::assembled(
            crate::index::without_cache(got),
            result,
        );
    let (stored, print) = choose|stored: StoredIndex, print: T|
        {
            &&& #[trigger] format.ensures((stored, print), bytes)
            &&& crate::index::fingerprinted(
                index,
                empty,
                make_rotation,
                compute,
                after.rotation,
                print,
            )
            &&& stored@ == index.stored()
        };
    assert(got is Ok && (got->Ok_0).0@ == stored@);
    lemma_stored_contents_load_back(index, (got->Ok_0).0, (got->Ok_0).1, None, result);
}

/// A loaded index is fresh where what came with it is what would be made: the
/// rotation, and what was kept beside it.
pub proof fn lemma_loaded_is_fresh<X>(
    loaded: LoadedIndex,
    rotation: Option<Vec<Float32>>,
    cache: Option<RuntimeCache>,
    result: Result<TurboQuantIndex, LoadError<X>>,
    numerics: Numerics,
    layout: BlockLayout,
)
    requires
        crate::index::assembled(Ok((loaded, rotation, cache)), result),
        rotation is Some || cache is Some ==> loaded.dim != 0,
        rotation is Some ==> rotation->0@ == (numerics.rotation_of)(loaded.dim),
        cache matches Some(cache) ==> {
            &&& cache.rotation@ == (numerics.rotation_of)(loaded.dim)
            &&& (cache.boundaries@, cache.centroids@) == (numerics.codebook_of)(
                loaded.bit_width,
                loaded.dim,
            )
            &&& cache.layout == layout
        },
        loaded@.parts().index_with_cache(cache).cache_fits(),
    ensures
        result is Ok ==> fresh(result->Ok_0@, numerics, layout) && result->Ok_0@.cache_fits(),
{
    if result is Ok {
        assert(result->Ok_0@.blocked_form(layout) == loaded@.parts().index_with_cache(
            cache,
        ).blocked_form(layout));
    }
}

/// The same contents, read from a file with what is kept beside it or from a
/// source without, are refused with the same error or give indexes that store
/// the same.
pub proof fn lemma_sources_load_alike<X>(
    first: LoadedIndex,
    second: LoadedIndex,
    rotation1: Option<Vec<Float32>>,
    rotation2: Option<Vec<Float32>>,
    cache: Option<RuntimeCache>,
    from_file: Result<TurboQuantIndex, LoadError<X>>,
    from_source: Result<TurboQuantIndex, LoadError<X>>,
)
    requires
        first@ == second@,
        crate::index::assembled(Ok((first, rotation1, cache)), from_file),
        crate::index::assembled(Ok((second, rotation2, None)), from_source),
    ensures
        from_file is Ok <==> from_source is Ok,
        from_file is Ok ==> from_file->Ok_0@.bare() == from_source->Ok_0@.bare(),
        from_file is Err ==> from_file->Err_0 == from_source->Err_0,
{
}

} // verus!
