use std::cell::RefCell;
use turbovec::codebook::CodebookParts;
use turbovec::index::{LoadError, LoadedIndex, StoredIndex};
use turbovec::kernels::{EncodeTask, EncodedBatch, SearchTask};
use turbovec::pack::{deinterleave_x86_code_byte, repack, BlockLayout, BLOCK};
use turbovec::runtime_cache::{RuntimeCache, RuntimeCacheMode};
use turbovec::search::{check_results, count_allowed, pack_mask};
use turbovec::{
    first_invalid_coord, AddError, ConstructError, Float32, FromPartsError, SearchResults,
    TurboQuantIndex, MAX_DIM,
};

fn float(x: f32) -> Float32 {
    Float32 { bits: x.to_bits() }
}

fn floats(values: &[f32]) -> Vec<Float32> {
    values.iter().map(|&x| float(x)).collect()
}

fn value(x: Float32) -> f32 {
    f32::from_bits(x.bits)
}

// A small set of kernels: no rotation to speak of, a uniform quantizer on
// [-1, 1], and exact scoring of the decoded vectors.

fn make_rotation(dim: usize) -> Vec<Float32> {
    vec![float(dim as f32)]
}

fn make_codebook(bits: usize, _dim: usize) -> CodebookParts {
    let n = 1usize << bits;
    let step = 2.0 / n as f32;
    (
        (1..n).map(|i| float(-1.0 + step * i as f32)).collect(),
        (0..n).map(|i| float(-1.0 + step * (i as f32 + 0.5))).collect(),
    )
}

fn encode(task: EncodeTask<'_>) -> EncodedBatch {
    assert_eq!(task.vectors.len(), task.n * task.dim);
    assert_eq!(value(task.rotation[0]), task.dim as f32);
    assert_eq!(task.centroids.len(), 1 << task.bit_width);
    let plane = task.dim / 8;
    let mut packed = vec![0u8; task.n * task.bit_width * plane];
    for v in 0..task.n {
        for j in 0..task.dim {
            let x = value(task.vectors[v * task.dim + j]);
            let code = task.boundaries.iter().filter(|b| value(**b) <= x).count();
            for p in 0..task.bit_width {
                if code >> p & 1 == 1 {
                    packed[(v * task.bit_width + p) * plane + j / 8] |= 1 << (7 - j % 8);
                }
            }
        }
    }
    let (shift, scale) = match task.existing {
        Some((shift, scale)) => (shift.to_vec(), scale.to_vec()),
        None => (vec![float(0.25); task.dim], vec![float(2.0); task.dim]),
    };
    EncodedBatch {
        packed,
        scales: (0..task.n).map(|v| float(v as f32 + 1.0)).collect(),
        shift,
        scale,
    }
}

/// The code of a coordinate, out of the blocked form.
fn blocked_code(task: &SearchTask<'_>, v: usize, j: usize) -> usize {
    let per_byte = 8 / task.bit_width;
    let width = if task.bit_width == 3 { 4 } else { task.bit_width };
    let offset = (v / BLOCK * (task.dim / per_byte) + j / per_byte) * BLOCK;
    let byte = match task.layout {
        BlockLayout::Interleaved => deinterleave_x86_code_byte(task.blocked, offset, v % BLOCK),
        BlockLayout::Sequential => task.blocked[offset + v % BLOCK],
    };
    (byte >> (width * (per_byte - 1 - j % per_byte))) as usize & ((1 << width) - 1)
}

fn score(task: SearchTask<'_>) -> (Vec<Float32>, Vec<i64>) {
    assert_eq!(task.n_blocks, (task.n_vectors + BLOCK - 1) / BLOCK);
    assert_eq!(task.scales.len(), task.n_vectors);
    let (mut scores, mut indices) = (Vec::new(), Vec::new());
    for q in 0..task.nq {
        let query = &task.queries[q * task.dim..(q + 1) * task.dim];
        let mut ranked: Vec<(f32, i64)> = (0..task.n_vectors)
            .filter(|&v| match task.mask {
                Some(words) => words[v / 64] >> (v % 64) & 1 == 1,
                None => true,
            })
            .map(|v| {
                let mut sum = 0.0f32;
                for j in 0..task.dim {
                    let code = blocked_code(&task, v, j);
                    sum += value(query[j]) * value(task.centroids[code]);
                }
                (sum, v as i64)
            })
            .collect();
        ranked.sort_by(|a, b| b.0.total_cmp(&a.0).then(a.1.cmp(&b.1)));
        ranked.truncate(task.k);
        scores.extend(ranked.iter().map(|r| float(r.0)));
        indices.extend(ranked.iter().map(|r| r.1));
    }
    (scores, indices)
}

fn no_rotation(_: usize) -> Vec<Float32> {
    unreachable!()
}

fn no_codebook(_: usize, _: usize) -> CodebookParts {
    unreachable!()
}

fn add(index: &mut TurboQuantIndex, vectors: &[Float32]) {
    index.add(vectors, make_rotation, make_codebook, encode);
}

fn find(
    index: &mut TurboQuantIndex,
    queries: &[Float32],
    k: usize,
    mask: Option<&[bool]>,
    layout: BlockLayout,
) -> SearchResults {
    index.search_with_mask(queries, k, mask, layout, make_rotation, make_codebook, score)
}

/// Pseudo-random vectors with coordinates in [-1, 1).
fn vectors(n: usize, dim: usize, seed: u64) -> Vec<Float32> {
    let mut s = seed.wrapping_add(0x9E3779B97F4A7C15);
    (0..n * dim)
        .map(|_| {
            s = s
                .wrapping_mul(6364136223846793005)
                .wrapping_add(1442695040888963407);
            float(((s >> 33) as f64 / (1u64 << 30) as f64 - 1.0) as f32)
        })
        .collect()
}

fn index_of(n: usize, dim: usize, bits: usize) -> TurboQuantIndex {
    let mut index = TurboQuantIndex::new(dim, bits).unwrap();
    add(&mut index, &vectors(n, dim, 7));
    index
}

/// The codes of each vector.
fn rows(index: &TurboQuantIndex) -> Vec<Vec<u8>> {
    let width = index.dim() * index.bit_width() / 8;
    index.packed_codes().chunks(width).map(|row| row.to_vec()).collect()
}

#[test]
fn from_parts_rejects_packed_codes_length_mismatch() {
    let err = TurboQuantIndex::from_parts(
        Some(64),
        4,
        2,
        vec![0u8; 32],
        vec![float(1.0f32); 2],
        Vec::new(),
        Vec::new(),
    )
    .unwrap_err();
    assert!(matches!(
        err,
        FromPartsError::PackedCodesLengthMismatch {
            expected: 64,
            got: 32
        }
    ));
}

#[test]
fn from_parts_rejects_lazy_with_nonzero_n_vectors() {
    let err =
        TurboQuantIndex::from_parts(None, 4, 5, Vec::new(), Vec::new(), Vec::new(), Vec::new())
            .unwrap_err();
    assert!(matches!(err, FromPartsError::LazyMustHaveZeroVectors(5)));
}

#[test]
fn from_parts_accepts_lazy_uncommitted() {
    let idx =
        TurboQuantIndex::from_parts(None, 4, 0, Vec::new(), Vec::new(), Vec::new(), Vec::new())
            .unwrap();
    assert_eq!(idx.dim_opt(), None);
    assert_eq!(idx.len(), 0);
}

#[test]
fn from_parts_accepts_eager_with_consistent_lengths() {
    let idx = TurboQuantIndex::from_parts(
        Some(64),
        4,
        2,
        vec![0u8; 64],
        vec![float(1.0f32); 2],
        Vec::new(),
        Vec::new(),
    )
    .unwrap();
    assert_eq!(idx.dim(), 64);
    assert_eq!(idx.len(), 2);
    assert_eq!(idx.tqplus_shift(), &floats(&vec![0.0f32; 64])[..]);
    assert_eq!(idx.tqplus_scale(), &floats(&vec![1.0f32; 64])[..]);
}

#[test]
fn every_wrong_part_is_named() {
    let one = float(1.0);
    let from = |dim: Option<usize>,
                bits: usize,
                n: usize,
                codes: usize,
                scales: Vec<Float32>,
                shift: Vec<Float32>,
                scale: Vec<Float32>| {
        TurboQuantIndex::from_parts(dim, bits, n, vec![0u8; codes], scales, shift, scale)
            .unwrap_err()
    };
    let none: Vec<Float32> = Vec::new();
    assert_eq!(
        from(Some(8), 5, 0, 0, none.clone(), none.clone(), none.clone()),
        FromPartsError::BitWidthOutOfRange(5)
    );
    assert_eq!(
        from(Some(7), 2, 0, 0, none.clone(), vec![one; 2], vec![one; 3]),
        FromPartsError::TqplusLengthMismatch { shift_len: 2, scale_len: 3 }
    );
    assert_eq!(
        from(Some(12), 2, 0, 0, none.clone(), none.clone(), none.clone()),
        FromPartsError::DimNotPositiveMultipleOf8(12)
    );
    assert_eq!(
        from(Some(0), 2, 0, 0, none.clone(), none.clone(), none.clone()),
        FromPartsError::DimNotPositiveMultipleOf8(0)
    );
    assert_eq!(
        from(Some(MAX_DIM + 8), 2, 0, 0, none.clone(), none.clone(), none.clone()),
        FromPartsError::DimTooLarge { dim: 16392, max: 16384 }
    );
    assert_eq!(
        from(Some(64), 4, usize::MAX, 0, none.clone(), none.clone(), none.clone()),
        FromPartsError::PackedCodesSizeOverflow { n_vectors: usize::MAX, dim: 64, bit_width: 4 }
    );
    assert_eq!(
        from(Some(8), 2, 3, 6, vec![one; 2], none.clone(), none.clone()),
        FromPartsError::ScalesLengthMismatch { expected: 3, got: 2 }
    );
    assert_eq!(
        from(Some(8), 2, 3, 6, vec![one; 3], vec![one; 7], vec![one; 7]),
        FromPartsError::TqplusLengthNotDim { got: 7, dim: 8 }
    );
    assert_eq!(
        from(None, 2, 0, 1, none.clone(), none.clone(), none.clone()),
        FromPartsError::LazyMustHaveEmptyPackedCodes(1)
    );
    assert_eq!(
        from(None, 2, 0, 0, vec![one; 2], none.clone(), none.clone()),
        FromPartsError::LazyMustHaveEmptyScales(2)
    );
    assert_eq!(
        from(None, 2, 0, 0, none.clone(), vec![one; 3], vec![one; 3]),
        FromPartsError::LazyMustHaveEmptyTqplus(3)
    );
    assert_eq!(
        from(Some(8), 2, 2, 4, vec![one, float(-1.0)], none.clone(), none.clone()),
        FromPartsError::InvalidScaleValue { slot: 1, value: float(-1.0) }
    );
    let mut shift = vec![one; 8];
    shift[3] = float(f32::NEG_INFINITY);
    assert_eq!(
        from(Some(8), 2, 0, 0, none.clone(), shift, vec![one; 8]),
        FromPartsError::InvalidTqplusShiftValue { coord: 3, value: float(f32::NEG_INFINITY) }
    );
    let mut scale = vec![one; 8];
    scale[7] = float(-0.0);
    assert_eq!(
        from(Some(8), 2, 0, 0, none.clone(), vec![one; 8], scale),
        FromPartsError::InvalidTqplusScaleValue { coord: 7, value: float(-0.0) }
    );
}

#[test]
fn boundary_values_of_parts_are_accepted() {
    let scales = floats(&[0.0, -0.0, f32::MAX, f32::MIN_POSITIVE]);
    let index = TurboQuantIndex::from_parts(
        Some(8),
        2,
        4,
        vec![0u8; 8],
        scales.clone(),
        floats(&[-1.0, f32::MIN, 0.0, -0.0, 1.0, 2.0, 3.0, 4.0]),
        vec![Float32 { bits: 1 }; 8],
    )
    .unwrap();
    assert_eq!(index.scales(), &scales[..]);
    assert_eq!(index.tqplus_scale()[0].bits, 1);
}

#[test]
fn construction_checks_its_arguments() {
    let index = TurboQuantIndex::new(1536, 4).unwrap();
    assert_eq!((index.dim(), index.dim_opt(), index.bit_width()), (1536, Some(1536), 4));
    assert!(index.is_empty());
    let lazy = TurboQuantIndex::new_lazy(2).unwrap();
    assert_eq!((lazy.dim(), lazy.dim_opt(), lazy.len()), (0, None, 0));
    for bits in [0usize, 1, 5, 64] {
        assert_eq!(
            TurboQuantIndex::new(8, bits).unwrap_err(),
            ConstructError::BitWidthOutOfRange(bits)
        );
        assert_eq!(
            TurboQuantIndex::new_lazy(bits).unwrap_err(),
            ConstructError::BitWidthOutOfRange(bits)
        );
    }
    for dim in [0usize, 1, 12] {
        assert_eq!(
            TurboQuantIndex::new(dim, 2).unwrap_err(),
            ConstructError::DimNotPositiveMultipleOf8(dim)
        );
    }
    assert!(TurboQuantIndex::new(MAX_DIM, 2).is_ok());
    assert_eq!(
        TurboQuantIndex::new(MAX_DIM + 8, 2).unwrap_err(),
        ConstructError::DimTooLarge { dim: 16392, max: 16384 }
    );
}

#[test]
fn the_first_bad_coordinate_is_found() {
    let good = floats(&[0.0, -1.0, 9.9e15, -9.9e15, f32::MIN_POSITIVE, -0.0]);
    assert_eq!(first_invalid_coord(&good, 3), None);
    for bad in [f32::NAN, f32::INFINITY, f32::NEG_INFINITY, 1e16, -1e16, f32::MAX] {
        let mut values = good.clone();
        values[4] = float(bad);
        values[5] = float(f32::NAN);
        assert_eq!(first_invalid_coord(&values, 3), Some((1, 1, float(bad))));
        assert_eq!(first_invalid_coord(&values, 0), Some((0, 4, float(bad))));
    }
    // The largest value below the bound is taken.
    let bound = 1e16f32.to_bits();
    assert_eq!(first_invalid_coord(&[Float32 { bits: bound - 1 }], 1), None);
    assert_eq!(
        first_invalid_coord(&[Float32 { bits: bound }], 1),
        Some((0, 0, Float32 { bits: bound }))
    );
    assert_eq!(first_invalid_coord(&[], 8), None);
}

#[test]
fn adding_appends_rows_and_scales() {
    for bits in [2usize, 3, 4] {
        let first = vectors(5, 16, 1);
        let second = vectors(3, 16, 2);
        let mut index = TurboQuantIndex::new(16, bits).unwrap();
        add(&mut index, &first);
        let before = rows(&index);
        add(&mut index, &second);
        assert_eq!(index.len(), 8);
        assert_eq!(rows(&index)[..5], before[..]);
        assert_eq!(index.scales(), &floats(&[1.0, 2.0, 3.0, 4.0, 5.0, 1.0, 2.0, 3.0])[..]);

        // All at once gives the same codes.
        let mut at_once = TurboQuantIndex::new(16, bits).unwrap();
        let mut all = first.clone();
        all.extend_from_slice(&second);
        add(&mut at_once, &all);
        assert_eq!(at_once.packed_codes(), index.packed_codes());
    }
}

#[test]
fn the_calibration_of_the_first_batch_stays() {
    let mut index = index_of(2, 8, 2);
    assert_eq!(index.tqplus_shift(), &[float(0.25); 8][..]);
    index.add(
        &vectors(1, 8, 3),
        no_rotation,
        no_codebook,
        |task: EncodeTask<'_>| {
            let (shift, scale) = task.existing.unwrap();
            assert_eq!(shift, &[float(0.25); 8][..]);
            assert_eq!(scale, &[float(2.0); 8][..]);
            EncodedBatch {
                packed: vec![0xAB; 2],
                scales: vec![float(9.0)],
                shift: vec![float(7.0); 8],
                scale: vec![float(7.0); 8],
            }
        },
    );
    assert_eq!(index.tqplus_shift(), &[float(0.25); 8][..]);
    assert_eq!(index.tqplus_scale(), &[float(2.0); 8][..]);
    assert_eq!(rows(&index)[2], vec![0xAB; 2]);
    index.swap_remove(0);
    assert_eq!(index.tqplus_shift(), &[float(0.25); 8][..]);
}

#[test]
fn an_empty_batch_changes_nothing() {
    let mut index = TurboQuantIndex::new(8, 2).unwrap();
    index.add(&[], no_rotation, no_codebook, |_: EncodeTask<'_>| unreachable!());
    assert!(index.is_empty());
    assert!(index.tqplus_shift().is_empty());
    add(&mut index, &vectors(1, 8, 4));
    assert_eq!(index.tqplus_shift(), &[float(0.25); 8][..]);
}

#[test]
fn refused_vectors_leave_the_index_as_it_was() {
    let refused = |index: &mut TurboQuantIndex, vectors: &[Float32], dim: usize| {
        index
            .add_2d(vectors, dim, no_rotation, no_codebook, |_: EncodeTask<'_>| unreachable!())
            .unwrap_err()
    };
    let mut lazy = TurboQuantIndex::new_lazy(4).unwrap();
    assert_eq!(refused(&mut lazy, &[], 0), AddError::DimNotMultipleOf8(0));
    assert_eq!(refused(&mut lazy, &[], 12), AddError::DimNotMultipleOf8(12));
    assert_eq!(
        refused(&mut lazy, &[], MAX_DIM + 8),
        AddError::DimTooLarge { dim: 16392, max: 16384 }
    );
    let mut bad = vectors(2, 8, 5);
    bad[11] = float(f32::NAN);
    assert_eq!(
        refused(&mut lazy, &bad, 8),
        AddError::InvalidInputValue { vector_index: 1, coord_index: 3, value: bad[11] }
    );
    assert_eq!(lazy.dim_opt(), None);

    // The dimension is fixed by the first vectors that are taken.
    lazy.add_2d(&vectors(2, 16, 6), 16, make_rotation, make_codebook, encode).unwrap();
    assert_eq!((lazy.dim(), lazy.len()), (16, 2));
    assert_eq!(
        refused(&mut lazy, &vectors(1, 8, 6), 8),
        AddError::DimMismatch { existing: 16, got: 8 }
    );
    assert_eq!(lazy.len(), 2);
}

#[test]
fn an_empty_batch_commits_to_its_dimension() {
    let mut lazy = TurboQuantIndex::new_lazy(3).unwrap();
    lazy.add_2d(&[], 24, no_rotation, no_codebook, |_: EncodeTask<'_>| unreachable!())
        .unwrap();
    assert_eq!((lazy.dim_opt(), lazy.len()), (Some(24), 0));
}

#[test]
fn removing_swaps_the_last_vector_in() {
    for bits in [2usize, 3, 4] {
        let mut index = index_of(5, 24, bits);
        let (mut expected, mut scales) = (rows(&index), index.scales().to_vec());
        for idx in [1usize, 3, 0, 1, 0] {
            let last = index.len() - 1;
            assert_eq!(index.swap_remove(idx), last);
            expected.swap_remove(idx);
            scales.swap_remove(idx);
            assert_eq!(rows(&index), expected);
            assert_eq!(index.scales(), &scales[..]);
        }
        assert!(index.is_empty());
    }
}

#[test]
fn removing_the_vector_added_last_undoes_adding() {
    let mut index = index_of(4, 16, 3);
    let (codes, scales) = (index.packed_codes().to_vec(), index.scales().to_vec());
    add(&mut index, &vectors(1, 16, 8));
    index.swap_remove(4);
    assert_eq!(index.packed_codes(), &codes[..]);
    assert_eq!(index.scales(), &scales[..]);
}

#[test]
fn removing_marks_the_blocks_that_change() {
    let mut index = index_of(100, 8, 2);
    assert!(matches!(index.runtime_cache_mode(), RuntimeCacheMode::AppendOnly));
    index.swap_remove(40);
    index.swap_remove(3);
    index.swap_remove(97);
    match index.runtime_cache_mode() {
        RuntimeCacheMode::DirtyBlocks(blocks) => assert_eq!(blocks, vec![0, 1, 3]),
        RuntimeCacheMode::AppendOnly => unreachable!(),
    }
    add(&mut index, &vectors(1, 8, 9));
    match index.runtime_cache_mode() {
        RuntimeCacheMode::DirtyBlocks(blocks) => assert_eq!(blocks, vec![0, 1, 3]),
        RuntimeCacheMode::AppendOnly => unreachable!(),
    }
    index.mark_runtime_cache_written();
    assert!(matches!(index.runtime_cache_mode(), RuntimeCacheMode::AppendOnly));
}

#[test]
fn unmarked_full_blocks_keep_their_bytes() {
    let (dim, bits) = (16usize, 3usize);
    let mut index = index_of(130, dim, bits);
    let block_bytes = dim / (8 / bits) * BLOCK;
    for layout in [BlockLayout::Interleaved, BlockLayout::Sequential] {
        index.mark_runtime_cache_written();
        let (written, _) = repack(layout, index.packed_codes(), index.len(), bits, dim);
        let full = index.len() / BLOCK;
        index.swap_remove(70);
        add(&mut index, &vectors(5, dim, 10));
        index.swap_remove(2);
        let (current, _) = repack(layout, index.packed_codes(), index.len(), bits, dim);
        let marked = match index.runtime_cache_mode() {
            RuntimeCacheMode::DirtyBlocks(blocks) => blocks,
            RuntimeCacheMode::AppendOnly => unreachable!(),
        };
        for block in (0..full).filter(|block| !marked.contains(block)) {
            let range = block * block_bytes..(block + 1) * block_bytes;
            assert_eq!(written[range.clone()], current[range]);
        }
        assert!(marked.contains(&2) && marked.contains(&0) && !marked.contains(&1));
    }
}

#[test]
fn both_layouts_find_the_same_neighbours() {
    let (dim, n, nq, k) = (64usize, 100usize, 5usize, 16usize);
    for bits in [2usize, 3, 4] {
        let queries = vectors(nq, dim, 22);
        let mut interleaved = index_of(n, dim, bits);
        let mut sequential = index_of(n, dim, bits);
        let a = find(&mut interleaved, &queries, k, None, BlockLayout::Interleaved);
        let b = find(&mut sequential, &queries, k, None, BlockLayout::Sequential);
        assert_eq!((a.nq, a.k), (nq, k));
        assert_eq!((b.nq, b.k), (nq, k));
        assert_eq!(a.indices, b.indices);
        assert_eq!(a.scores, b.scores);
        for qi in 0..nq {
            assert_eq!(a.scores_for_query(qi), &a.scores[qi * k..(qi + 1) * k]);
            assert_eq!(a.indices_for_query(qi), &a.indices[qi * k..(qi + 1) * k]);
        }
    }
}

#[test]
fn a_stored_vector_is_its_own_best_match() {
    // Codes all at the ends of the range: what is decoded is what was added.
    let dim = 16usize;
    let mut index = TurboQuantIndex::new(dim, 2).unwrap();
    let mut all = Vec::new();
    for v in 0..40usize {
        for j in 0..dim {
            all.push(float(if (v * 2654435761 >> j) & 1 == 1 { 1.0 } else { -1.0 }));
        }
    }
    add(&mut index, &all);
    for v in [0usize, 17, 33, 39] {
        let query = &all[v * dim..(v + 1) * dim];
        let found = find(&mut index, query, 3, None, BlockLayout::Interleaved);
        let best = found.indices_for_query(0)[0] as usize;
        assert_eq!(rows(&index)[best], rows(&index)[v]);
        assert_eq!(found.scores_for_query(0)[0], float(12.0));
    }
}

#[test]
fn a_mask_restricts_what_is_found() {
    let (dim, n) = (8usize, 70usize);
    let mut index = index_of(n, dim, 4);
    let query = vectors(1, dim, 30);
    let mask: Vec<bool> = (0..n).map(|v| v % 9 == 4).collect();
    assert_eq!(count_allowed(&mask), 8);
    let found = find(&mut index, &query, 20, Some(&mask), BlockLayout::Sequential);
    assert_eq!(found.k, 8);
    assert_eq!(found.indices.len(), 8);
    assert!(found.indices.iter().all(|&v| v % 9 == 4));

    // A mask that allows everything restricts nothing.
    let full = vec![true; n];
    let with = find(&mut index, &query, 20, Some(&full), BlockLayout::Sequential);
    let without = index.search(
        &query,
        20,
        BlockLayout::Sequential,
        no_rotation,
        no_codebook,
        score,
    );
    assert_eq!((with.k, with.indices, with.scores), (without.k, without.indices, without.scores));

    // More results than vectors cannot be had.
    assert_eq!(find(&mut index, &query, 500, None, BlockLayout::Sequential).k, n);
    assert_eq!(find(&mut index, &query, 0, None, BlockLayout::Sequential).k, 0);
    let nothing = vec![false; n];
    assert_eq!(find(&mut index, &query, 5, Some(&nothing), BlockLayout::Sequential).k, 0);
}

#[test]
fn masks_are_packed_lowest_bit_first() {
    assert!(pack_mask(&[]).is_empty());
    assert_eq!(pack_mask(&[true, false, true]), vec![5]);
    let mut mask = vec![false; 130];
    mask[0] = true;
    mask[63] = true;
    mask[64] = true;
    mask[129] = true;
    assert_eq!(pack_mask(&mask), vec![1 | 1 << 63, 1, 2]);
    assert_eq!(pack_mask(&vec![true; 64]), vec![u64::MAX]);
    assert_eq!(count_allowed(&mask), 4);
}

#[test]
fn searching_nothing_finds_nothing() {
    let mut lazy = TurboQuantIndex::new_lazy(2).unwrap();
    let found = lazy.search(
        &floats(&[1.0, 2.0, 3.0]),
        5,
        BlockLayout::Interleaved,
        no_rotation,
        no_codebook,
        |_: SearchTask<'_>| unreachable!(),
    );
    assert_eq!((found.nq, found.k, found.scores.len(), found.indices.len()), (0, 0, 0, 0));

    let mut empty = TurboQuantIndex::new(8, 2).unwrap();
    empty.prepare(BlockLayout::Interleaved, no_rotation, no_codebook);
    let found = empty.search_with_mask(
        &vectors(3, 8, 1),
        5,
        Some(&[]),
        BlockLayout::Interleaved,
        no_rotation,
        no_codebook,
        |_: SearchTask<'_>| unreachable!(),
    );
    assert_eq!((found.nq, found.k, found.scores.len(), found.indices.len()), (3, 0, 0, 0));
    assert!(found.scores_for_query(2).is_empty());
}

#[test]
fn what_is_derived_is_made_once() {
    let made = RefCell::new(0usize);
    let mut index = TurboQuantIndex::new(8, 2).unwrap();
    let rotation = |dim: usize| {
        *made.borrow_mut() += 1;
        make_rotation(dim)
    };
    index.add(&vectors(3, 8, 1), rotation, make_codebook, encode);
    index.prepare(BlockLayout::Sequential, no_rotation, no_codebook);
    index.prepare(BlockLayout::Sequential, no_rotation, no_codebook);
    let query = vectors(1, 8, 2);
    index.search(&query, 1, BlockLayout::Sequential, no_rotation, no_codebook, score);
    assert_eq!(made.into_inner(), 1);
}

#[test]
fn changing_the_codes_drops_the_blocked_form() {
    let mut index = index_of(40, 8, 3);
    let query = vectors(1, 8, 2);
    find(&mut index, &query, 3, None, BlockLayout::Sequential);
    add(&mut index, &vectors(7, 8, 3));
    index.swap_remove(5);
    let expected = repack(BlockLayout::Sequential, index.packed_codes(), 46, 3, 8);
    index.search(
        &query,
        3,
        BlockLayout::Sequential,
        no_rotation,
        no_codebook,
        |task: SearchTask<'_>| {
            assert_eq!(task.blocked, &expected.0[..]);
            assert_eq!(task.n_blocks, expected.1);
            score(task)
        },
    );
}

/// Everything that an index stores, owned.
fn copied(stored: &StoredIndex<'_>) -> LoadedIndex {
    LoadedIndex {
        bit_width: stored.bit_width,
        dim: stored.dim,
        n_vectors: stored.n_vectors,
        packed_codes: stored.packed_codes.to_vec(),
        scales: stored.scales.to_vec(),
        tqplus_shift: stored.tqplus_shift.to_vec(),
        tqplus_scale: stored.tqplus_scale.to_vec(),
    }
}

fn assert_same(a: &TurboQuantIndex, b: &TurboQuantIndex) {
    assert_eq!(a.dim_opt(), b.dim_opt());
    assert_eq!(a.bit_width(), b.bit_width());
    assert_eq!(a.len(), b.len());
    assert_eq!(a.packed_codes(), b.packed_codes());
    assert_eq!(a.scales(), b.scales());
    assert_eq!(a.tqplus_shift(), b.tqplus_shift());
    assert_eq!(a.tqplus_scale(), b.tqplus_scale());
}

#[test]
fn a_stored_index_loads_back() {
    let mut removed = index_of(1, 8, 2);
    removed.swap_remove(0);
    for index in [
        index_of(33, 16, 3),
        removed,
        TurboQuantIndex::new(MAX_DIM, 4).unwrap(),
        TurboQuantIndex::new_lazy(2).unwrap(),
    ] {
        let loaded = TurboQuantIndex::from_loaded(copied(&index.stored()), None).unwrap();
        assert_same(&index, &loaded);
        let rebuilt = TurboQuantIndex::from_parts(
            index.dim_opt(),
            index.bit_width(),
            index.len(),
            index.packed_codes().to_vec(),
            index.scales().to_vec(),
            index.tqplus_shift().to_vec(),
            index.tqplus_scale().to_vec(),
        )
        .unwrap();
        assert_same(&index, &rebuilt);
    }
}

#[test]
fn a_loaded_rotation_is_kept() {
    let index = index_of(4, 8, 2);
    let rotation = vec![float(42.0)];
    let mut loaded =
        TurboQuantIndex::from_loaded(copied(&index.stored()), Some(rotation)).unwrap();
    let seen = loaded.rotation_fingerprint(0.0f32, no_rotation, |rotation: &[Float32], dim| {
        assert_eq!(dim, 8);
        value(rotation[0])
    });
    assert_eq!(seen, 42.0);

    // One that is kept already is not replaced.
    loaded.seed_rotation(Some(vec![float(1.0)]));
    let seen = loaded.rotation_fingerprint(0.0f32, no_rotation, |rotation: &[Float32], _| {
        value(rotation[0])
    });
    assert_eq!(seen, 42.0);
}

#[test]
fn a_loaded_cache_is_used() {
    let index = index_of(50, 8, 4);
    let (blocked_data, n_blocks) =
        repack(BlockLayout::Interleaved, index.packed_codes(), 50, 4, 8);
    let (boundaries, centroids) = make_codebook(4, 8);
    let cache = RuntimeCache {
        rotation: make_rotation(8),
        boundaries,
        centroids,
        layout: BlockLayout::Interleaved,
        blocked_data,
        n_blocks,
    };
    let mut loaded = TurboQuantIndex::from_loaded_with_cache(
        copied(&index.stored()),
        Some(vec![float(13.0)]),
        Some(cache),
    )
    .unwrap();
    let query = vectors(1, 8, 2);
    let found = loaded.search(
        &query,
        4,
        BlockLayout::Sequential,
        no_rotation,
        no_codebook,
        |task: SearchTask<'_>| {
            assert_eq!(task.layout, BlockLayout::Interleaved);
            assert_eq!(value(task.rotation[0]), 8.0);
            score(task)
        },
    );
    let mut fresh = index_of(50, 8, 4);
    let expected = find(&mut fresh, &query, 4, None, BlockLayout::Sequential);
    assert_eq!(found.indices, expected.indices);
}

#[test]
fn what_cannot_be_loaded_is_refused() {
    let stored = LoadedIndex {
        bit_width: 2,
        dim: 0,
        n_vectors: 1,
        packed_codes: vec![0, 0],
        scales: vec![float(1.0)],
        tqplus_shift: Vec::new(),
        tqplus_scale: Vec::new(),
    };
    assert_eq!(
        TurboQuantIndex::from_loaded(stored, None).unwrap_err(),
        FromPartsError::LazyMustHaveZeroVectors(1)
    );
}

#[test]
fn fingerprints_are_empty_without_vectors() {
    let mut lazy = TurboQuantIndex::new_lazy(2).unwrap();
    assert_eq!(lazy.rotation_fingerprint(7u8, no_rotation, |_: &[Float32], _| 1), 7);
    let mut empty = TurboQuantIndex::new(8, 2).unwrap();
    assert_eq!(empty.rotation_fingerprint(7u8, no_rotation, |_: &[Float32], _| 1), 7);
    let index = index_of(1, 8, 2);
    let mut loaded = TurboQuantIndex::from_loaded(copied(&index.stored()), None).unwrap();
    assert_eq!(
        loaded.rotation_fingerprint(0usize, make_rotation, |rotation: &[Float32], dim| {
            rotation.len() + dim
        }),
        9
    );
}

fn fingerprint(rotation: &[Float32], dim: usize) -> u32 {
    rotation[0].bits ^ dim as u32
}

#[test]
fn writing_clears_the_marks_only_where_it_works() {
    let mut index = index_of(40, 8, 2);
    index.swap_remove(0);
    let print = 8.0f32.to_bits() ^ 8;
    let failed: Result<(), &str> = index.write(
        0u32,
        no_rotation,
        fingerprint,
        |stored: StoredIndex<'_>, handed, mode| {
            assert_eq!((stored.dim, stored.n_vectors, handed), (8, 39, print));
            assert!(matches!(mode, RuntimeCacheMode::DirtyBlocks(_)));
            Err("disk full")
        },
    );
    assert_eq!(failed, Err("disk full"));
    assert!(matches!(index.runtime_cache_mode(), RuntimeCacheMode::DirtyBlocks(_)));

    let kept = index.write_to_writer(
        0u32,
        no_rotation,
        fingerprint,
        |stored: StoredIndex<'_>, handed| {
            assert_eq!((stored.packed_codes.len(), handed), (78, print));
            Ok::<(), ()>(())
        },
    );
    assert_eq!(kept, Ok(()));
    assert!(matches!(index.runtime_cache_mode(), RuntimeCacheMode::DirtyBlocks(_)));

    let written: Result<(), ()> = index.write(
        0u32,
        no_rotation,
        fingerprint,
        |_: StoredIndex<'_>, _, mode| {
            match mode {
                RuntimeCacheMode::DirtyBlocks(blocks) => assert_eq!(blocks, vec![0, 1]),
                RuntimeCacheMode::AppendOnly => unreachable!(),
            }
            Ok(())
        },
    );
    assert_eq!(written, Ok(()));
    assert!(matches!(index.runtime_cache_mode(), RuntimeCacheMode::AppendOnly));
}

#[test]
fn an_index_without_vectors_is_written_with_the_empty_fingerprint() {
    let mut index = TurboQuantIndex::new(8, 2).unwrap();
    let written: Result<(), ()> = index.write(
        77u32,
        no_rotation,
        fingerprint,
        |stored: StoredIndex<'_>, handed, _| {
            assert_eq!((stored.n_vectors, handed), (0, 77));
            Ok(())
        },
    );
    assert_eq!(written, Ok(()));
}

// A small format: the fields one behind the other, each number as eight bytes.

fn format_bytes(stored: StoredIndex<'_>, print: u32) -> Vec<u8> {
    let mut out = Vec::new();
    for x in [
        stored.bit_width,
        stored.dim,
        stored.n_vectors,
        stored.packed_codes.len(),
        stored.scales.len(),
        stored.tqplus_shift.len(),
        print as usize,
    ] {
        out.extend_from_slice(&(x as u64).to_le_bytes());
    }
    out.extend_from_slice(stored.packed_codes);
    for values in [stored.scales, stored.tqplus_shift, stored.tqplus_scale] {
        for x in values {
            out.extend_from_slice(&x.bits.to_le_bytes());
        }
    }
    out
}

fn parse_bytes(bytes: &[u8]) -> Result<(LoadedIndex, Option<Vec<Float32>>), &'static str> {
    if bytes.len() < 56 {
        return Err("too short");
    }
    let number = |i: usize| {
        let mut word = [0u8; 8];
        word.copy_from_slice(&bytes[8 * i..8 * i + 8]);
        u64::from_le_bytes(word) as usize
    };
    let mut at = 56 + number(3);
    let packed_codes = bytes[56..at].to_vec();
    let mut values = |n: usize| {
        let taken = bytes[at..at + 4 * n]
            .chunks(4)
            .map(|b| Float32 { bits: u32::from_le_bytes([b[0], b[1], b[2], b[3]]) })
            .collect::<Vec<Float32>>();
        at += 4 * n;
        taken
    };
    let loaded = LoadedIndex {
        bit_width: number(0),
        dim: number(1),
        n_vectors: number(2),
        packed_codes,
        scales: values(number(4)),
        tqplus_shift: values(number(5)),
        tqplus_scale: values(number(5)),
    };
    Ok((loaded, None))
}

#[test]
fn the_bytes_of_an_index_give_it_back() {
    for mut index in [
        index_of(33, 16, 3),
        TurboQuantIndex::new(24, 4).unwrap(),
        TurboQuantIndex::new_lazy(2).unwrap(),
    ] {
        let bytes = index.to_bytes(0u32, no_rotation, fingerprint, format_bytes);
        let mut sunk = Vec::new();
        let sent: Result<(), ()> = index.write_to_writer(
            0u32,
            no_rotation,
            fingerprint,
            |stored: StoredIndex<'_>, print| {
                sunk = format_bytes(stored, print);
                Ok(())
            },
        );
        assert_eq!(sent, Ok(()));
        assert_eq!(sunk, bytes);
        let mut file = Vec::new();
        let written: Result<(), ()> = index.write(
            0u32,
            no_rotation,
            fingerprint,
            |stored: StoredIndex<'_>, print, _| {
                file = format_bytes(stored, print);
                Ok(())
            },
        );
        assert_eq!(written, Ok(()));
        assert_eq!(file, bytes);

        let mut back = TurboQuantIndex::from_bytes(&bytes, parse_bytes).unwrap();
        assert_same(&index, &back);
        assert_eq!(back.to_bytes(0u32, make_rotation, fingerprint, format_bytes), bytes);
        let read = TurboQuantIndex::load_from_reader(|| parse_bytes(&bytes)).unwrap();
        assert_same(&index, &read);
        let loaded = TurboQuantIndex::load(|| {
            parse_bytes(&bytes).map(|(loaded, rotation)| (loaded, rotation, None))
        })
        .unwrap();
        assert_same(&index, &loaded);
    }
}

#[test]
fn what_cannot_be_read_is_told_from_what_makes_no_index() {
    let unread = TurboQuantIndex::from_bytes(b"short", parse_bytes).unwrap_err();
    assert!(matches!(unread, LoadError::Read("too short")));
    let mut index = index_of(2, 8, 2);
    let mut bytes = index.to_bytes(0u32, no_rotation, fingerprint, format_bytes);
    bytes[0] = 9;
    let refused = TurboQuantIndex::from_bytes(&bytes, parse_bytes).unwrap_err();
    assert!(matches!(refused, LoadError::Parts(FromPartsError::BitWidthOutOfRange(9))));
    let alike = TurboQuantIndex::load_from_reader(|| parse_bytes(&bytes)).unwrap_err();
    assert!(matches!(alike, LoadError::Parts(FromPartsError::BitWidthOutOfRange(9))));
}

fn cache_for(index: &TurboQuantIndex, layout: BlockLayout) -> RuntimeCache {
    let (dim, bits) = (index.dim(), index.bit_width());
    let (blocked_data, n_blocks) = repack(layout, index.packed_codes(), index.len(), bits, dim);
    let (boundaries, centroids) = make_codebook(bits, dim);
    RuntimeCache {
        rotation: make_rotation(dim),
        boundaries,
        centroids,
        layout,
        blocked_data,
        n_blocks,
    }
}

#[test]
fn a_kept_cache_is_used_as_it_is() {
    let index = index_of(50, 8, 3);
    let query = vectors(1, 8, 2);
    for layout in [BlockLayout::Interleaved, BlockLayout::Sequential] {
        let kept = cache_for(&index, layout);
        let mut loaded =
            TurboQuantIndex::load(|| Ok::<_, ()>((copied(&index.stored()), None, Some(kept))))
                .unwrap();
        assert!(loaded.is_prepared());
        let found = find(&mut loaded, &query, 4, None, layout);
        let expected = find(&mut index_of(50, 8, 3), &query, 4, None, layout);
        assert_eq!(found.indices, expected.indices);

        let mut other = cache_for(&index, layout);
        other.blocked_data[7] ^= 1;
        let expected = other.blocked_data.clone();
        let mut loaded =
            TurboQuantIndex::load(|| Ok::<_, ()>((copied(&index.stored()), None, Some(other))))
                .unwrap();
        loaded.search(
            &query,
            4,
            layout,
            no_rotation,
            no_codebook,
            |task: SearchTask<'_>| {
                assert_eq!(task.blocked, &expected[..]);
                score(task)
            },
        );

        // Changing the codes drops it.
        add(&mut loaded, &vectors(1, 8, 4));
        assert!(!loaded.is_prepared());
    }
}

#[test]
fn a_prepared_index_is_searched_without_changing_it() {
    let mut index = index_of(40, 16, 2);
    assert!(!index.is_prepared());
    index.prepare(BlockLayout::Interleaved, no_rotation, no_codebook);
    assert!(index.is_prepared());
    let queries = vectors(3, 16, 5);
    let found = index.search_prepared(&queries, 6, None, score);
    let again = find(&mut index, &queries, 6, None, BlockLayout::Interleaved);
    assert_eq!(
        (found.nq, found.k, found.scores, found.indices),
        (again.nq, again.k, again.scores, again.indices)
    );
    index.swap_remove(0);
    assert!(!index.is_prepared());
}

#[test]
fn a_rebuilt_index_is_searched_alike() {
    let mut index = index_of(60, 16, 3);
    let queries = vectors(4, 16, 5);
    find(&mut index, &queries, 2, None, BlockLayout::Sequential);
    index.swap_remove(11);
    add(&mut index, &vectors(9, 16, 12));
    find(&mut index, &queries, 2, None, BlockLayout::Sequential);
    index.swap_remove(60);
    let mut rebuilt = TurboQuantIndex::from_parts(
        index.dim_opt(),
        index.bit_width(),
        index.len(),
        index.packed_codes().to_vec(),
        index.scales().to_vec(),
        index.tqplus_shift().to_vec(),
        index.tqplus_scale().to_vec(),
    )
    .unwrap();
    let a = find(&mut index, &queries, 7, None, BlockLayout::Sequential);
    let b = find(&mut rebuilt, &queries, 7, None, BlockLayout::Sequential);
    assert_eq!((a.nq, a.k, a.scores, a.indices), (b.nq, b.k, b.scores, b.indices));
}

#[test]
fn an_empty_batch_is_as_good_as_none() {
    let mut with = index_of(3, 8, 2);
    let mut without = index_of(3, 8, 2);
    add(&mut with, &[]);
    let more = vectors(4, 8, 6);
    add(&mut with, &more);
    add(&mut without, &more);
    assert_same(&with, &without);
}

#[test]
fn a_full_search_finds_every_slot_once() {
    let mut index = TurboQuantIndex::new(1536, 4).unwrap();
    add(&mut index, &floats(&vec![0.0f32; 1536 * 10]));
    assert_eq!(index.len(), 10);
    let queries = floats(&vec![0.0f32; 1536 * 2]);
    let found = find(&mut index, &queries, 10, None, BlockLayout::Interleaved);
    assert_eq!((found.nq, found.k, found.scores.len(), found.indices.len()), (2, 10, 20, 20));
    for qi in 0..2 {
        let mut row = found.indices_for_query(qi).to_vec();
        row.sort();
        assert_eq!(row, (0..10).collect::<Vec<i64>>());
    }
    assert!(check_results(&found.scores, &found.indices, 2, 10, 10, None));
}

#[test]
fn results_that_do_not_fit_are_told() {
    let scores = floats(&[3.0, 2.0, 5.0, 5.0]);
    let fits = |scores: &[Float32], indices: &[i64], mask: Option<&[bool]>| {
        check_results(scores, indices, 2, 2, 4, mask)
    };
    let allowed = [true, false, true, true];
    assert!(fits(&scores, &[0, 1, 2, 3], None));
    assert!(fits(&scores, &[0, 2, 3, 2], Some(&allowed)));
    assert!(!fits(&scores, &[0, 2, 3, 3], Some(&allowed)));
    assert!(!fits(&scores, &[1, 1, 2, 3], None));
    assert!(fits(&scores, &[0, 1, 0, 1], None));
    assert!(!fits(&floats(&[3.0, f32::NAN, 5.0, 5.0]), &[0, 1, 2, 3], None));
    assert!(!fits(&floats(&[f32::NAN, f32::NAN, 5.0, 5.0]), &[0, 1, 2, 3], None));
    assert!(fits(&floats(&[f32::INFINITY, 2.0, 5.0, f32::NEG_INFINITY]), &[0, 1, 2, 3], None));
    assert!(!fits(&scores, &[0, 1, 2, 3], Some(&allowed)));
    assert!(!fits(&scores, &[0, 1, 2, 4], None));
    assert!(!fits(&scores, &[0, 1, 2, -1], None));
    assert!(!fits(&scores, &[0, 1, 2], None));
    assert!(!fits(&scores[..3], &[0, 1, 2, 3], None));
    assert!(!fits(&floats(&[2.0, 3.0, 1.0, 1.0]), &[0, 1, 2, 3], None));
    assert!(fits(&floats(&[-1.0, -2.0, 9.0, -0.0]), &[0, 1, 2, 3], None));
    assert!(!check_results(&[], &[], usize::MAX, 2, 4, None));
}

#[test]
fn numbers_are_ordered_as_numbers() {
    let sorted = [
        f32::NEG_INFINITY,
        f32::MIN,
        -1.0,
        -f32::MIN_POSITIVE,
        0.0,
        1e-45,
        1.0,
        1e16,
        f32::MAX,
        f32::INFINITY,
    ];
    for (i, &a) in sorted.iter().enumerate() {
        for (j, &b) in sorted.iter().enumerate() {
            assert_eq!(float(a).is_below(float(b)), i < j, "{a} {b}");
        }
        assert!(!float(a).is_below(float(f32::NAN)));
        assert!(!float(f32::NAN).is_below(float(a)));
    }
    assert!(!float(-0.0).is_below(float(0.0)));
    assert!(!float(0.0).is_below(float(-0.0)));
}

#[test]
fn a_batch_that_does_not_fit_is_told() {
    let batch = |packed: usize, scale: f32, shift: f32, tq: f32| EncodedBatch {
        packed: vec![0u8; packed],
        scales: vec![float(1.0), float(scale)],
        shift: vec![float(shift); 8],
        scale: vec![float(tq); 8],
    };
    assert!(batch(4, 0.0, -1.0, 0.5).check(2, 8, 2));
    assert!(!batch(5, 0.0, -1.0, 0.5).check(2, 8, 2));
    assert!(!batch(4, -1.0, -1.0, 0.5).check(2, 8, 2));
    assert!(!batch(4, 0.0, f32::NAN, 0.5).check(2, 8, 2));
    assert!(!batch(4, 0.0, -1.0, 0.0).check(2, 8, 2));
    assert!(!batch(4, 0.0, -1.0, 0.5).check(3, 8, 2));
    assert!(!batch(4, 0.0, -1.0, 0.5).check(usize::MAX, 8, 2));
}
