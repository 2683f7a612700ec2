//! Search results, and the mask that restricts a search.

use vstd::prelude::*;
use vstd::slice::slice_subrange;

use crate::float32::Float32;

verus! {

/// Top-`k` results for a batch of queries.
///
/// `scores` and `indices` are flattened row-major with one row per query: row
/// `qi` occupies the places `qi * k .. (qi + 1) * k` in both, where `k` is the
/// number of results per query that the search could give, not necessarily
/// the number asked for.
pub struct SearchResults {
    /// Scores, row-major.
    pub scores: Vec<Float32>,
    /// Slot indices into the index, row-major, aligned with the scores.
    pub indices: Vec<i64>,
    /// Number of query rows; zero where the dimension is unknown.
    pub nq: usize,
    /// Results per query: the number asked for, held to the number of vectors
    /// that could be searched.
    pub k: usize,
}

impl SearchResults {
    /// The row of scores for query `qi`.
    pub fn scores_for_query(&self, qi: usize) -> (result: &[Float32])
        requires
            qi < usize::MAX,
            (qi + 1) * self.k <= self.scores@.len(),
        ensures
            result@ == self.scores@.subrange(qi * self.k, (qi + 1) * self.k),
    {
        proof {
            lemma_row_bounds(qi as int, self.k as int);
        }
        let len: usize = self.scores.len();
        assert((qi + 1) * self.k <= len);
        slice_subrange(self.scores.as_slice(), qi * self.k, (qi + 1) * self.k)
    }

    /// The row of slot indices for query `qi`.
    pub fn indices_for_query(&self, qi: usize) -> (result: &[i64])
        requires
            qi < usize::MAX,
            (qi + 1) * self.k <= self.indices@.len(),
        ensures
            result@ == self.indices@.subrange(qi * self.k, (qi + 1) * self.k),
    {
        proof {
            lemma_row_bounds(qi as int, self.k as int);
        }
        let len: usize = self.indices.len();
        assert((qi + 1) * self.k <= len);
        slice_subrange(self.indices.as_slice(), qi * self.k, (qi + 1) * self.k)
    }
}

proof fn lemma_row_bounds(qi: int, k: int)
    requires
        0 <= qi,
        0 <= k,
    ensures
        0 <= qi * k <= (qi + 1) * k,
{
    assert(0 <= qi * k <= (qi + 1) * k) by (nonlinear_arith)
        requires
            0 <= qi,
            0 <= k,
    ;
}

// ---------------------------------------------------------------------------
// Masks
// ---------------------------------------------------------------------------

/// The number of slots that a mask allows.
pub open spec fn allowed_count(mask: Seq<bool>) -> nat
    decreases mask.len(),
{
    if mask.len() == 0 {
        0
    } else {
        allowed_count(mask.drop_last()) + if mask.last() {
            1nat
        } else {
            0
        }
    }
}

/// Bit `i` of a packed mask.
pub open spec fn mask_bit(words: Seq<u64>, i: int) -> bool {
    words[i / 64] & (1u64 << ((i % 64) as u64)) != 0
}

/// The words hold the mask, sixty-four slots to the word, the first slot in
/// the lowest bit, and nothing else.
pub open spec fn packs_mask(words: Seq<u64>, mask: Seq<bool>) -> bool {
    &&& words.len() == (mask.len() + 63) / 64
    &&& forall|i: int|
        0 <= i < 64 * words.len() ==> (#[trigger] mask_bit(words, i) <==> i < mask.len() && mask[i])
}

/// Setting a bit sets that bit and leaves the others.
proof fn lemma_set_bit(word: u64, a: u64, b: u64)
    requires
        a < 64,
        b < 64,
    ensures
        ((word | (1u64 << a)) & (1u64 << b) != 0) == (a == b || word & (1u64 << b) != 0),
{
    assert(((word | (1u64 << a)) & (1u64 << b) != 0) == (a == b || word & (1u64 << b) != 0))
        by (bit_vector)
        requires
            a < 64,
            b < 64,
    ;
}

/// Words with the same bits are the same, from bit `from` up.
proof fn lemma_same_bits(x: u64, y: u64, from: u64)
    requires
        from < 64,
        forall|b: u64| from <= b < 64 ==> (#[trigger] (1u64 << b) & x != 0) == ((1u64 << b) & y != 0),
    ensures
        x >> from == y >> from,
    decreases 64 - from,
{
    assert((1u64 << from) & x != 0 <==> (1u64 << from) & y != 0);
    if from == 63 {
        assert(x >> 63 == y >> 63) by (bit_vector)
            requires
                ((1u64 << 63) & x != 0) == ((1u64 << 63) & y != 0),
        ;
    } else {
        lemma_same_bits(x, y, (from + 1) as u64);
        let next = (from + 1) as u64;
        assert(x >> from == y >> from) by (bit_vector)
            requires
                from < 63,
                next == from + 1,
                x >> next == y >> next,
                ((1u64 << from) & x != 0) == ((1u64 << from) & y != 0),
        ;
    }
}

/// A mask is packed in one way only.
pub proof fn lemma_packs_mask_unique(first: Seq<u64>, second: Seq<u64>, mask: Seq<bool>)
    requires
        packs_mask(first, mask),
        packs_mask(second, mask),
    ensures
        first == second,
{
    assert forall|w: int| 0 <= w < first.len() implies first[w] == second[w] by {
        let (x, y) = (first[w], second[w]);
        assert forall|b: u64| 0 <= b < 64 implies (#[trigger] (1u64 << b) & x != 0) == ((1u64 << b)
            & y != 0) by {
            let i = 64 * w + b;
            assert(i / 64 == w && i % 64 == b);
            assert(mask_bit(first, i) == mask_bit(second, i));
            assert((1u64 << b) & x == x & (1u64 << b)) by (bit_vector);
            assert((1u64 << b) & y == y & (1u64 << b)) by (bit_vector);
        }
        lemma_same_bits(x, y, 0);
        assert(x >> 0u64 == x && y >> 0u64 == y) by (bit_vector);
    }
    assert(first =~= second);
}

/// Packs a mask into words.
pub fn pack_mask(mask: &[bool]) -> (result: Vec<u64>)
    ensures
        packs_mask(result@, mask@),
{
    let n: usize = mask.len();
    let n_words: usize = n / 64 + if n % 64 == 0 {
        0
    } else {
        1
    };
    let mut words: Vec<u64> = vec![0u64; n_words];
    let mut i: usize = 0;
    proof {
        assert forall|k: int| 0 <= k < 64 * words@.len() implies !(#[trigger] mask_bit(
            words@,
            k,
        )) by {
            let b = (k % 64) as u64;
            assert(0u64 & (1u64 << b) == 0) by (bit_vector);
        }
    }
    while i < n
        invariant
            n == mask@.len(),
            i <= n,
            words@.len() == n_words == (n + 63) / 64,
            forall|k: int|
                0 <= k < 64 * words@.len() ==> (#[trigger] mask_bit(words@, k) <==> k < i
                    && mask@[k]),
        decreases n - i,
    {
        if mask[i] {
            let ghost before = words@;
            let word: u64 = words[i / 64];
            let bit: u64 = (i % 64) as u64;
            words.set(i / 64, word | (1u64 << bit));
            proof {
                assert forall|k: int| 0 <= k < 64 * words@.len() implies (#[trigger] mask_bit(
                    words@,
                    k,
                ) <==> k < i + 1 && mask@[k]) by {
                    assert(mask_bit(before, k) <==> k < i && mask@[k]);
                    if k / 64 == i / 64 {
                        lemma_set_bit(word, bit, (k % 64) as u64);
                    }
                }
            }
        }
        i = i + 1;
    }
    words
}

/// Counts the slots that a mask allows.
pub fn count_allowed(mask: &[bool]) -> (result: usize)
    ensures
        result == allowed_count(mask@),
        result <= mask@.len(),
{
    let mut count: usize = 0;
    let mut i: usize = 0;
    while i < mask.len()
        invariant
            i <= mask@.len(),
            count <= i,
            count == allowed_count(mask@.take(i as int)),
        decreases mask@.len() - i,
    {
        proof {
            let longer = mask@.take(i + 1);
            assert(longer.drop_last() =~= mask@.take(i as int));
            assert(longer.last() == mask@[i as int]);
        }
        if mask[i] {
            count = count + 1;
        }
        i = i + 1;
    }
    assert(mask@.take(i as int) =~= mask@);
    count
}

/// The number of results per query: what was asked for, held to the number of
/// vectors and to the number of them that may be searched.
pub open spec fn effective_count(k: int, n_vectors: int, n_allowed: int) -> int {
    if k <= n_vectors && k <= n_allowed {
        k
    } else if n_vectors <= n_allowed {
        n_vectors
    } else {
        n_allowed
    }
}

/// A mask allows no more slots than it has.
pub proof fn lemma_allowed_count_bound(mask: Seq<bool>)
    ensures
        allowed_count(mask) <= mask.len(),
    decreases mask.len(),
{
    if mask.len() > 0 {
        lemma_allowed_count_bound(mask.drop_last());
    }
}

/// A mask that allows every slot restricts nothing.
pub proof fn lemma_full_mask_allows_all(mask: Seq<bool>)
    requires
        forall|i: int| 0 <= i < mask.len() ==> #[trigger] mask[i],
    ensures
        allowed_count(mask) == mask.len(),
    decreases mask.len(),
{
    if mask.len() > 0 {
        lemma_full_mask_allows_all(mask.drop_last());
    }
}

// ---------------------------------------------------------------------------
// What scoring gives
// ---------------------------------------------------------------------------

/// A slot that a search may find.
pub open spec fn may_find(slot: i64, n_vectors: int, mask: Option<Seq<bool>>) -> bool {
    0 <= slot < n_vectors && (mask matches Some(mask) ==> mask[slot as int])
}

/// Place `i` ends a row of `k`, or its score is not less than the next.
pub open spec fn in_order(scores: Seq<Float32>, k: int, i: int) -> bool {
    (i + 1) % k == 0 || !scores[i].below(scores[i + 1])
}

/// The slot at place `a` of the row of query `q`.
pub open spec fn row_slot(indices: Seq<i64>, k: int, q: int, a: int) -> i64 {
    indices[q * k + a]
}

/// No row names a slot twice.
pub open spec fn rows_distinct(indices: Seq<i64>, nq: int, k: int) -> bool {
    forall|q: int, a: int, b: int|
        0 <= q < nq && 0 <= a < b < k ==> #[trigger] row_slot(indices, k, q, a)
            != #[trigger] row_slot(indices, k, q, b)
}

/// Scores and slots such as scoring gives: `k` for each of `nq` queries, every
/// slot one that may be found, no slot twice in a row, every score a number,
/// and in each row the best match first.
pub open spec fn results_fit(
    scores: Seq<Float32>,
    indices: Seq<i64>,
    nq: int,
    k: int,
    n_vectors: int,
    mask: Option<Seq<bool>>,
) -> bool {
    &&& scores.len() == nq * k
    &&& indices.len() == nq * k
    &&& forall|i: int| 0 <= i < indices.len() ==> may_find(#[trigger] indices[i], n_vectors, mask)
    &&& rows_distinct(indices, nq, k)
    &&& forall|i: int| 0 <= i < scores.len() ==> !(#[trigger] scores[i]).nan()
    &&& forall|i: int| 0 <= i < scores.len() - 1 ==> #[trigger] in_order(scores, k, i)
}

/// Where a row lies.
proof fn lemma_row_place(nq: int, k: int, q: int, a: int)
    requires
        0 <= q < nq,
        0 <= a < k,
    ensures
        0 <= q * k,
        0 <= q * k + a < nq * k,
{
    assert(0 <= q * k && q * k + k <= nq * k) by (nonlinear_arith)
        requires
            0 <= q < nq,
            0 < k,
    ;
}

/// A row runs from better to worse: no score in it is larger than one before.
pub proof fn lemma_row_descends(
    scores: Seq<Float32>,
    indices: Seq<i64>,
    nq: int,
    k: int,
    n_vectors: int,
    mask: Option<Seq<bool>>,
    q: int,
    a: int,
    b: int,
)
    requires
        results_fit(scores, indices, nq, k, n_vectors, mask),
        0 <= q < nq,
        0 <= a <= b < k,
    ensures
        scores[q * k + a].value() >= scores[q * k + b].value(),
    decreases b - a,
{
    if a < b {
        lemma_row_descends(scores, indices, nq, k, n_vectors, mask, q, a, b - 1);
        lemma_row_place(nq, k, q, b);
        lemma_row_place(nq, k, q, b - 1);
        let i = q * k + b - 1;
        vstd::arithmetic::div_mod::lemma_fundamental_div_mod_converse(i + 1, k, q, b);
        assert(in_order(scores, k, i));
        assert(!scores[i].nan() && !scores[i + 1].nan());
    }
}

/// Where a row has as many places as there are vectors, it is a permutation of
/// the slots: every slot stands in it.
pub proof fn lemma_full_row_is_permutation(
    scores: Seq<Float32>,
    indices: Seq<i64>,
    nq: int,
    n_vectors: int,
    mask: Option<Seq<bool>>,
    q: int,
    slot: int,
)
    requires
        results_fit(scores, indices, nq, n_vectors, n_vectors, mask),
        0 <= q < nq,
        0 <= slot < n_vectors,
    ensures
        exists|a: int|
            0 <= a < n_vectors && #[trigger] row_slot(indices, n_vectors, q, a) == slot,
{
    let row = Seq::new(n_vectors as nat, |a: int| row_slot(indices, n_vectors, q, a) as int);
    assert(row.no_duplicates()) by {
        assert forall|a: int, b: int|
            0 <= a < row.len() && 0 <= b < row.len() && a != b implies row[a] != row[b] by {
            if a < b {
                assert(row_slot(indices, n_vectors, q, a) != row_slot(indices, n_vectors, q, b));
            } else {
                assert(row_slot(indices, n_vectors, q, b) != row_slot(indices, n_vectors, q, a));
            }
        }
    }
    let all = vstd::set_lib::set_int_range(0, n_vectors);
    assert forall|x: int| row.to_set().contains(x) implies all.contains(x) by {
        let a = choose|a: int| 0 <= a < row.len() && row[a] == x;
        lemma_row_place(nq, n_vectors, q, a);
        assert(may_find(indices[q * n_vectors + a], n_vectors, mask));
    }
    row.unique_seq_to_set();
    vstd::set_lib::lemma_int_range(0, n_vectors);
    vstd::set_lib::lemma_len_subset(row.to_set(), all);
    vstd::set_lib::lemma_subset_equality(row.to_set(), all);
    assert(row.to_set().contains(slot));
    let a = choose|a: int| 0 <= a < row.len() && row[a] == slot;
    assert(row_slot(indices, n_vectors, q, a) == slot);
}

/// The contents of a mask.
pub open spec fn mask_view(mask: Option<&[bool]>) -> Option<Seq<bool>> {
    match mask {
        Some(mask) => Some(mask@),
        None => None,
    }
}

/// Whether no row names a slot twice.
fn check_distinct(indices: &[i64], nq: usize, k: usize, n_vectors: usize) -> (result: bool)
    requires
        indices@.len() == nq * k,
        forall|i: int| 0 <= i < indices@.len() ==> 0 <= #[trigger] indices@[i] < n_vectors,
    ensures
        result == rows_distinct(indices@, nq as int, k as int),
{
    let len: usize = indices.len();
    // The row that a slot was last seen in, counted from one.
    let mut seen: Vec<usize> = vec![0usize; n_vectors];
    let mut q: usize = 0;
    while q < nq
        invariant
            q <= nq,
            len == indices@.len() == nq * k,
            seen@.len() == n_vectors,
            forall|i: int| 0 <= i < indices@.len() ==> 0 <= #[trigger] indices@[i] < n_vectors,
            forall|slot: int| 0 <= slot < n_vectors ==> #[trigger] seen@[slot] <= q,
            rows_distinct(indices@, q as int, k as int),
        decreases nq - q,
    {
        let mut a: usize = 0;
        while a < k
            invariant
                q < nq,
                a <= k,
                len == indices@.len() == nq * k,
                seen@.len() == n_vectors,
                forall|i: int| 0 <= i < indices@.len() ==> 0 <= #[trigger] indices@[i] < n_vectors,
                forall|slot: int| 0 <= slot < n_vectors ==> #[trigger] seen@[slot] <= q + 1,
                forall|slot: int|
                    0 <= slot < n_vectors && #[trigger] seen@[slot] == q + 1 ==> exists|b: int|
                        0 <= b < a && #[trigger] row_slot(indices@, k as int, q as int, b) == slot,
                forall|b: int|
                    0 <= b < a ==> seen@[#[trigger] row_slot(
                        indices@,
                        k as int,
                        q as int,
                        b,
                    ) as int] == q + 1,
                rows_distinct(indices@, q as int, k as int),
                forall|b: int, c: int|
                    0 <= b < c < a ==> #[trigger] row_slot(indices@, k as int, q as int, b)
                        != #[trigger] row_slot(indices@, k as int, q as int, c),
            decreases k - a,
        {
            proof {
                lemma_row_place(nq as int, k as int, q as int, a as int);
                assert forall|b: int| 0 <= b < a implies 0 <= #[trigger] row_slot(
                    indices@,
                    k as int,
                    q as int,
                    b,
                ) < n_vectors by {
                    lemma_row_place(nq as int, k as int, q as int, b);
                }
            }
            let slot: i64 = indices[q * k + a];
            let place: usize = slot as usize;
            assert(row_slot(indices@, k as int, q as int, a as int) == slot);
            if seen[place] == q + 1 {
                proof {
                    let b = choose|b: int|
                        0 <= b < a && #[trigger] row_slot(indices@, k as int, q as int, b) == place;
                    assert(row_slot(indices@, k as int, q as int, b) == row_slot(
                        indices@,
                        k as int,
                        q as int,
                        a as int,
                    ));
                }
                return false;
            }
            seen.set(place, q + 1);
            a = a + 1;
        }
        q = q + 1;
    }
    true
}

/// Whether scores and slots are such as scoring gives.
pub fn check_results(
    scores: &[Float32],
    indices: &[i64],
    nq: usize,
    k: usize,
    n_vectors: usize,
    mask: Option<&[bool]>,
) -> (result: bool)
    requires
        mask matches Some(mask) ==> mask@.len() == n_vectors,
    ensures
        result == results_fit(
            scores@,
            indices@,
            nq as int,
            k as int,
            n_vectors as int,
            mask_view(mask),
        ),
{
    let len: usize = scores.len();
    let n_indices: usize = indices.len();
    match nq.checked_mul(k) {
        Some(expected) => {
            if len != expected || n_indices != expected {
                return false;
            }
        },
        None => {
            return false;
        },
    }
    let mut i: usize = 0;
    while i < len
        invariant
            i <= len,
            len == scores@.len() == indices@.len() == nq * k,
            mask matches Some(mask) ==> mask@.len() == n_vectors,
            forall|j: int|
                0 <= j < i ==> may_find(
                    #[trigger] indices@[j],
                    n_vectors as int,
                    mask_view(mask),
                ),
            forall|j: int| 0 <= j < i ==> !(#[trigger] scores@[j]).nan(),
            forall|j: int| 0 <= j < i && j < len - 1 ==> #[trigger] in_order(scores@, k as int, j),
        decreases len - i,
    {
        let slot: i64 = indices[i];
        if slot < 0 || slot as u64 >= n_vectors as u64 {
            assert(!may_find(indices@[i as int], n_vectors as int, mask_view(mask)));
            return false;
        }
        let found: bool = match mask {
            Some(mask) => mask[slot as usize],
            None => true,
        };
        if !found {
            assert(!may_find(indices@[i as int], n_vectors as int, mask_view(mask)));
            return false;
        }
        if scores[i].is_nan() {
            assert(scores@[i as int].nan());
            return false;
        }
        if i < len - 1 {
            assert(k > 0) by (nonlinear_arith)
                requires
                    len == nq * k,
                    i < len,
                    k >= 0,
                    i >= 0,
            ;
            if (i + 1) % k != 0 && scores[i].is_below(scores[i + 1]) {
                assert(!in_order(scores@, k as int, i as int));
                return false;
            }
        }
        i = i + 1;
    }
    assert forall|j: int| 0 <= j < indices@.len() implies 0 <= #[trigger] indices@[j] < n_vectors by {
        assert(may_find(indices@[j], n_vectors as int, mask_view(mask)));
    }
    check_distinct(indices, nq, k, n_vectors)
}

// ---------------------------------------------------------------------------
// In numbers
// ---------------------------------------------------------------------------

/// A packed mask, bit by bit: bit `i % 64` of word `i / 64` is the mask's entry
/// for slot `i`, and there is nothing else in the words.
pub proof fn lemma_packed_mask_by_bits(words: Seq<u64>, mask: Seq<bool>, i: int)
    requires
        packs_mask(words, mask),
    ensures
        64 * words.len() >= mask.len(),
        64 * words.len() < mask.len() + 64,
        0 <= i < 64 * words.len() ==> ((words[i / 64] >> ((i % 64) as u64)) & 1 == 1 <==> i
            < mask.len() && mask[i]),
{
    if 0 <= i < 64 * words.len() {
        assert(mask_bit(words, i) <==> i < mask.len() && mask[i]);
    }
    let (word, b): (u64, u64) = (words[i / 64], (i % 64) as u64);
    assert((word & (1u64 << b) != 0) <==> (word >> b) & 1 == 1) by (bit_vector)
        requires
            b < 64,
    ;
}

/// The slots that a mask allows are counted as the members of a set.
pub proof fn lemma_allowed_count_is_set_size(mask: Seq<bool>)
    ensures
        Set::new(|i: int| 0 <= i < mask.len() && mask[i]).finite(),
        allowed_count(mask) == Set::new(|i: int| 0 <= i < mask.len() && mask[i]).len(),
    decreases mask.len(),
{
    let all = Set::new(|i: int| 0 <= i < mask.len() && mask[i]);
    if mask.len() == 0 {
        assert(all =~= Set::<int>::empty());
    } else {
        let shorter = mask.drop_last();
        let fewer = Set::new(|i: int| 0 <= i < shorter.len() && shorter[i]);
        lemma_allowed_count_is_set_size(shorter);
        if mask.last() {
            assert(all =~= fewer.insert(mask.len() - 1));
        } else {
            assert(all =~= fewer);
        }
    }
}

/// The number of results per query is the least of three numbers.
pub proof fn lemma_effective_count_is_least(k: int, n_vectors: int, n_allowed: int)
    ensures
        effective_count(k, n_vectors, n_allowed) <= k,
        effective_count(k, n_vectors, n_allowed) <= n_vectors,
        effective_count(k, n_vectors, n_allowed) <= n_allowed,
        effective_count(k, n_vectors, n_allowed) == k || effective_count(k, n_vectors, n_allowed)
            == n_vectors || effective_count(k, n_vectors, n_allowed) == n_allowed,
{
}

/// Results that fit, place by place: how many there are, that every slot is
/// one of the index and of the mask, that two places of a row name different
/// slots, that every score is a number, and that no score of a row is less
/// than the one behind it.
pub proof fn lemma_results_place_by_place(
    scores: Seq<Float32>,
    indices: Seq<i64>,
    nq: int,
    k: int,
    n_vectors: int,
    mask: Option<Seq<bool>>,
    q: int,
    a: int,
    b: int,
)
    requires
        results_fit(scores, indices, nq, k, n_vectors, mask),
    ensures
        scores.len() == nq * k,
        indices.len() == nq * k,
        0 <= q < nq && 0 <= a < k ==> {
            &&& 0 <= q * k + a < nq * k
            &&& 0 <= indices[q * k + a] < n_vectors
            &&& mask is Some ==> (mask->0)[indices[q * k + a] as int]
            &&& scores[q * k + a].bits % 0x8000_0000 <= 0x7F80_0000
        },
        0 <= q < nq && 0 <= a < b < k ==> {
            &&& indices[q * k + a] != indices[q * k + b]
            &&& !scores[q * k + a].below(scores[q * k + b])
        },
{
    if 0 <= q < nq && 0 <= a < k {
        lemma_row_place(nq, k, q, a);
        assert(may_find(indices[q * k + a], n_vectors, mask));
        assert(!scores[q * k + a].nan());
        crate::float32::lemma_classes_by_bits(scores[q * k + a]);
    }
    if 0 <= q < nq && 0 <= a < b < k {
        lemma_row_place(nq, k, q, b);
        lemma_row_descends(scores, indices, nq, k, n_vectors, mask, q, a, b);
        assert(row_slot(indices, k, q, a) != row_slot(indices, k, q, b));
    }
}

/// Nothing more is asked of results than that.
pub proof fn lemma_results_that_fit(
    scores: Seq<Float32>,
    indices: Seq<i64>,
    nq: int,
    k: int,
    n_vectors: int,
    mask: Option<Seq<bool>>,
)
    requires
        nq >= 0,
        k >= 0,
        scores.len() == nq * k,
        indices.len() == nq * k,
        forall|i: int| 0 <= i < indices.len() ==> 0 <= #[trigger] indices[i] < n_vectors,
        mask is Some ==> forall|i: int|
            0 <= i < indices.len() ==> (mask->0)[(#[trigger] indices[i]) as int],
        forall|i: int, j: int|
            0 <= i < j < indices.len() && i / k == j / k ==> #[trigger] indices[i]
                != #[trigger] indices[j],
        forall|i: int| 0 <= i < scores.len() ==> !(#[trigger] scores[i]).nan(),
        forall|i: int, j: int|
            0 <= i < j < scores.len() && i / k == j / k ==> !(#[trigger] scores[i]).below(
                #[trigger] scores[j],
            ),
    ensures
        results_fit(scores, indices, nq, k, n_vectors, mask),
{
    assert forall|q: int, a: int, b: int| 0 <= q < nq && 0 <= a < b < k implies #[trigger] row_slot(
        indices,
        k,
        q,
        a,
    ) != #[trigger] row_slot(indices, k, q, b) by {
        lemma_row_place(nq, k, q, a);
        lemma_row_place(nq, k, q, b);
        vstd::arithmetic::div_mod::lemma_fundamental_div_mod_converse(q * k + a, k, q, a);
        vstd::arithmetic::div_mod::lemma_fundamental_div_mod_converse(q * k + b, k, q, b);
        assert(indices[q * k + a] != indices[q * k + b]);
    }
    assert forall|i: int| 0 <= i < scores.len() - 1 implies #[trigger] in_order(scores, k, i) by {
        assert(k > 0) by (nonlinear_arith)
            requires
                0 <= i < nq * k,
                nq >= 0,
                k >= 0,
        ;
        if (i + 1) % k != 0 {
            vstd::arithmetic::div_mod::lemma_fundamental_div_mod(i + 1, k);
            vstd::arithmetic::div_mod::lemma_mod_bound(i + 1, k);
            let q = (i + 1) / k;
            let r = (i + 1) % k;
            assert(k * q == q * k) by (nonlinear_arith);
            vstd::arithmetic::div_mod::lemma_fundamental_div_mod_converse(i, k, q, r - 1);
            assert(i / k == (i + 1) / k);
            assert(!scores[i].below(scores[i + 1]));
        }
    }
}

} // verus!
