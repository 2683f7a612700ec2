//! Bit-plane to SIMD-blocked layout repacking.
//!
//! The index stores one row of bytes per vector, cut into bit planes: plane
//! `p` of a row holds bit `p` of the code of every coordinate, eight
//! coordinates to the byte, the first coordinate in the top bit. Scoring reads
//! blocks of thirty-two vectors instead, in which the codes of a few
//! neighbouring coordinates share one byte per vector. This module turns the
//! first form into the second, in one of two layouts:
//! - interleaved, the form that AVX2 cross-lane shuffles want;
//! - sequential, one byte per vector in order, for NEON and scalar code.

use vstd::prelude::*;
use vstd::arithmetic::power2::{lemma2_to64, pow2};

verus! {

/// Vectors per block.
pub const BLOCK: usize = 32;

/// How the bytes of one block and group are arranged.
#[derive(Clone, Copy, Debug, PartialEq, Eq, Structural)]
pub enum BlockLayout {
    /// Two planes of nibbles, with the vectors permuted: the x86 form.
    Interleaved,
    /// One byte per vector, in order.
    Sequential,
}

// ---------------------------------------------------------------------------
// What a row of bit planes holds
// ---------------------------------------------------------------------------

/// What every function here asks of the code parameters.
pub open spec fn valid_params(bits: int, dim: int) -> bool {
    2 <= bits <= 4 && dim >= 0 && dim % 8 == 0
}

/// Bytes that one vector takes in the bit-plane form.
pub open spec fn row_bytes(bits: int, dim: int) -> int {
    bits * (dim / 8)
}

/// The bit planes of vector `v`.
pub open spec fn row(packed_codes: Seq<u8>, bits: int, dim: int, v: int) -> Seq<u8> {
    packed_codes.subrange(v * row_bytes(bits, dim), (v + 1) * row_bytes(bits, dim))
}

/// Bit `p` of the code of coordinate `j`.
pub open spec fn plane_bit(row: Seq<u8>, dim: int, j: int, p: int) -> bool {
    row[p * (dim / 8) + j / 8] & (1u8 << ((7 - j % 8) as u8)) != 0
}

/// The low `p` bits of the code of coordinate `j`.
pub open spec fn code_low_bits(row: Seq<u8>, dim: int, j: int, p: nat) -> int
    decreases p,
{
    if p == 0 {
        0
    } else {
        let below = (p - 1) as nat;
        code_low_bits(row, dim, j, below) + if plane_bit(row, dim, j, below as int) {
            pow2(below) as int
        } else {
            0
        }
    }
}

/// The code of coordinate `j`.
pub open spec fn code(row: Seq<u8>, bits: int, dim: int, j: int) -> int {
    code_low_bits(row, dim, j, bits as nat)
}

// ---------------------------------------------------------------------------
// What a blocked byte holds
// ---------------------------------------------------------------------------

/// Coordinates that share one byte.
pub open spec fn codes_per_byte(bits: int) -> int {
    8int / bits
}

/// Each code takes its share of the byte, a power of two of values: three-bit
/// codes take a nibble, as four-bit codes do.
pub open spec fn field_radix(bits: int) -> int {
    if bits == 2 {
        4
    } else {
        16
    }
}

/// Bytes that one vector takes in the blocked form.
pub open spec fn byte_groups(bits: int, dim: int) -> int {
    dim / codes_per_byte(bits)
}

/// Blocks that `n_vectors` vectors fill, the last one perhaps in part.
pub open spec fn block_count(n_vectors: int) -> int {
    (n_vectors + BLOCK - 1) / BLOCK as int
}

/// Bytes of the whole blocked form.
pub open spec fn blocked_len(n_vectors: int, bits: int, dim: int) -> int {
    block_count(n_vectors) * byte_groups(bits, dim) * BLOCK
}

/// The first `c` codes of a group, read as the digits of one number, the first
/// coordinate the most significant.
pub open spec fn group_digits(row: Seq<u8>, bits: int, dim: int, group: int, c: nat) -> int
    decreases c,
{
    if c == 0 {
        0
    } else {
        let before = (c - 1) as nat;
        group_digits(row, bits, dim, group, before) * field_radix(bits) + code(
            row,
            bits,
            dim,
            group * codes_per_byte(bits) + before,
        )
    }
}

/// The codes of one group of a row, in one byte.
#[verifier::opaque]
pub open spec fn row_group_byte(row: Seq<u8>, bits: int, dim: int, group: int) -> u8 {
    group_digits(row, bits, dim, group, codes_per_byte(bits) as nat) as u8
}

/// The codes of one group of vector `v`, in one byte; zero past the last
/// vector.
pub open spec fn group_byte(
    packed_codes: Seq<u8>,
    n_vectors: int,
    bits: int,
    dim: int,
    v: int,
    group: int,
) -> u8 {
    if v >= n_vectors {
        0
    } else {
        row_group_byte(row(packed_codes, bits, dim, v), bits, dim, group)
    }
}

/// The vector whose nibbles take place `j` of an interleaved plane, among the
/// first sixteen of its block.
pub open spec fn perm0(j: int) -> int {
    if j % 2 == 0 {
        j / 2
    } else {
        8 + j / 2
    }
}

/// The place of vector `lane` in an interleaved plane: `perm0` undone.
pub open spec fn inv_perm0(lane: int) -> int {
    if lane < 8 {
        2 * lane
    } else {
        2 * (lane - 8) + 1
    }
}

/// The byte at place `lane` of a block's group.
#[verifier::opaque]
pub open spec fn block_byte(
    layout: BlockLayout,
    packed_codes: Seq<u8>,
    n_vectors: int,
    bits: int,
    dim: int,
    block: int,
    group: int,
    lane: int,
) -> u8 {
    let base = block * BLOCK;
    match layout {
        BlockLayout::Sequential => group_byte(
            packed_codes,
            n_vectors,
            bits,
            dim,
            base + lane,
            group,
        ),
        BlockLayout::Interleaved => {
            let low = group_byte(
                packed_codes,
                n_vectors,
                bits,
                dim,
                base + perm0(lane % 16),
                group,
            );
            let high = group_byte(
                packed_codes,
                n_vectors,
                bits,
                dim,
                base + perm0(lane % 16) + 16,
                group,
            );
            if lane < 16 {
                (low / 16 + (high / 16) * 16) as u8
            } else {
                (low % 16 + (high % 16) * 16) as u8
            }
        },
    }
}

/// The blocked form of the blocks `start_block..end_block`.
#[verifier::opaque]
pub open spec fn blocked_range(
    layout: BlockLayout,
    packed_codes: Seq<u8>,
    n_vectors: int,
    bits: int,
    dim: int,
    start_block: int,
    end_block: int,
) -> Seq<u8> {
    let groups = byte_groups(bits, dim);
    Seq::new(
        ((end_block - start_block) * groups * BLOCK) as nat,
        |i: int|
            block_byte(
                layout,
                packed_codes,
                n_vectors,
                bits,
                dim,
                start_block + i / BLOCK as int / groups,
                (i / BLOCK as int) % groups,
                i % BLOCK as int,
            ),
    )
}

/// The blocked form of all vectors.
pub open spec fn blocked(
    layout: BlockLayout,
    packed_codes: Seq<u8>,
    n_vectors: int,
    bits: int,
    dim: int,
) -> Seq<u8> {
    blocked_range(layout, packed_codes, n_vectors, bits, dim, 0, block_count(n_vectors))
}

// ---------------------------------------------------------------------------
// Bounds
// ---------------------------------------------------------------------------

/// A code of `p` bits is less than `2^p`.
proof fn lemma_code_low_bits_bound(row: Seq<u8>, dim: int, j: int, p: nat)
    requires
        p <= 4,
    ensures
        0 <= code_low_bits(row, dim, j, p) < pow2(p),
    decreases p,
{
    lemma2_to64();
    if p > 0 {
        lemma_code_low_bits_bound(row, dim, j, (p - 1) as nat);
    }
}

/// A code fits its share of the byte.
proof fn lemma_code_bound(row: Seq<u8>, bits: int, dim: int, j: int)
    requires
        2 <= bits <= 4,
    ensures
        0 <= code(row, bits, dim, j) < field_radix(bits),
{
    lemma2_to64();
    lemma_code_low_bits_bound(row, dim, j, bits as nat);
}

/// Where the bits of a coordinate lie within its vector's row.
proof fn lemma_plane_index(bits: int, dim: int, p: int, j: int)
    requires
        valid_params(bits, dim),
        0 <= p < bits,
        0 <= j < dim,
    ensures
        0 <= p * (dim / 8) + j / 8 < row_bytes(bits, dim),
{
    let plane = dim / 8;
    assert(j / 8 < plane);
    assert(0 <= p * plane && p * plane + plane <= bits * plane) by (nonlinear_arith)
        requires
            0 <= p < bits,
            plane >= 0,
    ;
}

/// Rows lie one behind the other.
pub proof fn lemma_row_bounds(packed_len: int, n_vectors: int, bits: int, dim: int, v: int)
    requires
        valid_params(bits, dim),
        packed_len == n_vectors * row_bytes(bits, dim),
        0 <= v < n_vectors,
    ensures
        0 <= row_bytes(bits, dim),
        0 <= v * row_bytes(bits, dim),
        v * row_bytes(bits, dim) + row_bytes(bits, dim) == (v + 1) * row_bytes(bits, dim),
        (v + 1) * row_bytes(bits, dim) <= packed_len,
{
    let w = row_bytes(bits, dim);
    assert(w >= 0) by (nonlinear_arith)
        requires
            w == bits * (dim / 8),
            bits >= 0,
            dim / 8 >= 0,
    ;
    assert(0 <= v * w && v * w + w == (v + 1) * w && (v + 1) * w <= n_vectors * w)
        by (nonlinear_arith)
        requires
            w >= 0,
            0 <= v < n_vectors,
    ;
}

/// The byte groups of a vector cover its coordinates exactly.
pub proof fn lemma_byte_groups(bits: int, dim: int)
    requires
        valid_params(bits, dim),
    ensures
        byte_groups(bits, dim) * codes_per_byte(bits) == dim,
        byte_groups(bits, dim) == if bits == 2 {
            dim / 4
        } else {
            dim / 2
        },
        codes_per_byte(bits) == if bits == 2 {
            4
        } else {
            2int
        },
{
    if bits == 2 {
        assert(codes_per_byte(bits) == 4);
    } else if bits == 3 {
        assert(codes_per_byte(bits) == 2);
    } else {
        assert(codes_per_byte(bits) == 2);
    }
}

// ---------------------------------------------------------------------------
// Repacking
// ---------------------------------------------------------------------------

/// The codes of one group of one vector, gathered from its bit planes into one
/// byte; zero for a vector past the last.
pub fn packed_group_byte(
    packed_codes: &[u8],
    n_vectors: usize,
    bits: usize,
    dim: usize,
    vec_idx: usize,
    group: usize,
) -> (result: u8)
    requires
        valid_params(bits as int, dim as int),
        packed_codes@.len() == n_vectors * row_bytes(bits as int, dim as int),
        group < byte_groups(bits as int, dim as int),
    ensures
        result == group_byte(
            packed_codes@,
            n_vectors as int,
            bits as int,
            dim as int,
            vec_idx as int,
            group as int,
        ),
{
    if vec_idx >= n_vectors {
        return 0;
    }
    let ghost planes = row(packed_codes@, bits as int, dim as int, vec_idx as int);
    proof {
        lemma_row_bounds(
            packed_codes@.len() as int,
            n_vectors as int,
            bits as int,
            dim as int,
            vec_idx as int,
        );
        lemma_byte_groups(bits as int, dim as int);
    }
    let packed_len: usize = packed_codes.len();
    let bytes_per_plane: usize = dim / 8;
    let per_byte: usize = 8 / bits;
    assert(row_bytes(bits as int, dim as int) <= packed_codes@.len()) by (nonlinear_arith)
        requires
            packed_codes@.len() == n_vectors * row_bytes(bits as int, dim as int),
            n_vectors >= 1,
            row_bytes(bits as int, dim as int) >= 0,
    ;
    let bytes_per_row: usize = bits * bytes_per_plane;
    let row_start: usize = vec_idx * bytes_per_row;
    let radix: u8 = if bits == 2 {
        4
    } else {
        16
    };
    assert(group * per_byte + per_byte <= dim) by (nonlinear_arith)
        requires
            group + 1 <= byte_groups(bits as int, dim as int),
            byte_groups(bits as int, dim as int) * per_byte == dim,
            per_byte >= 0,
    ;
    let dim_start: usize = group * per_byte;
    let mut byte_val: u8 = 0;
    let mut c: usize = 0;
    while c < per_byte
        invariant
            valid_params(bits as int, dim as int),
            per_byte == codes_per_byte(bits as int),
            per_byte == if bits == 2 {
                4
            } else {
                2int
            },
            radix == field_radix(bits as int),
            c <= per_byte,
            bytes_per_plane == dim / 8,
            bytes_per_row == row_bytes(bits as int, dim as int),
            row_start == vec_idx * row_bytes(bits as int, dim as int),
            row_start + bytes_per_row <= packed_len == packed_codes@.len(),
            planes == packed_codes@.subrange(row_start as int, row_start + bytes_per_row),
            dim_start == group * per_byte,
            dim_start + per_byte <= dim,
            byte_val == group_digits(planes, bits as int, dim as int, group as int, c as nat),
            c == 0 ==> byte_val == 0,
            c == 1 ==> byte_val < radix,
            bits == 2 && c == 2 ==> byte_val < 16,
            bits == 2 && c == 3 ==> byte_val < 64,
        decreases per_byte - c,
    {
        let j: usize = dim_start + c;
        let byte_in_plane: usize = j / 8;
        let bit_in_byte: u8 = 7 - (j % 8) as u8;
        let mask: u8 = 1u8 << bit_in_byte;
        let mut code: u8 = 0;
        let mut weight: u8 = 1;
        let mut p: usize = 0;
        proof {
            lemma2_to64();
        }
        while p < bits
            invariant
                valid_params(bits as int, dim as int),
                p <= bits,
                j < dim,
                byte_in_plane == j / 8,
                mask == 1u8 << ((7 - j % 8) as u8),
                bytes_per_plane == dim / 8,
                bytes_per_row == row_bytes(bits as int, dim as int),
                row_start + bytes_per_row <= packed_len == packed_codes@.len(),
                planes == packed_codes@.subrange(row_start as int, row_start + bytes_per_row),
                weight == pow2(p as nat),
                code < weight,
                code == code_low_bits(planes, dim as int, j as int, p as nat),
            decreases bits - p,
        {
            proof {
                lemma_plane_index(bits as int, dim as int, p as int, j as int);
                lemma2_to64();
                assert(p * bytes_per_plane == p * (dim as int / 8));
                assert(p * bytes_per_plane >= 0) by (nonlinear_arith);
            }
            let plane_byte: u8 = packed_codes[row_start + p * bytes_per_plane + byte_in_plane];
            assert(plane_byte == planes[p * (dim / 8) as int + j / 8]);
            if plane_byte & mask != 0 {
                code = code + weight;
            }
            weight = weight * 2;
            p = p + 1;
        }
        proof {
            lemma_code_bound(planes, bits as int, dim as int, j as int);
        }
        byte_val = byte_val * radix + code;
        c = c + 1;
    }
    proof {
        reveal(row_group_byte);
    }
    byte_val
}

/// The first `upto` bytes of a blocked form are in place.
#[verifier::opaque]
spec fn filled(
    layout: BlockLayout,
    packed_codes: Seq<u8>,
    n_vectors: int,
    bits: int,
    dim: int,
    start_block: int,
    out: Seq<u8>,
    upto: int,
) -> bool {
    let groups = byte_groups(bits, dim);
    forall|i: int|
        0 <= i < upto ==> #[trigger] out[i] == block_byte(
            layout,
            packed_codes,
            n_vectors,
            bits,
            dim,
            start_block + i / BLOCK as int / groups,
            (i / BLOCK as int) % groups,
            i % BLOCK as int,
        )
}

/// Where the bytes of a block's group lie, and that they lie within the whole.
proof fn lemma_group_offset(groups: int, n_blocks: int, block: int, group: int)
    requires
        0 <= group < groups,
        0 <= block < n_blocks,
    ensures
        0 <= (block * groups + group) * BLOCK,
        (block * groups + group) * BLOCK + BLOCK <= n_blocks * groups * BLOCK,
        0 <= block * groups,
        (block * groups + group) / groups == block,
        (block * groups + group) % groups == group,
        forall|i: int|
            #![trigger i / BLOCK as int]
            (block * groups + group) * BLOCK <= i < (block * groups + group) * BLOCK + BLOCK ==> i
                / BLOCK as int == block * groups + group && i % BLOCK as int == i - (block * groups
                + group) * BLOCK,
{
    assert(0 <= block * groups && block * groups + group + 1 <= n_blocks * groups)
        by (nonlinear_arith)
        requires
            0 <= group < groups,
            0 <= block < n_blocks,
    ;
    vstd::arithmetic::div_mod::lemma_fundamental_div_mod_converse(
        block * groups + group,
        groups,
        block,
        group,
    );
}

/// A row of finished bytes extends the finished part of the whole.
proof fn lemma_filled_group(
    layout: BlockLayout,
    packed_codes: Seq<u8>,
    n_vectors: int,
    bits: int,
    dim: int,
    start_block: int,
    n_blocks: int,
    before: Seq<u8>,
    out: Seq<u8>,
    block: int,
    group: int,
)
    requires
        0 <= group < byte_groups(bits, dim),
        0 <= block < n_blocks,
        filled(
            layout,
            packed_codes,
            n_vectors,
            bits,
            dim,
            start_block,
            before,
            (block * byte_groups(bits, dim) + group) * BLOCK,
        ),
        forall|i: int|
            0 <= i < (block * byte_groups(bits, dim) + group) * BLOCK ==> #[trigger] out[i]
                == before[i],
        forall|lane: int|
            0 <= lane < BLOCK ==> #[trigger] out[(block * byte_groups(bits, dim) + group) * BLOCK
                + lane] == block_byte(
                layout,
                packed_codes,
                n_vectors,
                bits,
                dim,
                start_block + block,
                group,
                lane,
            ),
    ensures
        filled(
            layout,
            packed_codes,
            n_vectors,
            bits,
            dim,
            start_block,
            out,
            (block * byte_groups(bits, dim) + group + 1) * BLOCK,
        ),
{
    reveal(filled);
    let groups = byte_groups(bits, dim);
    lemma_group_offset(groups, n_blocks, block, group);
    let off = (block * groups + group) * BLOCK;
    assert forall|i: int| 0 <= i < off + BLOCK implies #[trigger] out[i] == block_byte(
        layout,
        packed_codes,
        n_vectors,
        bits,
        dim,
        start_block + i / BLOCK as int / groups,
        (i / BLOCK as int) % groups,
        i % BLOCK as int,
    ) by {
        if i >= off {
            assert(out[off + (i - off)] == out[i]);
            assert(i / BLOCK as int == block * groups + group);
        }
    }
}

/// The two bytes of an interleaved group that hold the nibbles of the vector
/// at place `j` and of the one sixteen above it.
proof fn lemma_interleaved_bytes(
    packed_codes: Seq<u8>,
    n_vectors: int,
    bits: int,
    dim: int,
    block: int,
    group: int,
    j: int,
)
    requires
        0 <= j < 16,
    ensures
        ({
            let layout = BlockLayout::Interleaved;
            let v = block * BLOCK + perm0(j);
            let low = group_byte(packed_codes, n_vectors, bits, dim, v, group);
            let high = group_byte(packed_codes, n_vectors, bits, dim, v + 16, group);
            &&& block_byte(layout, packed_codes, n_vectors, bits, dim, block, group, j) == (low / 16
                + (high / 16) * 16) as u8
            &&& block_byte(layout, packed_codes, n_vectors, bits, dim, block, group, 16 + j) == (low
                % 16 + (high % 16) * 16) as u8
        }),
{
    reveal(block_byte);
    assert(j % 16 == j);
    assert((16 + j) % 16 == j);
}

/// Two high nibbles, or two low ones, side by side in one byte.
proof fn lemma_join_nibbles(a: u8, b: u8)
    ensures
        (a >> 4) | ((b >> 4) << 4) == a / 16 + (b / 16) * 16,
        (a & 0x0F) | ((b & 0x0F) << 4) == a % 16 + (b % 16) * 16,
{
    assert((a >> 4) | ((b >> 4) << 4) == a / 16 + (b / 16) * 16) by (bit_vector);
    assert((a & 0x0F) | ((b & 0x0F) << 4) == a % 16 + (b % 16) * 16) by (bit_vector);
}

/// Fills the bytes of a block's group, and leaves what lies before them.
fn fill_group(
    layout: BlockLayout,
    packed_codes: &[u8],
    n_vectors: usize,
    bits: usize,
    dim: usize,
    block_idx: usize,
    g: usize,
    out: &mut Vec<u8>,
    out_offset: usize,
)
    requires
        valid_params(bits as int, dim as int),
        packed_codes@.len() == n_vectors * row_bytes(bits as int, dim as int),
        block_idx * BLOCK + BLOCK <= usize::MAX + 1,
        g < byte_groups(bits as int, dim as int),
        out_offset + BLOCK <= old(out)@.len() <= usize::MAX,
    ensures
        final(out)@.len() == old(out)@.len(),
        forall|i: int| 0 <= i < out_offset ==> #[trigger] final(out)@[i] == old(out)@[i],
        forall|lane: int|
            0 <= lane < BLOCK ==> #[trigger] final(out)@[out_offset + lane] == block_byte(
                layout,
                packed_codes@,
                n_vectors as int,
                bits as int,
                dim as int,
                block_idx as int,
                g as int,
                lane,
            ),
{
    let base_vec: usize = block_idx * BLOCK;
    match layout {
        BlockLayout::Interleaved => {
            let mut j: usize = 0;
            while j < 16
                invariant
                    layout == BlockLayout::Interleaved,
                    j <= 16,
                    valid_params(bits as int, dim as int),
                    packed_codes@.len() == n_vectors * row_bytes(bits as int, dim as int),
                    base_vec == block_idx * BLOCK,
                    base_vec + BLOCK <= usize::MAX + 1,
                    g < byte_groups(bits as int, dim as int),
                    out@.len() == old(out)@.len(),
                    out_offset + BLOCK <= out@.len() <= usize::MAX,
                    forall|i: int| 0 <= i < out_offset ==> #[trigger] out@[i] == old(out)@[i],
                    forall|l: int|
                        0 <= l < j || 16 <= l < 16 + j ==> #[trigger] out@[out_offset + l] == block_byte(
                            layout,
                            packed_codes@,
                            n_vectors as int,
                            bits as int,
                            dim as int,
                            block_idx as int,
                            g as int,
                            l,
                        ),
                decreases 16 - j,
            {
                let va: usize = base_vec + (if j % 2 == 0 {
                    j / 2
                } else {
                    8 + j / 2
                });
                let vb: usize = va + 16;
                let ba: u8 = packed_group_byte(packed_codes, n_vectors, bits, dim, va, g);
                let bb: u8 = packed_group_byte(packed_codes, n_vectors, bits, dim, vb, g);
                proof {
                    lemma_interleaved_bytes(
                        packed_codes@,
                        n_vectors as int,
                        bits as int,
                        dim as int,
                        block_idx as int,
                        g as int,
                        j as int,
                    );
                    lemma_join_nibbles(ba, bb);
                }
                out.set(out_offset + j, (ba >> 4) | ((bb >> 4) << 4));
                out.set(out_offset + 16 + j, (ba & 0x0F) | ((bb & 0x0F) << 4));
                j = j + 1;
            }
        },
        BlockLayout::Sequential => {
            let mut lane: usize = 0;
            while lane < BLOCK
                invariant
                    layout == BlockLayout::Sequential,
                    lane <= BLOCK,
                    valid_params(bits as int, dim as int),
                    packed_codes@.len() == n_vectors * row_bytes(bits as int, dim as int),
                    base_vec == block_idx * BLOCK,
                    base_vec + BLOCK <= usize::MAX + 1,
                    g < byte_groups(bits as int, dim as int),
                    out@.len() == old(out)@.len(),
                    out_offset + BLOCK <= out@.len() <= usize::MAX,
                    forall|i: int| 0 <= i < out_offset ==> #[trigger] out@[i] == old(out)@[i],
                    forall|l: int|
                        0 <= l < lane ==> #[trigger] out@[out_offset + l] == block_byte(
                            layout,
                            packed_codes@,
                            n_vectors as int,
                            bits as int,
                            dim as int,
                            block_idx as int,
                            g as int,
                            l,
                        ),
                decreases BLOCK - lane,
            {
                let vi: usize = base_vec + lane;
                let byte: u8 = packed_group_byte(packed_codes, n_vectors, bits, dim, vi, g);
                proof {
                    reveal(block_byte);
                }
                out.set(out_offset + lane, byte);
                lane = lane + 1;
            }
        },
    }
}

/// Fills the blocks `start_block..end_block` of the given layout. Past the last
/// vector the codes are zero.
pub fn pack_block_range(
    layout: BlockLayout,
    packed_codes: &[u8],
    n_vectors: usize,
    bits: usize,
    dim: usize,
    n_byte_groups: usize,
    start_block: usize,
    end_block: usize,
    blocked_size: usize,
) -> (result: Vec<u8>)
    requires
        valid_params(bits as int, dim as int),
        packed_codes@.len() == n_vectors * row_bytes(bits as int, dim as int),
        n_byte_groups == byte_groups(bits as int, dim as int),
        end_block * BLOCK <= usize::MAX + 1,
        start_block <= end_block,
        blocked_size == (end_block - start_block) * n_byte_groups * BLOCK,
    ensures
        result@ == blocked_range(
            layout,
            packed_codes@,
            n_vectors as int,
            bits as int,
            dim as int,
            start_block as int,
            end_block as int,
        ),
{
    let ghost codes = packed_codes@;
    let ghost n_blocks = end_block - start_block;
    let mut blocked: Vec<u8> = vec![0u8; blocked_size];
    let mut block_idx: usize = start_block;
    proof {
        reveal(filled);
    }
    while block_idx < end_block
        invariant
            codes == packed_codes@,
            valid_params(bits as int, dim as int),
            packed_codes@.len() == n_vectors * row_bytes(bits as int, dim as int),
            n_byte_groups == byte_groups(bits as int, dim as int),
            end_block * BLOCK <= usize::MAX + 1,
            start_block <= block_idx <= end_block,
            n_blocks == end_block - start_block,
            blocked@.len() == blocked_size == n_blocks * n_byte_groups * BLOCK,
            filled(
                layout,
                codes,
                n_vectors as int,
                bits as int,
                dim as int,
                start_block as int,
                blocked@,
                (block_idx - start_block) * n_byte_groups * BLOCK,
            ),
        decreases end_block - block_idx,
    {
        let ghost block = block_idx - start_block;
        let mut g: usize = 0;
        while g < n_byte_groups
            invariant
                codes == packed_codes@,
                valid_params(bits as int, dim as int),
                packed_codes@.len() == n_vectors * row_bytes(bits as int, dim as int),
                n_byte_groups == byte_groups(bits as int, dim as int),
                end_block * BLOCK <= usize::MAX + 1,
                start_block <= block_idx < end_block,
                block == block_idx - start_block,
                n_blocks == end_block - start_block,
                blocked@.len() == blocked_size == n_blocks * n_byte_groups * BLOCK,
                g <= n_byte_groups,
                filled(
                    layout,
                    codes,
                    n_vectors as int,
                    bits as int,
                    dim as int,
                    start_block as int,
                    blocked@,
                    (block * n_byte_groups + g) * BLOCK,
                ),
            decreases n_byte_groups - g,
        {
            proof {
                lemma_group_offset(n_byte_groups as int, n_blocks, block, g as int);
            }
            let out_offset: usize = ((block_idx - start_block) * n_byte_groups + g) * BLOCK;
            let ghost before = blocked@;
            fill_group(
                layout,
                packed_codes,
                n_vectors,
                bits,
                dim,
                block_idx,
                g,
                &mut blocked,
                out_offset,
            );
            proof {
                lemma_filled_group(
                    layout,
                    codes,
                    n_vectors as int,
                    bits as int,
                    dim as int,
                    start_block as int,
                    n_blocks,
                    before,
                    blocked@,
                    block,
                    g as int,
                );
            }
            g = g + 1;
        }
        assert((block * n_byte_groups + n_byte_groups) * BLOCK == (block + 1) * n_byte_groups
            * BLOCK) by (nonlinear_arith);
        block_idx = block_idx + 1;
    }
    proof {
        reveal(filled);
        reveal(blocked_range);
    }
    assert(blocked@ =~= blocked_range(
        layout,
        codes,
        n_vectors as int,
        bits as int,
        dim as int,
        start_block as int,
        end_block as int,
    ));
    blocked
}

/// A block number, held to the blocks that there are.
pub open spec fn clamp_block(n_vectors: int, block: int) -> int {
    if block <= block_count(n_vectors) {
        block
    } else {
        block_count(n_vectors)
    }
}

/// Repacks bit-plane codes for a contiguous range of blocks.
///
/// `start_block` and `end_block` count blocks of thirty-two vectors; what lies
/// past the last block is left out. The returned bytes are those that the full
/// blocked form has from `start_block` on.
pub fn repack_block_range(
    layout: BlockLayout,
    packed_codes: &[u8],
    n_vectors: usize,
    bits: usize,
    dim: usize,
    start_block: usize,
    end_block: usize,
) -> (result: Vec<u8>)
    requires
        valid_params(bits as int, dim as int),
        packed_codes@.len() == n_vectors * row_bytes(bits as int, dim as int),
        n_vectors + BLOCK - 1 <= usize::MAX,
        (clamp_block(n_vectors as int, end_block as int) - clamp_block(
            n_vectors as int,
            start_block as int,
        )) * byte_groups(bits as int, dim as int) * BLOCK <= usize::MAX,
    ensures
        start_block < end_block ==> result@ == blocked_range(
            layout,
            packed_codes@,
            n_vectors as int,
            bits as int,
            dim as int,
            clamp_block(n_vectors as int, start_block as int),
            clamp_block(n_vectors as int, end_block as int),
        ),
        start_block >= end_block ==> result@ == Seq::<u8>::empty(),
{
    proof {
        lemma_byte_groups(bits as int, dim as int);
    }
    let codes_in_byte: usize = 8 / bits;
    let n_byte_groups: usize = dim / codes_in_byte;
    let n_blocks: usize = (n_vectors + (BLOCK - 1)) / BLOCK;
    let start: usize = if start_block <= n_blocks {
        start_block
    } else {
        n_blocks
    };
    let end: usize = if end_block <= n_blocks {
        end_block
    } else {
        n_blocks
    };
    if start >= end {
        let empty: Vec<u8> = Vec::new();
        proof {
            if start_block < end_block {
                reveal(blocked_range);
                assert((end - start) * byte_groups(bits as int, dim as int) * BLOCK == 0)
                    by (nonlinear_arith)
                    requires
                        end == start,
                ;
                assert(empty@ =~= blocked_range(
                    layout,
                    packed_codes@,
                    n_vectors as int,
                    bits as int,
                    dim as int,
                    start as int,
                    end as int,
                ));
            }
        }
        return empty;
    }
    assert(0 <= (end - start) * n_byte_groups) by (nonlinear_arith)
        requires
            start < end,
            n_byte_groups >= 0,
    ;
    let blocked_size: usize = (end - start) * n_byte_groups * BLOCK;
    pack_block_range(
        layout,
        packed_codes,
        n_vectors,
        bits,
        dim,
        n_byte_groups,
        start,
        end,
        blocked_size,
    )
}

/// Repacks bit-plane codes into the blocked form. Returns the blocked codes
/// and the number of blocks.
pub fn repack(
    layout: BlockLayout,
    packed_codes: &[u8],
    n_vectors: usize,
    bits: usize,
    dim: usize,
) -> (result: (Vec<u8>, usize))
    requires
        valid_params(bits as int, dim as int),
        packed_codes@.len() == n_vectors * row_bytes(bits as int, dim as int),
        n_vectors + BLOCK - 1 <= usize::MAX,
        blocked_len(n_vectors as int, bits as int, dim as int) <= usize::MAX,
    ensures
        result.0@ == blocked(
            layout,
            packed_codes@,
            n_vectors as int,
            bits as int,
            dim as int,
        ),
        result.1 == block_count(n_vectors as int),
{
    let n_blocks: usize = (n_vectors + (BLOCK - 1)) / BLOCK;
    let bytes: Vec<u8> = repack_block_range(layout, packed_codes, n_vectors, bits, dim, 0, n_blocks);
    proof {
        if n_blocks == 0 {
            reveal(blocked_range);
            assert(n_blocks * byte_groups(bits as int, dim as int) * BLOCK == 0)
                by (nonlinear_arith)
                requires
                    n_blocks == 0,
            ;
            assert(bytes@ =~= blocked(
                layout,
                packed_codes@,
                n_vectors as int,
                bits as int,
                dim as int,
            ));
        }
    }
    (bytes, n_blocks)
}

// ---------------------------------------------------------------------------
// Reading the interleaved form back
// ---------------------------------------------------------------------------

/// The code byte of vector `lane`, put together from the two planes of
/// nibbles of the interleaved group that starts at `group_off`.
pub open spec fn deinterleaved(blocked: Seq<u8>, group_off: int, lane: int) -> u8 {
    let j = inv_perm0(lane % 16);
    let hi_plane = blocked[group_off + j];
    let lo_plane = blocked[group_off + 16 + j];
    if lane < 16 {
        ((hi_plane % 16) * 16 + lo_plane % 16) as u8
    } else {
        ((hi_plane / 16) * 16 + lo_plane / 16) as u8
    }
}

/// Reconstructs the sequential code byte of vector `lane` of a block's group
/// from the interleaved layout.
pub fn deinterleave_x86_code_byte(blocked: &[u8], group_off: usize, lane: usize) -> (result: u8)
    requires
        group_off + 16 + inv_perm0(lane as int % 16) < blocked@.len(),
    ensures
        result == deinterleaved(blocked@, group_off as int, lane as int),
{
    let blocked_len: usize = blocked.len();
    let low_lane: usize = lane % 16;
    let j: usize = if low_lane < 8 {
        2 * low_lane
    } else {
        2 * (low_lane - 8) + 1
    };
    let hi_plane: u8 = blocked[group_off + j];
    let lo_plane: u8 = blocked[group_off + 16 + j];
    proof {
        lemma_split_nibbles(hi_plane, lo_plane);
    }
    if lane < 16 {
        ((hi_plane & 0x0F) << 4) | (lo_plane & 0x0F)
    } else {
        ((hi_plane >> 4) << 4) | (lo_plane >> 4)
    }
}

/// One nibble of each byte, the first above the second.
proof fn lemma_split_nibbles(h: u8, l: u8)
    ensures
        ((h & 0x0F) << 4) | (l & 0x0F) == (h % 16) * 16 + l % 16,
        ((h >> 4) << 4) | (l >> 4) == (h / 16) * 16 + l / 16,
{
    assert(((h & 0x0F) << 4) | (l & 0x0F) == (h % 16) * 16 + l % 16) by (bit_vector);
    assert(((h >> 4) << 4) | (l >> 4) == (h / 16) * 16 + l / 16) by (bit_vector);
}

// ---------------------------------------------------------------------------
// Laws
// ---------------------------------------------------------------------------

/// The length of the blocked form.
pub proof fn lemma_blocked_len(
    layout: BlockLayout,
    packed_codes: Seq<u8>,
    n_vectors: int,
    bits: int,
    dim: int,
)
    requires
        valid_params(bits, dim),
        n_vectors >= 0,
    ensures
        blocked(layout, packed_codes, n_vectors, bits, dim).len() == blocked_len(
            n_vectors,
            bits,
            dim,
        ),
        n_vectors == 0 ==> blocked_len(n_vectors, bits, dim) == 0,
{
    reveal(blocked_range);
    lemma_byte_groups(bits, dim);
    assert(block_count(n_vectors) * byte_groups(bits, dim) >= 0) by (nonlinear_arith)
        requires
            block_count(n_vectors) >= 0,
            byte_groups(bits, dim) >= 0,
    ;
    assert((block_count(n_vectors) - 0) * byte_groups(bits, dim) == block_count(n_vectors)
        * byte_groups(bits, dim));
    if n_vectors == 0 {
        assert(block_count(0) == 0);
        assert(0 * byte_groups(bits, dim) == 0);
    }
}

/// Every byte of a range of blocks, by block, group and lane.
pub proof fn lemma_blocked_range_at(
    layout: BlockLayout,
    packed_codes: Seq<u8>,
    n_vectors: int,
    bits: int,
    dim: int,
    start_block: int,
    end_block: int,
    block: int,
    group: int,
    lane: int,
)
    requires
        start_block <= block < end_block,
        0 <= group < byte_groups(bits, dim),
        0 <= lane < BLOCK,
    ensures
        0 <= ((block - start_block) * byte_groups(bits, dim) + group) * BLOCK + lane
            < blocked_range(
            layout,
            packed_codes,
            n_vectors,
            bits,
            dim,
            start_block,
            end_block,
        ).len(),
        blocked_range(
            layout,
            packed_codes,
            n_vectors,
            bits,
            dim,
            start_block,
            end_block,
        )[((block - start_block) * byte_groups(bits, dim) + group) * BLOCK + lane] == block_byte(
            layout,
            packed_codes,
            n_vectors,
            bits,
            dim,
            block,
            group,
            lane,
        ),
{
    reveal(blocked_range);
    let groups = byte_groups(bits, dim);
    lemma_group_offset(groups, end_block - start_block, block - start_block, group);
    let i = ((block - start_block) * groups + group) * BLOCK + lane;
    assert(i / BLOCK as int == (block - start_block) * groups + group);
}

/// The bytes of a range of blocks, spelled out: in the interleaved layout a
/// byte of high nibbles and a byte of low ones for each pair of vectors sixteen
/// apart, in the sequential layout the code byte of each vector. Past the last
/// vector the codes are zero.
pub proof fn lemma_range_bytes(
    packed_codes: Seq<u8>,
    n_vectors: int,
    bits: int,
    dim: int,
    start_block: int,
    end_block: int,
    block: int,
    group: int,
    j: int,
    lane: int,
)
    requires
        start_block <= block < end_block,
        0 <= group < byte_groups(bits, dim),
        0 <= j < 16,
        0 <= lane < BLOCK,
    ensures
        ({
            let interleaved = blocked_range(
                BlockLayout::Interleaved,
                packed_codes,
                n_vectors,
                bits,
                dim,
                start_block,
                end_block,
            );
            let sequential = blocked_range(
                BlockLayout::Sequential,
                packed_codes,
                n_vectors,
                bits,
                dim,
                start_block,
                end_block,
            );
            let o = ((block - start_block) * byte_groups(bits, dim) + group) * BLOCK;
            let v = block * BLOCK + j / 2 + 8 * (j % 2);
            let a = group_byte(packed_codes, n_vectors, bits, dim, v, group);
            let b = group_byte(packed_codes, n_vectors, bits, dim, v + 16, group);
            &&& interleaved.len() == sequential.len() == (end_block - start_block) * byte_groups(
                bits,
                dim,
            ) * BLOCK
            &&& interleaved[o + j] == (a >> 4) | ((b >> 4) << 4)
            &&& interleaved[o + 16 + j] == (a & 0x0F) | ((b & 0x0F) << 4)
            &&& sequential[o + lane] == group_byte(
                packed_codes,
                n_vectors,
                bits,
                dim,
                block * BLOCK + lane,
                group,
            )
        }),
{
    let v = block * BLOCK + perm0(j);
    lemma_interleaved_bytes(packed_codes, n_vectors, bits, dim, block, group, j);
    lemma_join_nibbles(
        group_byte(packed_codes, n_vectors, bits, dim, v, group),
        group_byte(packed_codes, n_vectors, bits, dim, v + 16, group),
    );
    lemma_blocked_range_at(
        BlockLayout::Interleaved,
        packed_codes,
        n_vectors,
        bits,
        dim,
        start_block,
        end_block,
        block,
        group,
        j,
    );
    lemma_blocked_range_at(
        BlockLayout::Interleaved,
        packed_codes,
        n_vectors,
        bits,
        dim,
        start_block,
        end_block,
        block,
        group,
        16 + j,
    );
    lemma_blocked_range_at(
        BlockLayout::Sequential,
        packed_codes,
        n_vectors,
        bits,
        dim,
        start_block,
        end_block,
        block,
        group,
        lane,
    );
    reveal(blocked_range);
    reveal(block_byte);
    assert((end_block - start_block) * byte_groups(bits, dim) * BLOCK >= 0) by (nonlinear_arith)
        requires
            end_block > start_block,
            byte_groups(bits, dim) > 0,
    ;
}

/// Deinterleaving undoes the interleaved layout: the byte read back for a lane
/// is the code byte of that lane's vector, in every block and group.
pub proof fn lemma_deinterleave_undoes_interleave(
    packed_codes: Seq<u8>,
    n_vectors: int,
    bits: int,
    dim: int,
    block: int,
    group: int,
    lane: int,
)
    requires
        0 <= block < block_count(n_vectors),
        0 <= group < byte_groups(bits, dim),
        0 <= lane < BLOCK,
    ensures
        deinterleaved(
            blocked(BlockLayout::Interleaved, packed_codes, n_vectors, bits, dim),
            (block * byte_groups(bits, dim) + group) * BLOCK,
            lane,
        ) == group_byte(packed_codes, n_vectors, bits, dim, block * BLOCK + lane, group),
{
    let whole = blocked(BlockLayout::Interleaved, packed_codes, n_vectors, bits, dim);
    let off = (block * byte_groups(bits, dim) + group) * BLOCK;
    let v = block * BLOCK + lane % 16;
    lemma_interleaved_planes(packed_codes, n_vectors, bits, dim, block, group, lane % 16);
    lemma_deinterleaved_value(
        whole,
        off,
        lane,
        group_byte(packed_codes, n_vectors, bits, dim, v, group),
        group_byte(packed_codes, n_vectors, bits, dim, v + 16, group),
    );
}

/// The two bytes of an interleaved group that hold the nibbles of a lane and
/// of the lane sixteen above it.
proof fn lemma_interleaved_planes(
    packed_codes: Seq<u8>,
    n_vectors: int,
    bits: int,
    dim: int,
    block: int,
    group: int,
    lane: int,
)
    requires
        0 <= block < block_count(n_vectors),
        0 <= group < byte_groups(bits, dim),
        0 <= lane < 16,
    ensures
        ({
            let whole = blocked(BlockLayout::Interleaved, packed_codes, n_vectors, bits, dim);
            let off = (block * byte_groups(bits, dim) + group) * BLOCK;
            let v = block * BLOCK + lane;
            let low = group_byte(packed_codes, n_vectors, bits, dim, v, group);
            let high = group_byte(packed_codes, n_vectors, bits, dim, v + 16, group);
            &&& whole[off + inv_perm0(lane)] == (low / 16 + (high / 16) * 16) as u8
            &&& whole[off + 16 + inv_perm0(lane)] == (low % 16 + (high % 16) * 16) as u8
        }),
{
    let layout = BlockLayout::Interleaved;
    let n_blocks = block_count(n_vectors);
    let j = inv_perm0(lane);
    assert(0 <= j < 16 && perm0(j) == lane);
    lemma_interleaved_bytes(packed_codes, n_vectors, bits, dim, block, group, j);
    lemma_blocked_range_at(
        layout,
        packed_codes,
        n_vectors,
        bits,
        dim,
        0,
        n_blocks,
        block,
        group,
        j,
    );
    lemma_blocked_range_at(
        layout,
        packed_codes,
        n_vectors,
        bits,
        dim,
        0,
        n_blocks,
        block,
        group,
        16 + j,
    );
}

/// Two bytes split into a byte of high nibbles and a byte of low ones are put
/// together again.
proof fn lemma_deinterleaved_value(
    blocked: Seq<u8>,
    group_off: int,
    lane: int,
    low: u8,
    high: u8,
)
    requires
        0 <= lane < BLOCK,
        blocked[group_off + inv_perm0(lane % 16)] == (low / 16 + (high / 16) * 16) as u8,
        blocked[group_off + 16 + inv_perm0(lane % 16)] == (low % 16 + (high % 16) * 16) as u8,
    ensures
        deinterleaved(blocked, group_off, lane) == if lane < 16 {
            low
        } else {
            high
        },
{
}

/// In the sequential layout the byte at a lane is the code byte of that lane's
/// vector.
pub proof fn lemma_sequential_byte(
    packed_codes: Seq<u8>,
    n_vectors: int,
    bits: int,
    dim: int,
    block: int,
    group: int,
    lane: int,
)
    requires
        0 <= block < block_count(n_vectors),
        0 <= group < byte_groups(bits, dim),
        0 <= lane < BLOCK,
    ensures
        blocked(BlockLayout::Sequential, packed_codes, n_vectors, bits, dim)[(block * byte_groups(
            bits,
            dim,
        ) + group) * BLOCK + lane] == group_byte(
            packed_codes,
            n_vectors,
            bits,
            dim,
            block * BLOCK + lane,
            group,
        ),
{
    reveal(block_byte);
    lemma_blocked_range_at(
        BlockLayout::Sequential,
        packed_codes,
        n_vectors,
        bits,
        dim,
        0,
        block_count(n_vectors),
        block,
        group,
        lane,
    );
}

/// The place value of code `c` of a byte: one for the last.
pub open spec fn field_weight(bits: int, c: int) -> int {
    if bits == 2 {
        if c == 0 {
            64
        } else if c == 1 {
            16
        } else if c == 2 {
            4
        } else {
            1
        }
    } else if c == 0 {
        16
    } else {
        1
    }
}

/// Repacking loses no code: every coordinate's code can be read back out of
/// the byte of its group.
#[verifier::spinoff_prover]
#[verifier::rlimit(50)]
pub proof fn lemma_group_byte_holds_codes(row: Seq<u8>, bits: int, dim: int, j: int)
    requires
        2 <= bits <= 4,
        0 <= j < dim,
    ensures
        row_group_byte(row, bits, dim, j / codes_per_byte(bits)) as int / field_weight(
            bits,
            j % codes_per_byte(bits),
        ) % field_radix(bits) == code(row, bits, dim, j),
{
    let per_byte = codes_per_byte(bits);
    let g = j / per_byte;
    let first = g * per_byte;
    reveal(row_group_byte);
    if bits == 2 {
        assert(per_byte == 4);
        assert(j == first + j % 4);
        let (c0, c1, c2, c3) = (
            code(row, bits, dim, first),
            code(row, bits, dim, first + 1),
            code(row, bits, dim, first + 2),
            code(row, bits, dim, first + 3),
        );
        lemma_code_bound(row, bits, dim, first);
        lemma_code_bound(row, bits, dim, first + 1);
        lemma_code_bound(row, bits, dim, first + 2);
        lemma_code_bound(row, bits, dim, first + 3);
        assert(group_digits(row, bits, dim, g, 0) == 0);
        assert(group_digits(row, bits, dim, g, 1) == c0);
        assert(group_digits(row, bits, dim, g, 2) == c0 * 4 + c1);
        assert(group_digits(row, bits, dim, g, 3) == (c0 * 4 + c1) * 4 + c2);
        assert(group_digits(row, bits, dim, g, 4) == ((c0 * 4 + c1) * 4 + c2) * 4 + c3);
        lemma_base_four_digits(c0, c1, c2, c3);
        let byte = row_group_byte(row, bits, dim, g) as int;
        assert(byte == ((c0 * 4 + c1) * 4 + c2) * 4 + c3);
        assert(j % 4 == 0 || j % 4 == 1 || j % 4 == 2 || j % 4 == 3);
    } else {
        assert(per_byte == 2) by {
            if bits == 3 {
                assert(8int / 3 == 2);
            } else {
                assert(8int / 4 == 2);
            }
        }
        assert(j == first + j % 2);
        let (c0, c1) = (code(row, bits, dim, first), code(row, bits, dim, first + 1));
        lemma_code_bound(row, bits, dim, first);
        lemma_code_bound(row, bits, dim, first + 1);
        assert(group_digits(row, bits, dim, g, 0) == 0);
        assert(group_digits(row, bits, dim, g, 1) == c0);
        assert(group_digits(row, bits, dim, g, 2) == c0 * 16 + c1);
        assert((c0 * 16 + c1) / 16 % 16 == c0 && (c0 * 16 + c1) % 16 == c1);
        let byte = row_group_byte(row, bits, dim, g) as int;
        assert(byte == c0 * 16 + c1);
    }
}

/// The digits of a number to the base four.
proof fn lemma_base_four_digits(c0: int, c1: int, c2: int, c3: int)
    requires
        0 <= c0 < 4,
        0 <= c1 < 4,
        0 <= c2 < 4,
        0 <= c3 < 4,
    ensures
        ({
            let number = ((c0 * 4 + c1) * 4 + c2) * 4 + c3;
            &&& 0 <= number < 256
            &&& number / 64 % 4 == c0
            &&& number / 16 % 4 == c1
            &&& number / 4 % 4 == c2
            &&& number % 4 == c3
        }),
{
    let number = ((c0 * 4 + c1) * 4 + c2) * 4 + c3;
    assert(number / 4 == (c0 * 4 + c1) * 4 + c2);
    assert(number / 16 == c0 * 4 + c1);
    assert(number / 64 == c0);
}

/// A range of blocks, repacked by itself, is that slice of the full blocked
/// form.
pub proof fn lemma_range_is_slice(
    layout: BlockLayout,
    packed_codes: Seq<u8>,
    n_vectors: int,
    bits: int,
    dim: int,
    start_block: int,
    end_block: int,
)
    requires
        valid_params(bits, dim),
        0 <= start_block <= end_block <= block_count(n_vectors),
    ensures
        blocked_range(
            layout,
            packed_codes,
            n_vectors,
            bits,
            dim,
            start_block,
            end_block,
        ) == blocked(layout, packed_codes, n_vectors, bits, dim).subrange(
            start_block * byte_groups(bits, dim) * BLOCK,
            end_block * byte_groups(bits, dim) * BLOCK,
        ),
{
    reveal(blocked_range);
    let groups = byte_groups(bits, dim);
    let n_blocks = block_count(n_vectors);
    let part = blocked_range(layout, packed_codes, n_vectors, bits, dim, start_block, end_block);
    let whole = blocked(layout, packed_codes, n_vectors, bits, dim);
    lemma_byte_groups(bits, dim);
    assert(0 <= start_block * groups && start_block * groups <= end_block * groups && end_block
        * groups <= n_blocks * groups && (end_block - start_block) * groups == end_block * groups
        - start_block * groups) by (nonlinear_arith)
        requires
            0 <= start_block <= end_block <= n_blocks,
            groups >= 0,
    ;
    let slice = whole.subrange(start_block * groups * BLOCK, end_block * groups * BLOCK);
    assert forall|i: int| 0 <= i < part.len() implies part[i] == slice[i] by {
        let r = i / BLOCK as int;
        assert(groups > 0) by (nonlinear_arith)
            requires
                i < (end_block - start_block) * groups * BLOCK,
                i >= 0,
                groups >= 0,
        ;
        let whole_i = start_block * groups * BLOCK + i;
        assert(whole_i / BLOCK as int == start_block * groups + r);
        assert(whole_i % BLOCK as int == i % BLOCK as int);
        vstd::arithmetic::div_mod::lemma_fundamental_div_mod(r, groups);
        assert((start_block + r / groups) * groups + r % groups == start_block * groups + r)
            by (nonlinear_arith)
            requires
                r == groups * (r / groups) + r % groups,
        ;
        vstd::arithmetic::div_mod::lemma_fundamental_div_mod_converse(
            start_block * groups + r,
            groups,
            start_block + r / groups,
            r % groups,
        );
    }
    assert(part =~= slice);
}

/// Two adjoining ranges of blocks, joined, are the range that they make up.
pub proof fn lemma_ranges_join(
    layout: BlockLayout,
    packed_codes: Seq<u8>,
    n_vectors: int,
    bits: int,
    dim: int,
    first: int,
    middle: int,
    last: int,
)
    requires
        valid_params(bits, dim),
        0 <= first <= middle <= last <= block_count(n_vectors),
    ensures
        blocked_range(layout, packed_codes, n_vectors, bits, dim, first, middle) + blocked_range(
            layout,
            packed_codes,
            n_vectors,
            bits,
            dim,
            middle,
            last,
        ) == blocked_range(layout, packed_codes, n_vectors, bits, dim, first, last),
{
    let groups = byte_groups(bits, dim);
    let n_blocks = block_count(n_vectors);
    let whole = blocked(layout, packed_codes, n_vectors, bits, dim);
    lemma_byte_groups(bits, dim);
    lemma_range_is_slice(layout, packed_codes, n_vectors, bits, dim, first, middle);
    lemma_range_is_slice(layout, packed_codes, n_vectors, bits, dim, middle, last);
    lemma_range_is_slice(layout, packed_codes, n_vectors, bits, dim, first, last);
    assert(whole.len() == n_blocks * groups * BLOCK) by {
        reveal(blocked_range);
        assert(0 <= n_blocks * groups) by (nonlinear_arith)
            requires
                0 <= n_blocks,
                0 <= groups,
        ;
    }
    assert(0 <= first * groups <= middle * groups <= last * groups <= n_blocks * groups)
        by (nonlinear_arith)
        requires
            0 <= first <= middle <= last <= n_blocks,
            0 <= groups,
    ;
    assert(whole.subrange(first * groups * BLOCK, middle * groups * BLOCK) + whole.subrange(
        middle * groups * BLOCK,
        last * groups * BLOCK,
    ) =~= whole.subrange(first * groups * BLOCK, last * groups * BLOCK));
}

/// Two sets of codes agree on a vector: it is in both, with the same row, or
/// in neither.
pub open spec fn agree_on(
    codes1: Seq<u8>,
    n1: int,
    codes2: Seq<u8>,
    n2: int,
    bits: int,
    dim: int,
    v: int,
) -> bool {
    &&& v < n1 <==> v < n2
    &&& v < n1 ==> row(codes1, bits, dim, v) == row(codes2, bits, dim, v)
}

/// A block depends on its own vectors alone: if two sets of codes agree on
/// which of a block's thirty-two vectors there are and on their rows, the
/// block's bytes are the same.
pub proof fn lemma_block_depends_on_its_vectors(
    layout: BlockLayout,
    codes1: Seq<u8>,
    n1: int,
    codes2: Seq<u8>,
    n2: int,
    bits: int,
    dim: int,
    block: int,
)
    requires
        valid_params(bits, dim),
        forall|v: int|
            block * BLOCK <= v < block * BLOCK + BLOCK ==> #[trigger] agree_on(
                codes1,
                n1,
                codes2,
                n2,
                bits,
                dim,
                v,
            ),
    ensures
        blocked_range(layout, codes1, n1, bits, dim, block, block + 1) == blocked_range(
            layout,
            codes2,
            n2,
            bits,
            dim,
            block,
            block + 1,
        ),
{
    reveal(blocked_range);
    reveal(block_byte);
    let groups = byte_groups(bits, dim);
    let b1 = blocked_range(layout, codes1, n1, bits, dim, block, block + 1);
    let b2 = blocked_range(layout, codes2, n2, bits, dim, block, block + 1);
    lemma_byte_groups(bits, dim);
    assert forall|v: int, g: int| block * BLOCK <= v < block * BLOCK + BLOCK implies group_byte(
        codes1,
        n1,
        bits,
        dim,
        v,
        g,
    ) == group_byte(codes2, n2, bits, dim, v, g) by {
        assert(agree_on(codes1, n1, codes2, n2, bits, dim, v));
    }
    assert forall|i: int| 0 <= i < b1.len() implies b1[i] == b2[i] by {
        let r = i / BLOCK as int;
        assert((block + 1 - block) * groups * BLOCK == groups * BLOCK) by (nonlinear_arith);
        assert(0 <= r < groups);
        assert(r / groups == 0) by {
            vstd::arithmetic::div_mod::lemma_basic_div(r, groups);
        }
    }
    assert(b1 =~= b2);
}

// ---------------------------------------------------------------------------
// Bit by bit
// ---------------------------------------------------------------------------

/// The sizes, in numbers.
pub proof fn lemma_sizes(n_vectors: int, bits: int, dim: int, block: int)
    requires
        n_vectors >= 0,
    ensures
        BLOCK == 32,
        valid_params(bits, dim) <==> (bits == 2 || bits == 3 || bits == 4) && dim >= 0 && dim % 8
            == 0,
        row_bytes(bits, dim) == bits * (dim / 8),
        block_count(n_vectors) == (n_vectors + 31) / 32,
        bits == 2 ==> byte_groups(bits, dim) == dim / 4,
        bits == 3 || bits == 4 ==> byte_groups(bits, dim) == dim / 2,
        bits == 2 ==> blocked_len(n_vectors, bits, dim) == (n_vectors + 31) / 32 * (dim / 4) * 32,
        bits == 3 || bits == 4 ==> blocked_len(n_vectors, bits, dim) == (n_vectors + 31) / 32 * (dim
            / 2) * 32,
        block <= (n_vectors + 31) / 32 ==> clamp_block(n_vectors, block) == block,
        block >= (n_vectors + 31) / 32 ==> clamp_block(n_vectors, block) == (n_vectors + 31) / 32,
{
    assert(8int / 2 == 4 && 8int / 3 == 2 && 8int / 4 == 2);
}

/// The length of the blocked form of a range of blocks, also of an empty one.
pub proof fn lemma_range_len(
    layout: BlockLayout,
    packed_codes: Seq<u8>,
    n_vectors: int,
    bits: int,
    dim: int,
    start_block: int,
    end_block: int,
)
    requires
        bits == 2 || bits == 3 || bits == 4,
        dim >= 0,
        start_block <= end_block,
    ensures
        ({
            let groups = if bits == 2 {
                dim / 4
            } else {
                dim / 2
            };
            blocked_range(
                layout,
                packed_codes,
                n_vectors,
                bits,
                dim,
                start_block,
                end_block,
            ).len() == (end_block - start_block) * groups * 32
        }),
{
    reveal(blocked_range);
    lemma_sizes(0, bits, dim, 0);
    let groups = byte_groups(bits, dim);
    assert((end_block - start_block) * groups >= 0) by (nonlinear_arith)
        requires
            start_block <= end_block,
            groups >= 0,
    ;
}

/// A bit asked for by a mask and by a shift.
proof fn lemma_bit_by_mask(x: u8, k: u8)
    requires
        k < 8,
    ensures
        (x & (1u8 << k) != 0) <==> (x >> k) & 1 == 1,
        (x >> k) & 1 == 0 || (x >> k) & 1 == 1,
{
    assert(((x & (1u8 << k) != 0) <==> (x >> k) & 1 == 1) && ((x >> k) & 1 == 0 || (x >> k) & 1
        == 1)) by (bit_vector)
        requires
            k < 8,
    ;
}

/// The bits of a byte of two nibbles.
proof fn lemma_two_fields(byte: u8, c0: u8, c1: u8, p: u8)
    requires
        byte == c0 * 16 + c1,
        c0 < 16,
        c1 < 16,
        p < 4,
    ensures
        (byte >> p) & 1 == (c1 >> p) & 1,
        (byte >> ((4 + p) as u8)) & 1 == (c0 >> p) & 1,
{
    let q: u8 = (4 + p) as u8;
    assert((byte >> p) & 1 == (c1 >> p) & 1 && (byte >> q) & 1 == (c0 >> p) & 1) by (bit_vector)
        requires
            byte == c0 * 16 + c1,
            c0 < 16,
            c1 < 16,
            p < 4,
            q == 4 + p,
    ;
}

/// The bits of a byte of four fields of two bits.
proof fn lemma_four_fields(byte: u8, c0: u8, c1: u8, c2: u8, c3: u8, p: u8)
    requires
        byte == c0 * 64 + c1 * 16 + c2 * 4 + c3,
        c0 < 4,
        c1 < 4,
        c2 < 4,
        c3 < 4,
        p < 2,
    ensures
        (byte >> p) & 1 == (c3 >> p) & 1,
        (byte >> ((2 + p) as u8)) & 1 == (c2 >> p) & 1,
        (byte >> ((4 + p) as u8)) & 1 == (c1 >> p) & 1,
        (byte >> ((6 + p) as u8)) & 1 == (c0 >> p) & 1,
{
    let (q2, q4, q6): (u8, u8, u8) = ((2 + p) as u8, (4 + p) as u8, (6 + p) as u8);
    assert((byte >> p) & 1 == (c3 >> p) & 1 && (byte >> q2) & 1 == (c2 >> p) & 1 && (byte >> q4) & 1
        == (c1 >> p) & 1 && (byte >> q6) & 1 == (c0 >> p) & 1) by (bit_vector)
        requires
            byte == c0 * 64 + c1 * 16 + c2 * 4 + c3,
            c0 < 4,
            c1 < 4,
            c2 < 4,
            c3 < 4,
            p < 2,
            q2 == 2 + p,
            q4 == 4 + p,
            q6 == 6 + p,
    ;
}

/// The bits of a number that is put together from bits.
proof fn lemma_bits_of_sum(c: u8, b0: bool, b1: bool, b2: bool, b3: bool)
    requires
        c == (if b0 {
            1u8
        } else {
            0
        }) + (if b1 {
            2u8
        } else {
            0
        }) + (if b2 {
            4u8
        } else {
            0
        }) + (if b3 {
            8u8
        } else {
            0
        }),
    ensures
        (c >> 0u8) & 1 == if b0 {
            1u8
        } else {
            0
        },
        (c >> 1u8) & 1 == if b1 {
            1u8
        } else {
            0
        },
        (c >> 2u8) & 1 == if b2 {
            1u8
        } else {
            0
        },
        (c >> 3u8) & 1 == if b3 {
            1u8
        } else {
            0
        },
{
    assert(((c >> 0u8) & 1 == 1 <==> b0) && ((c >> 1u8) & 1 == 1 <==> b1) && ((c >> 2u8) & 1 == 1
        <==> b2) && ((c >> 3u8) & 1 == 1 <==> b3)) by (bit_vector)
        requires
            c == (if b0 {
                1u8
            } else {
                0
            }) + (if b1 {
                2u8
            } else {
                0
            }) + (if b2 {
                4u8
            } else {
                0
            }) + (if b3 {
                8u8
            } else {
                0
            }),
    ;
    lemma_bit_by_mask(c, 0);
    lemma_bit_by_mask(c, 1);
    lemma_bit_by_mask(c, 2);
    lemma_bit_by_mask(c, 3);
}

/// The bits of a code are those of its planes.
proof fn lemma_code_bits(row: Seq<u8>, bits: int, dim: int, j: int, p: int)
    requires
        2 <= bits <= 4,
        0 <= p < 4,
    ensures
        0 <= code(row, bits, dim, j) < field_radix(bits),
        (code(row, bits, dim, j) as u8 >> (p as u8)) & 1 == if p < bits && plane_bit(
            row,
            dim,
            j,
            p,
        ) {
            1u8
        } else {
            0
        },
{
    lemma_code_bound(row, bits, dim, j);
    lemma2_to64();
    let c = code(row, bits, dim, j) as u8;
    let (b0, b1) = (plane_bit(row, dim, j, 0), plane_bit(row, dim, j, 1));
    let b2 = bits > 2 && plane_bit(row, dim, j, 2);
    let b3 = bits > 3 && plane_bit(row, dim, j, 3);
    reveal_with_fuel(code_low_bits, 5);
    lemma_bits_of_sum(c, b0, b1, b2, b3);
}

/// Where the bit of a plane stands in the codes.
proof fn lemma_plane_bit_source(
    packed_codes: Seq<u8>,
    n_vectors: int,
    bits: int,
    dim: int,
    v: int,
    j: int,
    p: int,
)
    requires
        valid_params(bits, dim),
        packed_codes.len() == n_vectors * row_bytes(bits, dim),
        0 <= v < n_vectors,
        0 <= j < dim,
        0 <= p < bits,
    ensures
        plane_bit(row(packed_codes, bits, dim, v), dim, j, p) <==> (packed_codes[v * row_bytes(
            bits,
            dim,
        ) + p * (dim / 8) + j / 8] >> ((7 - j % 8) as u8)) & 1 == 1,
{
    lemma_row_bounds(packed_codes.len() as int, n_vectors, bits, dim, v);
    lemma_plane_index(bits, dim, p, j);
    let at = p * (dim / 8) + j / 8;
    assert(row(packed_codes, bits, dim, v)[at] == packed_codes[v * row_bytes(bits, dim) + at]);
    lemma_bit_by_mask(row(packed_codes, bits, dim, v)[at], (7 - j % 8) as u8);
}

/// The code byte of a group holds, for each of its coordinates and planes, the
/// bit that the plane has for the coordinate, and nothing else: in a byte of
/// two-bit codes the first coordinate has the two highest bits, and so on down;
/// in a byte of three-bit or four-bit codes the first has the high nibble and
/// the second the low one, the highest bit of a nibble being zero where codes
/// have three bits. The bit of plane `p` for coordinate `j` is bit `7 - j % 8`
/// of byte `p * (dim / 8) + j / 8` of the vector's row. Past the last vector
/// all is zero.
#[verifier::spinoff_prover]
#[verifier::rlimit(50)]
pub proof fn lemma_group_byte_by_bits(
    packed_codes: Seq<u8>,
    n_vectors: int,
    bits: int,
    dim: int,
    v: int,
    j: int,
    p: int,
)
    requires
        bits == 2 || bits == 3 || bits == 4,
        dim >= 0,
        dim % 8 == 0,
        n_vectors >= 0,
        packed_codes.len() == n_vectors * (bits * (dim / 8)),
        0 <= v,
        0 <= j < dim,
        0 <= p < 4,
        bits == 2 ==> p < 2,
    ensures
        ({
            let source = if v < n_vectors && p < bits {
                (packed_codes[v * (bits * (dim / 8)) + p * (dim / 8) + j / 8] >> ((7 - j
                    % 8) as u8)) & 1
            } else {
                0
            };
            &&& bits == 2 ==> (group_byte(packed_codes, n_vectors, bits, dim, v, j / 4) >> ((2 * (3
                - j % 4) + p) as u8)) & 1 == source
            &&& bits > 2 ==> (group_byte(packed_codes, n_vectors, bits, dim, v, j / 2) >> ((4 * (1
                - j % 2) + p) as u8)) & 1 == source
        }),
{
    lemma_sizes(n_vectors, bits, dim, 0);
    if v >= n_vectors {
        let (a, b): (u8, u8) = ((2 * (3 - j % 4) + p) as u8, (4 * (1 - j % 2) + p) as u8);
        assert((0u8 >> a) & 1 == 0 && (0u8 >> b) & 1 == 0) by (bit_vector);
    } else {
        let r = row(packed_codes, bits, dim, v);
        reveal(row_group_byte);
        if p < bits {
            lemma_plane_bit_source(packed_codes, n_vectors, bits, dim, v, j, p);
            lemma_bit_by_mask(
                packed_codes[v * row_bytes(bits, dim) + p * (dim / 8) + j / 8],
                (7 - j % 8) as u8,
            );
        }
        lemma_code_bits(r, bits, dim, j, p);
        if bits == 2 {
            let g = j / 4;
            let first = g * 4;
            assert(j == first + j % 4);
            let (c0, c1) = (code(r, bits, dim, first), code(r, bits, dim, first + 1));
            let (c2, c3) = (code(r, bits, dim, first + 2), code(r, bits, dim, first + 3));
            lemma_code_bound(r, bits, dim, first);
            lemma_code_bound(r, bits, dim, first + 1);
            lemma_code_bound(r, bits, dim, first + 2);
            lemma_code_bound(r, bits, dim, first + 3);
            assert(codes_per_byte(bits) == 4);
            assert(group_digits(r, bits, dim, g, 0) == 0);
            assert(group_digits(r, bits, dim, g, 1) == c0);
            assert(group_digits(r, bits, dim, g, 2) == c0 * 4 + c1);
            assert(group_digits(r, bits, dim, g, 3) == (c0 * 4 + c1) * 4 + c2);
            assert(group_digits(r, bits, dim, g, 4) == ((c0 * 4 + c1) * 4 + c2) * 4 + c3);
            lemma_four_fields(
                row_group_byte(r, bits, dim, g),
                c0 as u8,
                c1 as u8,
                c2 as u8,
                c3 as u8,
                p as u8,
            );
        } else {
            let g = j / 2;
            let first = g * 2;
            assert(j == first + j % 2);
            assert(codes_per_byte(bits) == 2) by {
                if bits == 3 {
                    assert(8int / 3 == 2);
                } else {
                    assert(8int / 4 == 2);
                }
            }
            let (c0, c1) = (code(r, bits, dim, first), code(r, bits, dim, first + 1));
            lemma_code_bound(r, bits, dim, first);
            lemma_code_bound(r, bits, dim, first + 1);
            assert(group_digits(r, bits, dim, g, 0) == 0);
            assert(group_digits(r, bits, dim, g, 1) == c0);
            assert(group_digits(r, bits, dim, g, 2) == c0 * 16 + c1);
            lemma_two_fields(row_group_byte(r, bits, dim, g), c0 as u8, c1 as u8, p as u8);
        }
    }
}

/// Two nibbles from two bytes, bit by bit.
proof fn lemma_nibble_bits(low: u8, high: u8, q: u8)
    requires
        q < 4,
    ensures
        ((low / 16 + (high / 16) * 16) as u8 >> q) & 1 == (low >> ((4 + q) as u8)) & 1,
        ((low / 16 + (high / 16) * 16) as u8 >> ((4 + q) as u8)) & 1 == (high >> ((4 + q) as u8))
            & 1,
        ((low % 16 + (high % 16) * 16) as u8 >> q) & 1 == (low >> q) & 1,
        ((low % 16 + (high % 16) * 16) as u8 >> ((4 + q) as u8)) & 1 == (high >> q) & 1,
{
    let t: u8 = (4 + q) as u8;
    let hi: u8 = (low / 16 + (high / 16) * 16) as u8;
    let lo: u8 = (low % 16 + (high % 16) * 16) as u8;
    assert(hi == low / 16 + (high / 16) * 16 && lo == low % 16 + (high % 16) * 16);
    assert((hi >> q) & 1 == (low >> t) & 1 && (hi >> t) & 1 == (high >> t) & 1 && (lo >> q) & 1 == (
    low >> q) & 1 && (lo >> t) & 1 == (high >> q) & 1) by (bit_vector)
        requires
            q < 4,
            t == 4 + q,
            hi == low / 16 + (high / 16) * 16,
            lo == low % 16 + (high % 16) * 16,
    ;
}

/// The blocked form holds the code bytes of all vectors, bit by bit. Sequential:
/// one byte for each vector of a block and each group. Interleaved: for each
/// group sixteen bytes of high nibbles and then sixteen of low ones, where the
/// vectors of a block share a byte with the vector sixteen further on, the
/// first eight on the even places and the next eight on the odd ones.
pub proof fn lemma_blocked_by_bits(
    packed_codes: Seq<u8>,
    n_vectors: int,
    bits: int,
    dim: int,
    v: int,
    group: int,
    bit: int,
)
    requires
        bits == 2 || bits == 3 || bits == 4,
        dim >= 0,
        dim % 8 == 0,
        n_vectors >= 0,
        0 <= v < (n_vectors + 31) / 32 * 32,
        bits == 2 ==> 0 <= group < dim / 4,
        bits > 2 ==> 0 <= group < dim / 2,
        0 <= bit < 8,
    ensures
        ({
            let groups = if bits == 2 {
                dim / 4
            } else {
                dim / 2
            };
            let sequential = blocked(BlockLayout::Sequential, packed_codes, n_vectors, bits, dim);
            let interleaved = blocked(BlockLayout::Interleaved, packed_codes, n_vectors, bits, dim);
            let code_byte = group_byte(packed_codes, n_vectors, bits, dim, v, group);
            let off = (v / 32 * groups + group) * 32;
            let lane = v % 32;
            let place = if lane % 16 < 8 {
                2 * (lane % 16)
            } else {
                2 * (lane % 16 - 8) + 1
            };
            let nibble = if bit >= 4 {
                off + place
            } else {
                off + 16 + place
            };
            &&& sequential.len() == (n_vectors + 31) / 32 * groups * 32
            &&& interleaved.len() == (n_vectors + 31) / 32 * groups * 32
            &&& sequential[off + lane] == code_byte
            &&& (interleaved[nibble] >> ((bit % 4 + 4 * (lane / 16)) as u8)) & 1 == (code_byte >> (
            bit as u8)) & 1
        }),
{
    lemma_sizes(n_vectors, bits, dim, 0);
    let block = v / 32;
    let lane = v % 32;
    let base = block * 32;
    let l = lane % 16;
    lemma_blocked_len(BlockLayout::Sequential, packed_codes, n_vectors, bits, dim);
    lemma_blocked_len(BlockLayout::Interleaved, packed_codes, n_vectors, bits, dim);
    lemma_sequential_byte(packed_codes, n_vectors, bits, dim, block, group, lane);
    lemma_interleaved_planes(packed_codes, n_vectors, bits, dim, block, group, l);
    let low = group_byte(packed_codes, n_vectors, bits, dim, base + l, group);
    let high = group_byte(packed_codes, n_vectors, bits, dim, base + l + 16, group);
    lemma_nibble_bits(low, high, (bit % 4) as u8);
    if lane < 16 {
        assert(base + l == v);
    } else {
        assert(base + l + 16 == v);
    }
}

/// A code byte read back from the interleaved layout, nibble by nibble.
pub proof fn lemma_deinterleaved_by_nibbles(blocked: Seq<u8>, group_off: int, lane: int)
    requires
        0 <= lane,
    ensures
        ({
            let place = if lane % 16 < 8 {
                2 * (lane % 16)
            } else {
                2 * (lane % 16 - 8) + 1
            };
            let (hi, lo) = (blocked[group_off + place], blocked[group_off + 16 + place]);
            let byte = deinterleaved(blocked, group_off, lane);
            &&& lane < 16 ==> byte / 16 == hi % 16 && byte % 16 == lo % 16
            &&& lane >= 16 ==> byte / 16 == hi / 16 && byte % 16 == lo / 16
        }),
{
}

} // verus!
