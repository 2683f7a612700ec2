use turbovec::pack::{
    deinterleave_x86_code_byte, pack_block_range, packed_group_byte, repack, repack_block_range,
    BlockLayout, BLOCK,
};

#[test]
fn deinterleave_x86_recovers_sequential_code_bytes() {
    let n_byte_groups = 5usize;
    let mut codes_flat = vec![vec![0u8; n_byte_groups]; BLOCK];
    let mut s = 0x1234_5678u32;
    for row in &mut codes_flat {
        for code in row {
            s = s.wrapping_mul(1_664_525).wrapping_add(1_013_904_223);
            *code = (s >> 24) as u8;
        }
    }

    let perm0: [usize; 16] = [0, 8, 1, 9, 2, 10, 3, 11, 4, 12, 5, 13, 6, 14, 7, 15];
    let mut blocked = vec![0u8; n_byte_groups * BLOCK];
    for g in 0..n_byte_groups {
        let out_offset = g * BLOCK;
        for j in 0..16 {
            let ba = codes_flat[perm0[j]][g];
            let bb = codes_flat[perm0[j] + 16][g];
            blocked[out_offset + j] = (ba >> 4) | ((bb >> 4) << 4);
            blocked[out_offset + 16 + j] = (ba & 0x0F) | ((bb & 0x0F) << 4);
        }
    }

    for g in 0..n_byte_groups {
        for lane in 0..BLOCK {
            assert_eq!(
                deinterleave_x86_code_byte(&blocked, g * BLOCK, lane),
                codes_flat[lane][g],
                "mismatch at lane {lane}, group {g}",
            );
        }
    }
}

/// Pseudo-random bytes.
fn noise(len: usize, seed: u32) -> Vec<u8> {
    let mut s = seed;
    let mut out = Vec::with_capacity(len);
    for _ in 0..len {
        s = s.wrapping_mul(1_664_525).wrapping_add(1_013_904_223);
        out.push((s >> 24) as u8);
    }
    out
}

/// The code of coordinate `j` of vector `v`, straight from the bit planes.
fn code_of(packed: &[u8], bits: usize, dim: usize, v: usize, j: usize) -> u8 {
    let plane = dim / 8;
    let mut code = 0u8;
    for p in 0..bits {
        let byte = packed[v * bits * plane + p * plane + j / 8];
        code |= ((byte >> (7 - j % 8)) & 1) << p;
    }
    code
}

/// The code byte of a group, straight from the codes.
fn expected_group_byte(
    packed: &[u8],
    n: usize,
    bits: usize,
    dim: usize,
    v: usize,
    g: usize,
) -> u8 {
    if v >= n {
        return 0;
    }
    let per_byte = 8 / bits;
    let width = if bits == 2 { 2 } else { 4 };
    let mut byte = 0u8;
    for c in 0..per_byte {
        byte |= code_of(packed, bits, dim, v, g * per_byte + c) << ((per_byte - 1 - c) * width);
    }
    byte
}

#[test]
fn group_bytes_gather_bit_planes() {
    // One vector of eight coordinates, four bits: plane p holds bit p.
    // Coordinate 0 has code 0b0001, coordinate 1 has code 0b1010.
    let packed = [0b1000_0000u8, 0b0100_0000, 0b0000_0000, 0b0100_0000];
    assert_eq!(packed_group_byte(&packed, 1, 4, 8, 0, 0), 0x1A);
    assert_eq!(packed_group_byte(&packed, 1, 4, 8, 0, 1), 0x00);
    // Three-bit codes take a nibble each.
    let packed = [0b1000_0000u8, 0b0100_0000, 0b1100_0000];
    assert_eq!(packed_group_byte(&packed, 1, 3, 8, 0, 0), 0x56);
    // Two-bit codes go four to the byte.
    let packed = [0b1010_0000u8, 0b0110_0000];
    assert_eq!(packed_group_byte(&packed, 1, 2, 8, 0, 0), 0b01_10_11_00);
    // Past the last vector there is nothing.
    assert_eq!(packed_group_byte(&packed, 1, 2, 8, 1, 0), 0);
}

#[test]
fn repack_matches_codes_in_both_layouts() {
    for &bits in &[2usize, 3, 4] {
        for &n in &[0usize, 1, 31, 32, 33, 70] {
            let dim = 24;
            let packed = noise(n * bits * dim / 8, 7 + n as u32);
            let groups = dim / (8 / bits);
            let (seq, seq_blocks) = repack(BlockLayout::Sequential, &packed, n, bits, dim);
            let (inter, inter_blocks) = repack(BlockLayout::Interleaved, &packed, n, bits, dim);
            assert_eq!(seq_blocks, (n + 31) / 32);
            assert_eq!(inter_blocks, seq_blocks);
            assert_eq!(seq.len(), seq_blocks * groups * BLOCK);
            assert_eq!(inter.len(), seq.len());
            for b in 0..seq_blocks {
                for g in 0..groups {
                    let off = (b * groups + g) * BLOCK;
                    for lane in 0..BLOCK {
                        let want = expected_group_byte(&packed, n, bits, dim, b * BLOCK + lane, g);
                        assert_eq!(seq[off + lane], want);
                        assert_eq!(deinterleave_x86_code_byte(&inter, off, lane), want);
                    }
                }
            }
        }
    }
}

#[test]
fn a_range_of_blocks_is_a_slice_of_the_whole() {
    let (n, bits, dim) = (100usize, 3usize, 16usize);
    let packed = noise(n * bits * dim / 8, 99);
    let groups = dim / 2;
    for &layout in &[BlockLayout::Sequential, BlockLayout::Interleaved] {
        let (whole, n_blocks) = repack(layout, &packed, n, bits, dim);
        assert_eq!(n_blocks, 4);
        for start in 0..6usize {
            for end in 0..6usize {
                let part = repack_block_range(layout, &packed, n, bits, dim, start, end);
                let (s, e) = (start.min(n_blocks), end.min(n_blocks));
                if s < e {
                    assert_eq!(part, whole[s * groups * BLOCK..e * groups * BLOCK].to_vec());
                } else {
                    assert!(part.is_empty());
                }
            }
        }
    }
}

#[test]
fn a_block_depends_on_its_own_vectors_alone() {
    let (n, bits, dim) = (96usize, 4usize, 8usize);
    let packed = noise(n * bits * dim / 8, 5);
    let mut other = packed.clone();
    for byte in other[64 * 4..].iter_mut() {
        *byte ^= 0xFF;
    }
    for &layout in &[BlockLayout::Sequential, BlockLayout::Interleaved] {
        for b in 0..3usize {
            let one = repack_block_range(layout, &packed, n, bits, dim, b, b + 1);
            let two = repack_block_range(layout, &other, n, bits, dim, b, b + 1);
            assert_eq!(one == two, b < 2);
        }
    }
}

#[test]
fn blocks_past_the_last_vector_are_zero() {
    let (bits, dim, n) = (4usize, 16usize, 40usize);
    let packed = noise(n * bits * dim / 8, 9);
    let groups = dim / 2;
    for layout in [BlockLayout::Interleaved, BlockLayout::Sequential] {
        let (whole, n_blocks) = repack(layout, &packed, n, bits, dim);
        assert_eq!(n_blocks, 2);
        let bytes = pack_block_range(layout, &packed, n, bits, dim, groups, 1, 4, 3 * groups * BLOCK);
        assert_eq!(bytes[..groups * BLOCK], whole[groups * BLOCK..]);
        assert!(bytes[groups * BLOCK..].iter().all(|&b| b == 0));
    }
}

#[test]
fn adjoining_ranges_join() {
    let (bits, dim, n) = (3usize, 8usize, 100usize);
    let packed = noise(n * bits * dim / 8, 3);
    for layout in [BlockLayout::Interleaved, BlockLayout::Sequential] {
        let mut joined = repack_block_range(layout, &packed, n, bits, dim, 1, 2);
        joined.extend(repack_block_range(layout, &packed, n, bits, dim, 2, 9));
        assert_eq!(joined, repack_block_range(layout, &packed, n, bits, dim, 1, 4));
        assert!(repack_block_range(layout, &packed, n, bits, dim, 3, 1).is_empty());
    }
}
