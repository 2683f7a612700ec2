//! Codebook files.
//!
//! A codebook is the pair of quantization boundaries and centroids for one
//! `(bits, dim)` key. Its file holds a magic word, a format version, the key,
//! the two lengths, and then the values, all little-endian. Reading and
//! writing a file takes and gives its bytes; where they lie is the caller's
//! affair.

use vstd::prelude::*;
use vstd::string::StringExecFns;

use crate::bytes::{push_f32_array, push_u32, read_f32_array, read_u32, read_u8, ByteReader};
use crate::float32::Float32;
use crate::text::append_decimal;

verus! {

/// The first four bytes of a codebook file, `TVCB`, as a word.
pub const CODEBOOK_MAGIC: u32 = 0x4243_5654;

/// The file format that this library writes and reads.
pub const CODEBOOK_VERSION: u8 = 1;

/// Boundaries and centroids.
pub type CodebookParts = (Vec<Float32>, Vec<Float32>);

/// What class of failure an error belongs to.
#[derive(Clone, Copy, Debug, PartialEq, Eq, Structural)]
pub enum ErrorKind {
    /// The caller asked for something that cannot be.
    InvalidInput,
    /// A file does not hold what it should.
    InvalidData,
    /// A file ended too early.
    UnexpectedEof,
}

/// Why a codebook was not accepted.
#[derive(Clone, Copy, Debug, PartialEq, Eq, Structural)]
pub enum CodebookError {
    /// The bit width is not two, three or four.
    BitsOutOfRange { bits: usize },
    /// The dimension is less than two or does not fit a word.
    DimOutOfRange { dim: usize },
    /// The caller's boundaries or centroids have the wrong length for the bit
    /// width.
    LengthMismatch {
        expected_boundaries: usize,
        expected_centroids: usize,
        boundaries: usize,
        centroids: usize,
    },
    /// The file ended too early.
    UnexpectedEof,
    /// The file does not start with the magic word.
    WrongMagic,
    /// The file is of another format version.
    UnsupportedVersion { version: u8 },
    /// The file holds the codebook of another key.
    KeyMismatch { file_bits: usize, file_dim: usize, bits: usize, dim: usize },
    /// The file declares the wrong lengths for its bit width.
    InvalidLengths {
        boundaries: usize,
        centroids: usize,
        expected_boundaries: usize,
        expected_centroids: usize,
    },
}

impl CodebookError {
    /// The class of the failure.
    pub open spec fn spec_kind(self) -> ErrorKind {
        match self {
            CodebookError::BitsOutOfRange { .. } => ErrorKind::InvalidInput,
            CodebookError::DimOutOfRange { .. } => ErrorKind::InvalidInput,
            CodebookError::LengthMismatch { .. } => ErrorKind::InvalidInput,
            CodebookError::UnexpectedEof => ErrorKind::UnexpectedEof,
            CodebookError::WrongMagic => ErrorKind::InvalidData,
            CodebookError::UnsupportedVersion { .. } => ErrorKind::InvalidData,
            CodebookError::KeyMismatch { .. } => ErrorKind::InvalidData,
            CodebookError::InvalidLengths { .. } => ErrorKind::InvalidData,
        }
    }

    /// The class of the failure.
    pub fn kind(&self) -> (result: ErrorKind)
        ensures
            result == self.spec_kind(),
    {
        match self {
            CodebookError::BitsOutOfRange { .. } => ErrorKind::InvalidInput,
            CodebookError::DimOutOfRange { .. } => ErrorKind::InvalidInput,
            CodebookError::LengthMismatch { .. } => ErrorKind::InvalidInput,
            CodebookError::UnexpectedEof => ErrorKind::UnexpectedEof,
            CodebookError::WrongMagic => ErrorKind::InvalidData,
            CodebookError::UnsupportedVersion { .. } => ErrorKind::InvalidData,
            CodebookError::KeyMismatch { .. } => ErrorKind::InvalidData,
            CodebookError::InvalidLengths { .. } => ErrorKind::InvalidData,
        }
    }

    /// The failure in words.
    pub open spec fn message_text(self) -> Seq<char> {
        match self {
            CodebookError::BitsOutOfRange { bits } => "bits must be 2, 3, or 4, got "@
                + crate::text::decimal_text(bits as nat),
            CodebookError::DimOutOfRange { dim } => "dim must be in 2..=4294967295, got "@
                + crate::text::decimal_text(dim as nat),
            CodebookError::LengthMismatch {
                expected_boundaries,
                expected_centroids,
                boundaries,
                centroids,
            } => "codebook lengths must be boundaries="@ + crate::text::decimal_text(
                expected_boundaries as nat,
            ) + ", centroids="@ + crate::text::decimal_text(expected_centroids as nat)
                + "; got boundaries="@ + crate::text::decimal_text(boundaries as nat)
                + ", centroids="@ + crate::text::decimal_text(centroids as nat),
            CodebookError::UnexpectedEof => "failed to fill whole buffer"@,
            CodebookError::WrongMagic => "not a turbovec codebook file: wrong magic"@,
            CodebookError::UnsupportedVersion { version } =>
                "unsupported codebook format version: "@ + crate::text::decimal_text(
                version as nat,
            ),
            CodebookError::KeyMismatch { file_bits, file_dim, bits, dim } =>
                "codebook key mismatch: file has bits="@ + crate::text::decimal_text(
                file_bits as nat,
            ) + ", dim="@ + crate::text::decimal_text(file_dim as nat) + "; requested bits="@
                + crate::text::decimal_text(bits as nat) + ", dim="@ + crate::text::decimal_text(
                dim as nat,
            ),
            CodebookError::InvalidLengths {
                boundaries,
                centroids,
                expected_boundaries,
                expected_centroids,
            } => "invalid codebook lengths: boundaries="@ + crate::text::decimal_text(
                boundaries as nat,
            ) + ", centroids="@ + crate::text::decimal_text(centroids as nat)
                + "; expected boundaries="@ + crate::text::decimal_text(expected_boundaries as nat)
                + ", centroids="@ + crate::text::decimal_text(expected_centroids as nat),
        }
    }

    /// The failure in words.
    pub fn message(&self) -> (result: String)
        ensures
            result@ == self.message_text(),
    {
        match *self {
            CodebookError::BitsOutOfRange { bits } => {
                let mut text: String = String::from_str("bits must be 2, 3, or 4, got ");
                append_decimal(&mut text, bits as u128);
                text
            },
            CodebookError::DimOutOfRange { dim } => {
                let mut text: String = String::from_str("dim must be in 2..=4294967295, got ");
                append_decimal(&mut text, dim as u128);
                text
            },
            CodebookError::LengthMismatch {
                expected_boundaries,
                expected_centroids,
                boundaries,
                centroids,
            } => {
                let mut text: String = String::from_str("codebook lengths must be boundaries=");
                append_decimal(&mut text, expected_boundaries as u128);
                text.append(", centroids=");
                append_decimal(&mut text, expected_centroids as u128);
                text.append("; got boundaries=");
                append_decimal(&mut text, boundaries as u128);
                text.append(", centroids=");
                append_decimal(&mut text, centroids as u128);
                text
            },
            CodebookError::UnexpectedEof => String::from_str("failed to fill whole buffer"),
            CodebookError::WrongMagic => String::from_str(
                "not a turbovec codebook file: wrong magic",
            ),
            CodebookError::UnsupportedVersion { version } => {
                let mut text: String = String::from_str("unsupported codebook format version: ");
                append_decimal(&mut text, version as u128);
                text
            },
            CodebookError::KeyMismatch { file_bits, file_dim, bits, dim } => {
                let mut text: String = String::from_str("codebook key mismatch: file has bits=");
                append_decimal(&mut text, file_bits as u128);
                text.append(", dim=");
                append_decimal(&mut text, file_dim as u128);
                text.append("; requested bits=");
                append_decimal(&mut text, bits as u128);
                text.append(", dim=");
                append_decimal(&mut text, dim as u128);
                text
            },
            CodebookError::InvalidLengths {
                boundaries,
                centroids,
                expected_boundaries,
                expected_centroids,
            } => {
                let mut text: String = String::from_str("invalid codebook lengths: boundaries=");
                append_decimal(&mut text, boundaries as u128);
                text.append(", centroids=");
                append_decimal(&mut text, centroids as u128);
                text.append("; expected boundaries=");
                append_decimal(&mut text, expected_boundaries as u128);
                text.append(", centroids=");
                append_decimal(&mut text, expected_centroids as u128);
                text
            },
        }
    }
}

// ---------------------------------------------------------------------------
// Keys and lengths
// ---------------------------------------------------------------------------

/// The number of centroids of a bit width: one for each code.
pub open spec fn centroid_count(bits: int) -> int {
    vstd::arithmetic::power2::pow2(bits as nat) as int
}

/// What is wrong with a key, if anything.
pub open spec fn params_error(bits: usize, dim: usize) -> Option<CodebookError> {
    if !(2 <= bits <= 4) {
        Some(CodebookError::BitsOutOfRange { bits })
    } else if dim < 2 || dim > u32::MAX {
        Some(CodebookError::DimOutOfRange { dim })
    } else {
        None
    }
}

/// What is wrong with a codebook for a key, if anything.
pub open spec fn parts_error(
    bits: usize,
    dim: usize,
    n_boundaries: nat,
    n_centroids: nat,
) -> Option<CodebookError> {
    if params_error(bits, dim) is Some {
        params_error(bits, dim)
    } else if n_boundaries != centroid_count(bits as int) - 1 || n_centroids != centroid_count(
        bits as int,
    ) {
        Some(
            CodebookError::LengthMismatch {
                expected_boundaries: (centroid_count(bits as int) - 1) as usize,
                expected_centroids: centroid_count(bits as int) as usize,
                boundaries: n_boundaries as usize,
                centroids: n_centroids as usize,
            },
        )
    } else {
        None
    }
}

/// The number of boundaries and of centroids for a bit width.
pub fn expected_lengths(bits: usize) -> (result: Result<(usize, usize), CodebookError>)
    ensures
        2 <= bits <= 4 ==> result is Ok && result->Ok_0.0 == centroid_count(bits as int) - 1
            && result->Ok_0.1 == centroid_count(bits as int),
        !(2 <= bits <= 4) ==> result == Err::<(usize, usize), CodebookError>(
            CodebookError::BitsOutOfRange { bits },
        ),
{
    if bits < 2 || bits > 4 {
        return Err(CodebookError::BitsOutOfRange { bits });
    }
    proof {
        vstd::arithmetic::power2::lemma2_to64();
    }
    let centroids: usize = if bits == 2 {
        4
    } else if bits == 3 {
        8
    } else {
        16
    };
    Ok((centroids - 1, centroids))
}

/// Checks a key.
pub fn validate_codebook_params(bits: usize, dim: usize) -> (result: Result<(), CodebookError>)
    ensures
        match params_error(bits, dim) {
            Some(error) => result == Err::<(), CodebookError>(error),
            None => result is Ok,
        },
{
    match expected_lengths(bits) {
        Err(error) => {
            return Err(error);
        },
        Ok(_) => {},
    }
    if dim < 2 || dim > u32::MAX as usize {
        return Err(CodebookError::DimOutOfRange { dim });
    }
    Ok(())
}

/// Checks a codebook against its key.
pub fn validate_codebook_parts(
    bits: usize,
    dim: usize,
    boundaries: &[Float32],
    centroids: &[Float32],
) -> (result: Result<(), CodebookError>)
    ensures
        match parts_error(bits, dim, boundaries@.len(), centroids@.len()) {
            Some(error) => result == Err::<(), CodebookError>(error),
            None => result is Ok,
        },
{
    let n_boundaries: usize = boundaries.len();
    let n_centroids: usize = centroids.len();
    match validate_codebook_params(bits, dim) {
        Err(error) => {
            return Err(error);
        },
        Ok(()) => {},
    }
    match expected_lengths(bits) {
        Err(error) => Err(error),
        Ok((expected_boundaries, expected_centroids)) => {
            if n_boundaries != expected_boundaries || n_centroids != expected_centroids {
                return Err(
                    CodebookError::LengthMismatch {
                        expected_boundaries,
                        expected_centroids,
                        boundaries: n_boundaries,
                        centroids: n_centroids,
                    },
                );
            }
            Ok(())
        },
    }
}

// ---------------------------------------------------------------------------
// The file
// ---------------------------------------------------------------------------

/// What comes before the values in the file of a key.
pub open spec fn header_bytes(bits: int, dim: int, n_boundaries: int, n_centroids: int) -> Seq<u8> {
    seq![0x54u8, 0x56, 0x43, 0x42] + seq![CODEBOOK_VERSION] + seq![bits as u8]
        + crate::bytes::le_bytes(dim as u32) + crate::bytes::le_bytes(n_boundaries as u32)
        + crate::bytes::le_bytes(n_centroids as u32)
}

/// The file of a codebook.
pub open spec fn file_bytes(
    bits: int,
    dim: int,
    boundaries: Seq<Float32>,
    centroids: Seq<Float32>,
) -> Seq<u8> {
    header_bytes(bits, dim, boundaries.len() as int, centroids.len() as int)
        + crate::bytes::float_bytes(boundaries) + crate::bytes::float_bytes(centroids)
}

/// What loading a file for a key gives: the codebook, or the first thing that
/// is wrong, in the order in which the file is read.
#[verifier::opaque]
pub open spec fn loaded(file: Seq<u8>, bits: usize, dim: usize) -> Result<
    (Seq<Float32>, Seq<Float32>),
    CodebookError,
> {
    let n_centroids = centroid_count(bits as int);
    let n_boundaries = n_centroids - 1;
    let file_bits = file[5] as usize;
    let file_dim = crate::bytes::le_word(file.skip(6)) as usize;
    let file_boundaries = crate::bytes::le_word(file.skip(10)) as usize;
    let file_centroids = crate::bytes::le_word(file.skip(14)) as usize;
    if params_error(bits, dim) is Some {
        Err(params_error(bits, dim)->0)
    } else if file.len() < 4 {
        Err(CodebookError::UnexpectedEof)
    } else if file.take(4) != seq![0x54u8, 0x56, 0x43, 0x42] {
        Err(CodebookError::WrongMagic)
    } else if file.len() < 5 {
        Err(CodebookError::UnexpectedEof)
    } else if file[4] != CODEBOOK_VERSION {
        Err(CodebookError::UnsupportedVersion { version: file[4] })
    } else if file.len() < 10 {
        Err(CodebookError::UnexpectedEof)
    } else if file_bits != bits || file_dim != dim {
        Err(CodebookError::KeyMismatch { file_bits, file_dim, bits, dim })
    } else if file.len() < 18 {
        Err(CodebookError::UnexpectedEof)
    } else if file_boundaries != n_boundaries || file_centroids != n_centroids {
        Err(
            CodebookError::InvalidLengths {
                boundaries: file_boundaries,
                centroids: file_centroids,
                expected_boundaries: n_boundaries as usize,
                expected_centroids: n_centroids as usize,
            },
        )
    } else if file.len() < 18 + 4 * n_boundaries + 4 * n_centroids {
        Err(CodebookError::UnexpectedEof)
    } else {
        Ok(
            (
                crate::bytes::float_words(file.skip(18), n_boundaries as nat),
                crate::bytes::float_words(file.skip(18 + 4 * n_boundaries), n_centroids as nat),
            ),
        )
    }
}

/// The magic word's bytes.
proof fn lemma_magic()
    ensures
        crate::bytes::le_bytes(CODEBOOK_MAGIC) == seq![0x54u8, 0x56, 0x43, 0x42],
{
    reveal(crate::bytes::le_bytes);
    assert(crate::bytes::le_bytes(CODEBOOK_MAGIC) =~= seq![0x54u8, 0x56, 0x43, 0x42]);
}

/// Writes the file of a codebook.
pub fn write_codebook_file(
    bits: usize,
    dim: usize,
    boundaries: &[Float32],
    centroids: &[Float32],
) -> (result: Vec<u8>)
    requires
        parts_error(bits, dim, boundaries@.len(), centroids@.len()) is None,
    ensures
        result@ == file_bytes(bits as int, dim as int, boundaries@, centroids@),
{
    proof {
        lemma_magic();
        vstd::arithmetic::power2::lemma2_to64();
    }
    let mut file: Vec<u8> = Vec::new();
    push_u32(&mut file, CODEBOOK_MAGIC);
    assert(file@ =~= seq![0x54u8, 0x56, 0x43, 0x42]);
    file.push(CODEBOOK_VERSION);
    file.push(bits as u8);
    assert(file@ =~= seq![0x54u8, 0x56, 0x43, 0x42] + seq![CODEBOOK_VERSION] + seq![bits as u8]);
    push_u32(&mut file, dim as u32);
    push_u32(&mut file, boundaries.len() as u32);
    push_u32(&mut file, centroids.len() as u32);
    push_f32_array(&mut file, boundaries);
    push_f32_array(&mut file, centroids);
    file
}

/// Checks a codebook and writes its file.
pub fn save_codebook(
    bits: usize,
    dim: usize,
    boundaries: &[Float32],
    centroids: &[Float32],
) -> (result: Result<Vec<u8>, CodebookError>)
    ensures
        match parts_error(bits, dim, boundaries@.len(), centroids@.len()) {
            Some(error) => result == Err::<Vec<u8>, CodebookError>(error),
            None => result is Ok && result->Ok_0@ == file_bytes(
                bits as int,
                dim as int,
                boundaries@,
                centroids@,
            ),
        },
{
    let (n_boundaries, n_centroids): (usize, usize) = (boundaries.len(), centroids.len());
    match validate_codebook_parts(bits, dim, boundaries, centroids) {
        Err(error) => Err(error),
        Ok(()) => Ok(write_codebook_file(bits, dim, boundaries, centroids)),
    }
}

/// Reads the file of a codebook and checks that it is the one asked for. What
/// follows the codebook in the file is ignored.
pub fn load_codebook(file: &[u8], bits: usize, dim: usize) -> (result: Result<
    CodebookParts,
    CodebookError,
>)
    ensures
        match loaded(file@, bits, dim) {
            Err(error) => result == Err::<CodebookParts, CodebookError>(error),
            Ok(parts) => result is Ok && result->Ok_0.0@ == parts.0 && result->Ok_0.1@ == parts.1,
        },
{
    proof {
        reveal(loaded);
    }
    match validate_codebook_params(bits, dim) {
        Err(error) => {
            return Err(error);
        },
        Ok(()) => {},
    }
    let mut reader: ByteReader = ByteReader::new(file);
    let magic: u32 = match read_u32(&mut reader) {
        Err(_) => {
            return Err(CodebookError::UnexpectedEof);
        },
        Ok(word) => word,
    };
    proof {
        lemma_magic();
        crate::bytes::lemma_bytes_of_le_word(file@);
        crate::bytes::lemma_le_word_of_bytes(CODEBOOK_MAGIC, file@.skip(4));
        assert(file@ =~= file@.take(4) + file@.skip(4));
    }
    if magic != CODEBOOK_MAGIC {
        return Err(CodebookError::WrongMagic);
    }
    let version: u8 = match read_u8(&mut reader) {
        Err(_) => {
            return Err(CodebookError::UnexpectedEof);
        },
        Ok(byte) => byte,
    };
    assert(reader@ =~= file@.skip(5));
    if version != CODEBOOK_VERSION {
        return Err(CodebookError::UnsupportedVersion { version });
    }
    let file_bits: usize = match read_u8(&mut reader) {
        Err(_) => {
            return Err(CodebookError::UnexpectedEof);
        },
        Ok(byte) => byte as usize,
    };
    assert(reader@ =~= file@.skip(6));
    let file_dim: usize = match read_u32(&mut reader) {
        Err(_) => {
            return Err(CodebookError::UnexpectedEof);
        },
        Ok(word) => word as usize,
    };
    assert(reader@ =~= file@.skip(10));
    if file_bits != bits || file_dim != dim {
        return Err(CodebookError::KeyMismatch { file_bits, file_dim, bits, dim });
    }
    let n_boundaries: usize = match read_u32(&mut reader) {
        Err(_) => {
            return Err(CodebookError::UnexpectedEof);
        },
        Ok(word) => word as usize,
    };
    assert(reader@ =~= file@.skip(14));
    let n_centroids: usize = match read_u32(&mut reader) {
        Err(_) => {
            return Err(CodebookError::UnexpectedEof);
        },
        Ok(word) => word as usize,
    };
    assert(reader@ =~= file@.skip(18));
    let (expected_boundaries, expected_centroids): (usize, usize) = match expected_lengths(bits) {
        Err(error) => {
            return Err(error);
        },
        Ok(lengths) => lengths,
    };
    if n_boundaries != expected_boundaries || n_centroids != expected_centroids {
        return Err(
            CodebookError::InvalidLengths {
                boundaries: n_boundaries,
                centroids: n_centroids,
                expected_boundaries,
                expected_centroids,
            },
        );
    }
    let boundaries: Vec<Float32> = match read_f32_array(&mut reader, n_boundaries) {
        Err(_) => {
            return Err(CodebookError::UnexpectedEof);
        },
        Ok(values) => values,
    };
    assert(reader@ =~= file@.skip(18 + 4 * n_boundaries));
    let centroids: Vec<Float32> = match read_f32_array(&mut reader, n_centroids) {
        Err(_) => {
            return Err(CodebookError::UnexpectedEof);
        },
        Ok(values) => values,
    };
    match validate_codebook_parts(bits, dim, boundaries.as_slice(), centroids.as_slice()) {
        Err(error) => Err(error),
        Ok(()) => Ok((boundaries, centroids)),
    }
}

// ---------------------------------------------------------------------------
// Laws
// ---------------------------------------------------------------------------

/// Where the parts of a file lie.
proof fn lemma_file_layout(
    bits: int,
    dim: int,
    boundaries: Seq<Float32>,
    centroids: Seq<Float32>,
    rest: Seq<u8>,
)
    ensures
        ({
            let file = file_bytes(bits, dim, boundaries, centroids) + rest;
            let (n_b, n_c) = (boundaries.len(), centroids.len());
            &&& file.len() == 18 + 4 * n_b + 4 * n_c + rest.len()
            &&& file.take(4) == seq![0x54u8, 0x56, 0x43, 0x42]
            &&& file[4] == CODEBOOK_VERSION
            &&& file[5] == bits as u8
            &&& crate::bytes::le_word(file.skip(6)) == dim as u32
            &&& crate::bytes::le_word(file.skip(10)) == n_b as u32
            &&& crate::bytes::le_word(file.skip(14)) == n_c as u32
            &&& file.skip(18) == crate::bytes::float_bytes(boundaries) + (
            crate::bytes::float_bytes(centroids) + rest)
            &&& file.skip(18 + 4 * n_b as int) == crate::bytes::float_bytes(centroids) + rest
        }),
{
    let (n_b, n_c) = (boundaries.len(), centroids.len());
    let b_bytes = crate::bytes::float_bytes(boundaries);
    let c_bytes = crate::bytes::float_bytes(centroids);
    let file = file_bytes(bits, dim, boundaries, centroids) + rest;
    crate::bytes::lemma_float_bytes_len(boundaries);
    crate::bytes::lemma_float_bytes_len(centroids);
    crate::bytes::lemma_le_bytes_len(dim as u32);
    crate::bytes::lemma_le_bytes_len(n_b as u32);
    crate::bytes::lemma_le_bytes_len(n_c as u32);
    assert(file.take(4) =~= seq![0x54u8, 0x56, 0x43, 0x42]);
    assert(file.skip(18) =~= b_bytes + (c_bytes + rest));
    assert(file.skip(18 + 4 * n_b as int) =~= c_bytes + rest);
    let after14 = b_bytes + c_bytes + rest;
    let after10 = crate::bytes::le_bytes(n_c as u32) + after14;
    let after6 = crate::bytes::le_bytes(n_b as u32) + after10;
    assert(file.skip(14) =~= crate::bytes::le_bytes(n_c as u32) + after14);
    assert(file.skip(10) =~= crate::bytes::le_bytes(n_b as u32) + after10);
    assert(file.skip(6) =~= crate::bytes::le_bytes(dim as u32) + after6);
    crate::bytes::lemma_le_word_of_bytes(n_c as u32, after14);
    crate::bytes::lemma_le_word_of_bytes(n_b as u32, after10);
    crate::bytes::lemma_le_word_of_bytes(dim as u32, after6);
}

/// A saved codebook loads back as it was, under the key that it was saved
/// under, whatever follows it in the file.
pub proof fn lemma_load_gives_back_saved(
    bits: usize,
    dim: usize,
    boundaries: Seq<Float32>,
    centroids: Seq<Float32>,
    rest: Seq<u8>,
)
    requires
        parts_error(bits, dim, boundaries.len(), centroids.len()) is None,
    ensures
        loaded(file_bytes(bits as int, dim as int, boundaries, centroids) + rest, bits, dim) == Ok::<
            (Seq<Float32>, Seq<Float32>),
            CodebookError,
        >((boundaries, centroids)),
{
    reveal(loaded);
    vstd::arithmetic::power2::lemma2_to64();
    lemma_file_layout(bits as int, dim as int, boundaries, centroids, rest);
    crate::bytes::lemma_float_words_of_bytes(
        boundaries,
        crate::bytes::float_bytes(centroids) + rest,
    );
    crate::bytes::lemma_float_words_of_bytes(centroids, rest);
}

/// A saved codebook is refused under every other key, with the two keys named.
pub proof fn lemma_load_refuses_other_key(
    bits: usize,
    dim: usize,
    boundaries: Seq<Float32>,
    centroids: Seq<Float32>,
    rest: Seq<u8>,
    other_bits: usize,
    other_dim: usize,
)
    requires
        parts_error(bits, dim, boundaries.len(), centroids.len()) is None,
        params_error(other_bits, other_dim) is None,
        other_bits != bits || other_dim != dim,
    ensures
        loaded(
            file_bytes(bits as int, dim as int, boundaries, centroids) + rest,
            other_bits,
            other_dim,
        ) == Err::<(Seq<Float32>, Seq<Float32>), CodebookError>(
            CodebookError::KeyMismatch {
                file_bits: bits,
                file_dim: dim,
                bits: other_bits,
                dim: other_dim,
            },
        ),
{
    reveal(loaded);
    lemma_file_layout(bits as int, dim as int, boundaries, centroids, rest);
}

/// Whatever loads is a codebook of the right lengths, and the file starts with
/// the bytes that saving it writes: there is one file form for each codebook.
pub proof fn lemma_loaded_file_is_saved_form(file: Seq<u8>, bits: usize, dim: usize)
    requires
        loaded(file, bits, dim) is Ok,
    ensures
        ({
            let (boundaries, centroids) = loaded(file, bits, dim)->Ok_0;
            let form = file_bytes(bits as int, dim as int, boundaries, centroids);
            &&& parts_error(
                bits,
                dim,
                boundaries.len(),
                centroids.len(),
            ) is None
            &&& form.len() <= file.len()
            &&& form == file.take(form.len() as int)
        }),
{
    reveal(loaded);
    vstd::arithmetic::power2::lemma2_to64();
    let (boundaries, centroids) = loaded(file, bits, dim)->Ok_0;
    let n_centroids = centroid_count(bits as int);
    let n_boundaries = n_centroids - 1;
    let form = file_bytes(bits as int, dim as int, boundaries, centroids);
    crate::bytes::lemma_bytes_of_float_words(file.skip(18), n_boundaries as nat);
    crate::bytes::lemma_bytes_of_float_words(
        file.skip(18 + 4 * n_boundaries),
        n_centroids as nat,
    );
    crate::bytes::lemma_bytes_of_le_word(file.skip(6));
    crate::bytes::lemma_bytes_of_le_word(file.skip(10));
    crate::bytes::lemma_bytes_of_le_word(file.skip(14));
    let header = header_bytes(bits as int, dim as int, n_boundaries, n_centroids);
    assert(header =~= file.take(4) + seq![file[4]] + seq![file[5]] + file.skip(6).take(4)
        + file.skip(10).take(4) + file.skip(14).take(4));
    assert(header =~= file.take(18)) by {
        assert forall|i: int| 0 <= i < 4 implies file.take(18)[i] == file.take(4)[i] by {}
        assert forall|i: int| 6 <= i < 10 implies file.take(18)[i] == file.skip(6).take(4)[i
            - 6] by {}
    }
    assert(form =~= file.take(18 + 4 * n_boundaries + 4 * n_centroids));
}

/// Which keys there are, and which error names a key that is none; and how many
/// boundaries and centroids a codebook of each bit width has.
pub proof fn lemma_keys_and_lengths(bits: usize, dim: usize, n_boundaries: nat, n_centroids: nat)
    requires
        n_boundaries <= usize::MAX,
        n_centroids <= usize::MAX,
    ensures
        params_error(bits, dim) is None <==> (bits == 2 || bits == 3 || bits == 4) && 2 <= dim
            <= 4294967295,
        bits < 2 || bits > 4 ==> params_error(bits, dim) == Some(
            CodebookError::BitsOutOfRange { bits },
        ),
        2 <= bits <= 4 && (dim < 2 || dim > 4294967295) ==> params_error(bits, dim) == Some(
            CodebookError::DimOutOfRange { dim },
        ),
        params_error(bits, dim) is Some ==> parts_error(bits, dim, n_boundaries, n_centroids)
            == params_error(bits, dim),
        params_error(bits, dim) is None ==> ({
            let levels: usize = if bits == 2 {
                4
            } else if bits == 3 {
                8
            } else {
                16
            };
            let error = parts_error(bits, dim, n_boundaries, n_centroids);
            &&& centroid_count(bits as int) == levels
            &&& error is None <==> n_boundaries == levels - 1 && n_centroids == levels
            &&& error is Some ==> error == Some(
                CodebookError::LengthMismatch {
                    expected_boundaries: (levels - 1) as usize,
                    expected_centroids: levels,
                    boundaries: n_boundaries as usize,
                    centroids: n_centroids as usize,
                },
            )
        }),
{
    vstd::arithmetic::power2::lemma2_to64();
}

/// A file, byte by byte: the letters `TVCB`, the version, the bit width, the
/// dimension, the two lengths, and then every boundary and every centroid, the
/// lowest byte of each word first.
pub proof fn lemma_file_by_bytes(
    bits: usize,
    dim: usize,
    boundaries: Seq<Float32>,
    centroids: Seq<Float32>,
    b: int,
    c: int,
)
    requires
        parts_error(bits, dim, boundaries.len(), centroids.len()) is None,
        0 <= b < boundaries.len(),
        0 <= c < centroids.len(),
    ensures
        ({
            let file = file_bytes(bits as int, dim as int, boundaries, centroids);
            let n = boundaries.len() as int;
            &&& file.len() == 18 + 4 * n + 4 * centroids.len()
            &&& file[0] == 0x54 && file[1] == 0x56 && file[2] == 0x43 && file[3] == 0x42
            &&& file[4] == 1
            &&& file[5] == bits
            &&& file[6] + 256 * file[7] + 65536 * file[8] + 16777216 * file[9] == dim
            &&& file[10] + 256 * file[11] + 65536 * file[12] + 16777216 * file[13] == n
            &&& file[14] + 256 * file[15] + 65536 * file[16] + 16777216 * file[17]
                == centroids.len()
            &&& file[18 + 4 * b] + 256 * file[18 + 4 * b + 1] + 65536 * file[18 + 4 * b + 2]
                + 16777216 * file[18 + 4 * b + 3] == boundaries[b].bits
            &&& file[18 + 4 * n + 4 * c] + 256 * file[18 + 4 * n + 4 * c + 1] + 65536 * file[18 + 4
                * n + 4 * c + 2] + 16777216 * file[18 + 4 * n + 4 * c + 3] == centroids[c].bits
        }),
{
    let file = file_bytes(bits as int, dim as int, boundaries, centroids);
    let n = boundaries.len() as int;
    vstd::arithmetic::power2::lemma2_to64();
    lemma_keys_and_lengths(bits, dim, boundaries.len(), centroids.len());
    lemma_file_layout(bits as int, dim as int, boundaries, centroids, seq![]);
    assert(file + seq![] =~= file);
    assert(file[0] == file.take(4)[0] && file[1] == file.take(4)[1] && file[2] == file.take(4)[2]
        && file[3] == file.take(4)[3]);
    crate::bytes::lemma_word_by_weights(0, file.skip(6));
    crate::bytes::lemma_word_by_weights(0, file.skip(10));
    crate::bytes::lemma_word_by_weights(0, file.skip(14));
    let b_bytes = crate::bytes::float_bytes(boundaries);
    let c_bytes = crate::bytes::float_bytes(centroids);
    crate::bytes::lemma_floats_by_weights(boundaries, b);
    crate::bytes::lemma_floats_by_weights(centroids, c);
    assert forall|i: int| 0 <= i < 4 * n implies file[18 + i] == b_bytes[i] by {
        assert(file.skip(18)[i] == file[18 + i]);
        assert((b_bytes + (c_bytes + seq![]))[i] == b_bytes[i]);
    }
    assert forall|i: int| 0 <= i < 4 * centroids.len() implies file[18 + 4 * n + i]
        == c_bytes[i] by {
        assert(file.skip(18 + 4 * n)[i] == file[18 + 4 * n + i]);
        assert((c_bytes + seq![])[i] == c_bytes[i]);
    }
    assert(file[18 + 4 * b] == b_bytes[4 * b] && file[18 + (4 * b + 1)] == b_bytes[4 * b + 1]
        && file[18 + (4 * b + 2)] == b_bytes[4 * b + 2] && file[18 + (4 * b + 3)] == b_bytes[4 * b
        + 3]);
    assert(file[18 + 4 * n + 4 * c] == c_bytes[4 * c] && file[18 + 4 * n + (4 * c + 1)]
        == c_bytes[4 * c + 1] && file[18 + 4 * n + (4 * c + 2)] == c_bytes[4 * c + 2] && file[18 + 4
        * n + (4 * c + 3)] == c_bytes[4 * c + 3]);
}

/// What a file loads as, byte by byte: which file is refused, and with which
/// error, in the order in which the file is read; and where in the file each
/// boundary and each centroid stands.
pub proof fn lemma_loaded_by_bytes(
    file: Seq<u8>,
    bits: usize,
    dim: usize,
    key_dim: usize,
    n_b: usize,
    n_c: usize,
    b: int,
    c: int,
)
    requires
        2 <= bits <= 4,
        2 <= dim <= 4294967295,
        file.len() >= 10 ==> key_dim == file[6] + 256 * file[7] + 65536 * file[8] + 16777216
            * file[9],
        file.len() >= 18 ==> n_b == file[10] + 256 * file[11] + 65536 * file[12] + 16777216
            * file[13],
        file.len() >= 18 ==> n_c == file[14] + 256 * file[15] + 65536 * file[16] + 16777216
            * file[17],
    ensures
        ({
            let levels: usize = if bits == 2 {
                4
            } else if bits == 3 {
                8
            } else {
                16
            };
            let result = loaded(file, bits, dim);
            let magic = file.len() >= 4 && file[0] == 0x54 && file[1] == 0x56 && file[2] == 0x43
                && file[3] == 0x42;
            let version = magic && file.len() >= 5 && file[4] == 1;
            let key = version && file.len() >= 10 && file[5] == bits && key_dim == dim;
            let lengths = key && file.len() >= 18 && n_b == levels - 1 && n_c == levels;
            let whole = lengths && file.len() >= 18 + 4 * (levels - 1) + 4 * levels;
            &&& result is Ok <==> whole
            &&& file.len() >= 4 && !magic ==> result->Err_0 == CodebookError::WrongMagic
            &&& magic && file.len() >= 5 && !version ==> result->Err_0
                == CodebookError::UnsupportedVersion { version: file[4] }
            &&& version && file.len() >= 10 && !key ==> result->Err_0
                == CodebookError::KeyMismatch {
                file_bits: file[5] as usize,
                file_dim: key_dim,
                bits,
                dim,
            }
            &&& key && file.len() >= 18 && !lengths ==> result->Err_0
                == CodebookError::InvalidLengths {
                boundaries: n_b,
                centroids: n_c,
                expected_boundaries: (levels - 1) as usize,
                expected_centroids: levels,
            }
            &&& file.len() < 4 || (magic && file.len() < 5) || (version && file.len() < 10) || (key
                && file.len() < 18) || (lengths && !whole) ==> result->Err_0
                == CodebookError::UnexpectedEof
            &&& whole ==> result->Ok_0.0.len() == levels - 1 && result->Ok_0.1.len() == levels
            &&& whole && 0 <= b < levels - 1 ==> result->Ok_0.0[b].bits == file[18 + 4 * b] + 256
                * file[18 + 4 * b + 1] + 65536 * file[18 + 4 * b + 2] + 16777216 * file[18 + 4 * b
                + 3]
            &&& whole && 0 <= c < levels ==> ({
                let at = 18 + 4 * (levels - 1) + 4 * c;
                result->Ok_0.1[c].bits == file[at] + 256 * file[at + 1] + 65536 * file[at + 2]
                    + 16777216 * file[at + 3]
            })
        }),
{
    reveal(loaded);
    lemma_keys_and_lengths(bits, dim, 0, 0);
    let n_centroids = centroid_count(bits as int);
    let n_boundaries = n_centroids - 1;
    if file.len() >= 4 {
        let head = file.take(4);
        if file[0] == 0x54 && file[1] == 0x56 && file[2] == 0x43 && file[3] == 0x42 {
            assert(head =~= seq![0x54u8, 0x56, 0x43, 0x42]);
        } else {
            assert(head[0] == file[0] && head[1] == file[1] && head[2] == file[2] && head[3]
                == file[3]);
        }
    }
    if file.len() >= 10 {
        crate::bytes::lemma_word_by_weights(0, file.skip(6));
    }
    if file.len() >= 18 {
        crate::bytes::lemma_word_by_weights(0, file.skip(10));
        crate::bytes::lemma_word_by_weights(0, file.skip(14));
    }
    if loaded(file, bits, dim) is Ok {
        if 0 <= b < n_boundaries {
            crate::bytes::lemma_float_words_by_weights(file.skip(18), n_boundaries as nat, b);
        }
        if 0 <= c < n_centroids {
            crate::bytes::lemma_float_words_by_weights(
                file.skip(18 + 4 * n_boundaries),
                n_centroids as nat,
                c,
            );
        }
    }
}

/// A bad key is refused before the file is looked at.
pub proof fn lemma_loading_checks_the_key_first(file: Seq<u8>, bits: usize, dim: usize)
    requires
        bits < 2 || bits > 4 || dim < 2 || dim > 4294967295,
    ensures
        loaded(file, bits, dim) is Err,
        bits < 2 || bits > 4 ==> loaded(file, bits, dim)->Err_0 == (CodebookError::BitsOutOfRange {
            bits,
        }),
        2 <= bits <= 4 ==> loaded(file, bits, dim)->Err_0 == (CodebookError::DimOutOfRange { dim }),
{
    reveal(loaded);
}

/// The class and the words of every failure.
pub proof fn lemma_failures_in_words(a: usize, b: usize, c: usize, d: usize, v: u8)
    ensures
        ({
            let text = |n: nat| crate::text::decimal_text(n);
            let bits = CodebookError::BitsOutOfRange { bits: a };
            let dim = CodebookError::DimOutOfRange { dim: a };
            let lengths = CodebookError::LengthMismatch {
                expected_boundaries: a,
                expected_centroids: b,
                boundaries: c,
                centroids: d,
            };
            let version = CodebookError::UnsupportedVersion { version: v };
            let key = CodebookError::KeyMismatch { file_bits: a, file_dim: b, bits: c, dim: d };
            let invalid = CodebookError::InvalidLengths {
                boundaries: a,
                centroids: b,
                expected_boundaries: c,
                expected_centroids: d,
            };
            &&& bits.spec_kind() == ErrorKind::InvalidInput && dim.spec_kind()
                == ErrorKind::InvalidInput && lengths.spec_kind() == ErrorKind::InvalidInput
            &&& CodebookError::UnexpectedEof.spec_kind() == ErrorKind::UnexpectedEof
            &&& CodebookError::WrongMagic.spec_kind() == ErrorKind::InvalidData
                && version.spec_kind() == ErrorKind::InvalidData && key.spec_kind()
                == ErrorKind::InvalidData && invalid.spec_kind() == ErrorKind::InvalidData
            &&& bits.message_text() == "bits must be 2, 3, or 4, got "@ + text(a as nat)
            &&& dim.message_text() == "dim must be in 2..=4294967295, got "@ + text(a as nat)
            &&& lengths.message_text() == "codebook lengths must be boundaries="@ + text(a as nat)
                + ", centroids="@ + text(b as nat) + "; got boundaries="@ + text(c as nat)
                + ", centroids="@ + text(d as nat)
            &&& CodebookError::UnexpectedEof.message_text() == "failed to fill whole buffer"@
            &&& CodebookError::WrongMagic.message_text()
                == "not a turbovec codebook file: wrong magic"@
            &&& version.message_text() == "unsupported codebook format version: "@ + text(v as nat)
            &&& key.message_text() == "codebook key mismatch: file has bits="@ + text(a as nat)
                + ", dim="@ + text(b as nat) + "; requested bits="@ + text(c as nat) + ", dim="@
                + text(d as nat)
            &&& invalid.message_text() == "invalid codebook lengths: boundaries="@ + text(a as nat)
                + ", centroids="@ + text(b as nat) + "; expected boundaries="@ + text(c as nat)
                + ", centroids="@ + text(d as nat)
        }),
{
}

} // verus!
