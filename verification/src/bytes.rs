//! Little-endian words in byte strings, and a reader that takes them off the
//! front.

use vstd::prelude::*;

use crate::float32::Float32;

verus! {

/// The input ended before what was asked for.
#[derive(Clone, Copy, Debug, PartialEq, Eq, Structural)]
pub struct UnexpectedEof;

/// A word as four bytes, the lowest first.
#[verifier::opaque]
pub open spec fn le_bytes(x: u32) -> Seq<u8> {
    seq![
        (x % 0x100) as u8,
        (x / 0x100 % 0x100) as u8,
        (x / 0x1_0000 % 0x100) as u8,
        (x / 0x100_0000) as u8,
    ]
}

/// The word that the first four bytes make, the lowest first.
#[verifier::opaque]
pub open spec fn le_word(bytes: Seq<u8>) -> u32 {
    (bytes[0] + 0x100 * bytes[1] + 0x1_0000 * bytes[2] + 0x100_0000 * bytes[3]) as u32
}

/// Values as bytes, four to the value.
pub open spec fn float_bytes(values: Seq<Float32>) -> Seq<u8>
    decreases values.len(),
{
    if values.len() == 0 {
        seq![]
    } else {
        float_bytes(values.drop_last()) + le_bytes(values.last().bits)
    }
}

/// The first `n` values that bytes hold, four bytes to the value.
pub open spec fn float_words(bytes: Seq<u8>, n: nat) -> Seq<Float32> {
    Seq::new(n, |i: int| Float32 { bits: le_word(bytes.skip(4 * i)) })
}

/// Appends a word.
pub fn push_u32(out: &mut Vec<u8>, x: u32)
    ensures
        final(out)@ == old(out)@ + le_bytes(x),
{
    out.push((x % 0x100) as u8);
    out.push((x / 0x100 % 0x100) as u8);
    out.push((x / 0x1_0000 % 0x100) as u8);
    out.push((x / 0x100_0000) as u8);
    proof {
        reveal(le_bytes);
    }
    assert(out@ =~= old(out)@ + le_bytes(x));
}

/// Appends values.
pub fn push_f32_array(out: &mut Vec<u8>, values: &[Float32])
    ensures
        final(out)@ == old(out)@ + float_bytes(values@),
{
    let mut i: usize = 0;
    assert(values@.take(0) =~= seq![]);
    assert(out@ =~= old(out)@ + float_bytes(values@.take(0)));
    while i < values.len()
        invariant
            i <= values@.len(),
            out@ == old(out)@ + float_bytes(values@.take(i as int)),
        decreases values@.len() - i,
    {
        push_u32(out, values[i].bits);
        proof {
            let longer = values@.take(i + 1);
            assert(longer.drop_last() =~= values@.take(i as int));
            assert(longer.last() == values@[i as int]);
            assert(out@ =~= old(out)@ + float_bytes(longer));
        }
        i = i + 1;
    }
    assert(values@.take(i as int) =~= values@);
}

/// Reads a byte string from the front.
pub struct ByteReader<'a> {
    bytes: &'a [u8],
    pos: usize,
}

impl<'a> ByteReader<'a> {
    /// What has not been read yet.
    pub closed spec fn view(&self) -> Seq<u8> {
        self.bytes@.skip(self.pos as int)
    }

    /// The position lies within the bytes.
    pub closed spec fn wf(&self) -> bool {
        self.pos <= self.bytes@.len()
    }

    /// A reader at the start of `bytes`.
    pub fn new(bytes: &'a [u8]) -> (result: ByteReader<'a>)
        ensures
            result.wf(),
            result@ == bytes@,
    {
        assert(bytes@.skip(0) =~= bytes@);
        ByteReader { bytes, pos: 0 }
    }
}

/// Takes one byte, or fails and takes nothing.
pub fn read_u8(reader: &mut ByteReader) -> (result: Result<u8, UnexpectedEof>)
    requires
        old(reader).wf(),
    ensures
        final(reader).wf(),
        old(reader)@.len() >= 1 ==> result == Ok::<u8, UnexpectedEof>(old(reader)@[0])
            && final(reader)@ == old(reader)@.skip(1),
        old(reader)@.len() < 1 ==> result == Err::<u8, UnexpectedEof>(UnexpectedEof)
            && final(reader)@ == old(reader)@,
{
    if reader.bytes.len() - reader.pos < 1 {
        return Err(UnexpectedEof);
    }
    let byte: u8 = reader.bytes[reader.pos];
    reader.pos = reader.pos + 1;
    assert(reader@ =~= old(reader)@.skip(1));
    Ok(byte)
}

/// Takes one word, or fails and takes nothing.
pub fn read_u32(reader: &mut ByteReader) -> (result: Result<u32, UnexpectedEof>)
    requires
        old(reader).wf(),
    ensures
        final(reader).wf(),
        old(reader)@.len() >= 4 ==> result == Ok::<u32, UnexpectedEof>(le_word(old(reader)@))
            && final(reader)@ == old(reader)@.skip(4),
        old(reader)@.len() < 4 ==> result == Err::<u32, UnexpectedEof>(UnexpectedEof)
            && final(reader)@ == old(reader)@,
{
    if reader.bytes.len() - reader.pos < 4 {
        return Err(UnexpectedEof);
    }
    let (b0, b1) = (reader.bytes[reader.pos], reader.bytes[reader.pos + 1]);
    let (b2, b3) = (reader.bytes[reader.pos + 2], reader.bytes[reader.pos + 3]);
    reader.pos = reader.pos + 4;
    proof {
        reveal(le_word);
    }
    assert(reader@ =~= old(reader)@.skip(4));
    Ok(b0 as u32 + 0x100 * b1 as u32 + 0x1_0000 * b2 as u32 + 0x100_0000 * b3 as u32)
}

/// Takes `n` values, or fails.
pub fn read_f32_array(reader: &mut ByteReader, n: usize) -> (result: Result<
    Vec<Float32>,
    UnexpectedEof,
>)
    requires
        old(reader).wf(),
    ensures
        final(reader).wf(),
        old(reader)@.len() >= 4 * n ==> result is Ok && result->Ok_0@ == float_words(
            old(reader)@,
            n as nat,
        ) && final(reader)@ == old(reader)@.skip(4 * n as int),
        old(reader)@.len() < 4 * n ==> result == Err::<Vec<Float32>, UnexpectedEof>(UnexpectedEof),
{
    let ghost start = reader@;
    let mut values: Vec<Float32> = Vec::new();
    let mut i: usize = 0;
    assert(reader@ =~= start.skip(0));
    while i < n
        invariant
            reader.wf(),
            start == old(reader)@,
            i <= n,
            4 * i <= start.len(),
            reader@ == start.skip(4 * i as int),
            values@ == float_words(start, i as nat),
        decreases n - i,
    {
        match read_u32(reader) {
            Err(e) => {
                return Err(e);
            },
            Ok(bits) => {
                values.push(Float32 { bits });
            },
        }
        assert(start.skip(4 * i as int).skip(4) =~= start.skip(4 * (i + 1) as int));
        i = i + 1;
        assert(values@ =~= float_words(start, i as nat));
    }
    Ok(values)
}

/// A word takes four bytes.
pub proof fn lemma_le_bytes_len(x: u32)
    ensures
        le_bytes(x).len() == 4,
{
    reveal(le_bytes);
}

/// A word read back from its bytes is the word.
pub proof fn lemma_le_word_of_bytes(x: u32, rest: Seq<u8>)
    ensures
        le_word(le_bytes(x) + rest) == x,
{
    reveal(le_bytes);
    reveal(le_word);
    let b = le_bytes(x) + rest;
    assert(b[0] == (x % 0x100) as u8 && b[1] == (x / 0x100 % 0x100) as u8);
    assert(b[2] == (x / 0x1_0000 % 0x100) as u8 && b[3] == (x / 0x100_0000) as u8);
}

/// The digits of a number to the base 256.
proof fn lemma_byte_digits(b0: u8, b1: u8, b2: u8, b3: u8, word: u32)
    requires
        word == b0 + 0x100 * b1 + 0x1_0000 * b2 + 0x100_0000 * b3,
    ensures
        word % 0x100 == b0,
        word / 0x100 % 0x100 == b1,
        word / 0x1_0000 % 0x100 == b2,
        word / 0x100_0000 == b3,
{
    assert(word / 0x100 == b1 + 0x100 * b2 + 0x1_0000 * b3);
    assert(word / 0x1_0000 == b2 + 0x100 * b3);
    assert(word / 0x100_0000 == b3);
}

/// Four bytes are those of the word that they make.
pub proof fn lemma_bytes_of_le_word(bytes: Seq<u8>)
    requires
        bytes.len() >= 4,
    ensures
        le_bytes(le_word(bytes)) == bytes.take(4),
{
    reveal(le_bytes);
    reveal(le_word);
    let word = le_word(bytes);
    lemma_byte_digits(bytes[0], bytes[1], bytes[2], bytes[3], word);
    assert(le_bytes(word) =~= bytes.take(4));
}

/// Values take four bytes each.
pub proof fn lemma_float_bytes_len(values: Seq<Float32>)
    ensures
        float_bytes(values).len() == 4 * values.len(),
    decreases values.len(),
{
    if values.len() > 0 {
        lemma_float_bytes_len(values.drop_last());
        lemma_le_bytes_len(values.last().bits);
    }
}

/// The bytes of value `i` stand `4 * i` bytes in.
proof fn lemma_float_bytes_at(values: Seq<Float32>, rest: Seq<u8>, i: int)
    requires
        0 <= i < values.len(),
    ensures
        le_word((float_bytes(values) + rest).skip(4 * i)) == values[i].bits,
    decreases values.len(),
{
    let shorter = values.drop_last();
    let tail = le_bytes(values.last().bits) + rest;
    lemma_float_bytes_len(shorter);
    lemma_le_bytes_len(values.last().bits);
    assert(float_bytes(values) + rest =~= float_bytes(shorter) + tail);
    if i < shorter.len() {
        lemma_float_bytes_at(shorter, tail, i);
    } else {
        assert((float_bytes(shorter) + tail).skip(4 * i) =~= tail);
        lemma_le_word_of_bytes(values.last().bits, rest);
    }
}

/// Values read back from their bytes are the values.
pub proof fn lemma_float_words_of_bytes(values: Seq<Float32>, rest: Seq<u8>)
    ensures
        float_words(float_bytes(values) + rest, values.len()) == values,
{
    let read = float_words(float_bytes(values) + rest, values.len());
    assert forall|i: int| 0 <= i < values.len() implies read[i] == values[i] by {
        lemma_float_bytes_at(values, rest, i);
    }
    assert(read =~= values);
}

/// Bytes are those of the values that they make.
pub proof fn lemma_bytes_of_float_words(bytes: Seq<u8>, n: nat)
    requires
        bytes.len() >= 4 * n,
    ensures
        float_bytes(float_words(bytes, n)) == bytes.take(4 * n as int),
    decreases n,
{
    let values = float_words(bytes, n);
    if n == 0 {
        assert(bytes.take(0) =~= seq![]);
    } else {
        let below = (n - 1) as nat;
        lemma_bytes_of_float_words(bytes, below);
        assert(values.drop_last() =~= float_words(bytes, below));
        lemma_bytes_of_le_word(bytes.skip(4 * below as int));
        assert(bytes.take(4 * n as int) =~= bytes.take(4 * below as int) + bytes.skip(
            4 * below as int,
        ).take(4));
    }
}

/// The bytes of a word, by their weights: the first counts ones, each one
/// behind it two hundred and fifty-six times as much.
pub proof fn lemma_word_by_weights(x: u32, bytes: Seq<u8>)
    requires
        bytes.len() >= 4,
    ensures
        le_bytes(x).len() == 4,
        x == le_bytes(x)[0] + 256 * le_bytes(x)[1] + 65536 * le_bytes(x)[2] + 16777216 * le_bytes(
            x,
        )[3],
        le_word(bytes) == bytes[0] + 256 * bytes[1] + 65536 * bytes[2] + 16777216 * bytes[3],
{
    reveal(le_bytes);
    reveal(le_word);
}

/// The bytes of values: four for each, by their weights, one value behind the
/// other.
pub proof fn lemma_floats_by_weights(values: Seq<Float32>, i: int)
    ensures
        float_bytes(values).len() == 4 * values.len(),
        0 <= i < values.len() ==> values[i].bits == float_bytes(values)[4 * i] + 256 * float_bytes(
            values,
        )[4 * i + 1] + 65536 * float_bytes(values)[4 * i + 2] + 16777216 * float_bytes(values)[4 * i
            + 3],
{
    lemma_float_bytes_len(values);
    if 0 <= i < values.len() {
        lemma_float_bytes_at(values, seq![], i);
        let bytes = float_bytes(values);
        assert(bytes + seq![] =~= bytes);
        lemma_word_by_weights(0, bytes.skip(4 * i));
    }
}

/// Values read from bytes: four bytes to the value, by their weights.
pub proof fn lemma_float_words_by_weights(bytes: Seq<u8>, n: nat, i: int)
    requires
        4 * n <= bytes.len(),
    ensures
        float_words(bytes, n).len() == n,
        0 <= i < n ==> float_words(bytes, n)[i].bits == bytes[4 * i] + 256 * bytes[4 * i + 1]
            + 65536 * bytes[4 * i + 2] + 16777216 * bytes[4 * i + 3],
{
    if 0 <= i < n {
        lemma_word_by_weights(0, bytes.skip(4 * i));
    }
}

} // verus!
