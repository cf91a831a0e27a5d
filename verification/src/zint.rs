//! Variable-length integers: the packed `u64` of table fields and the frame
//! length that shares its first byte with the two end markers.

use crate::chunk::chunk_data;
use crate::error::Error;
use bytes::Bytes;
use vstd::prelude::*;

verus! {

/// First byte in place of a frame length: the inner stream ends here.
pub const END_OF_STREAM: u8 = 0;

/// First byte in place of a frame length: the bottle ends here.
pub const END_OF_BOTTLE: u8 = 0xff;

/// One more than the longest frame that a length can announce.
pub const FRAME_LENGTH_LIMIT: usize = 0x40_0000;

// ----- packed u64

/// The packed form of `n`: its bytes from the least significant up to and
/// including the most significant one that is not zero; a single zero byte
/// for zero.
pub open spec fn packed_u64_bytes(n: u64) -> Seq<u8>
    decreases n,
{
    if n < 256 {
        seq![n as u8]
    } else {
        seq![(n % 256) as u8] + packed_u64_bytes(n / 256)
    }
}

/// The number that `bytes` stand for, least significant byte first.
pub open spec fn packed_u64_value(bytes: Seq<u8>) -> nat
    decreases bytes.len(),
{
    if bytes.len() == 0 {
        0
    } else {
        bytes[0] as nat + 256 * packed_u64_value(bytes.drop_first())
    }
}

/// 256 to the power `k`.
pub open spec fn pow256(k: nat) -> nat
    decreases k,
{
    if k == 0 {
        1
    } else {
        256 * pow256((k - 1) as nat)
    }
}

/// The length of the packed form, by the size of the number.
pub open spec fn packed_len(n: u64) -> nat {
    if n < 0x100 {
        1
    } else if n < 0x1_0000 {
        2
    } else if n < 0x100_0000 {
        3
    } else if n < 0x1_0000_0000 {
        4
    } else if n < 0x100_0000_0000 {
        5
    } else if n < 0x1_0000_0000_0000 {
        6
    } else if n < 0x100_0000_0000_0000 {
        7
    } else {
        8
    }
}

/// The packed form is as long as the size of the number says.
pub proof fn lemma_packed_len(n: u64)
    ensures
        packed_u64_bytes(n).len() == packed_len(n),
    decreases n,
{
    if n >= 256 {
        lemma_packed_len(n / 256);
    }
}

/// How many bytes the packed form of `number` takes, from 1 to 8.
pub fn bytes_needed(number: u64) -> (count: usize)
    ensures
        count == packed_u64_bytes(number).len(),
        1 <= count <= 8,
{
    proof {
        lemma_packed_len(number);
    }
    let ghost whole: u64 = number;
    let mut number: u64 = number;
    let mut count: usize = 1;
    let mut found: usize = if (number & 0xffffffff00000000) == 0 { 0 } else { 4 };
    assert((whole & 0xffffffff00000000) == 0 <==> whole < 0x1_0000_0000) by (bit_vector);
    assert(whole >> 32 == whole / 0x1_0000_0000 && whole >> 0 == whole) by (bit_vector);
    count += found;
    number >>= 8 * found as u64;
    let ghost upper: u64 = number;
    assert(upper < 0x1_0000_0000);
    found = if (number & 0xffff0000) == 0 { 0 } else { 2 };
    assert(upper < 0x1_0000_0000 ==> ((upper & 0xffff0000) == 0 <==> upper < 0x1_0000))
        by (bit_vector);
    assert(upper >> 16 == upper / 0x1_0000 && upper >> 0 == upper) by (bit_vector);
    count += found;
    number >>= 8 * found as u64;
    let ghost top: u64 = number;
    assert(top < 0x1_0000);
    found = if (number & 0xff00) == 0 { 0 } else { 1 };
    assert(top < 0x1_0000 ==> ((top & 0xff00) == 0 <==> top < 0x100)) by (bit_vector);
    count += found;
    count
}

/// For every number, decoding its packed form gives the number back, and
/// the packed form has as many bytes as the size of the number asks for:
/// one for a number below 256, zero included, and eight at most.
pub proof fn lemma_packed_u64_round_trip(n: u64)
    ensures
        packed_u64_value(packed_u64_bytes(n)) == n,
        packed_u64_bytes(n).len() == packed_len(n),
        1 <= packed_u64_bytes(n).len() <= 8,
    decreases n,
{
    lemma_packed_len(n);
    let bytes = packed_u64_bytes(n);
    if n < 256 {
        assert(bytes.drop_first() =~= Seq::<u8>::empty());
        assert(packed_u64_value(bytes.drop_first()) == 0);
        assert(bytes[0] == n);
    } else {
        lemma_packed_u64_round_trip(n / 256);
        assert(bytes.drop_first() =~= packed_u64_bytes(n / 256));
        assert(bytes[0] == n % 256);
    }
}

/// One more byte at the end counts 256 times for each byte before it.
pub proof fn lemma_packed_u64_value_push(bytes: Seq<u8>, last: u8)
    ensures
        packed_u64_value(bytes.push(last)) == packed_u64_value(bytes) + last * pow256(bytes.len()),
        packed_u64_value(bytes) < pow256(bytes.len()),
    decreases bytes.len(),
{
    let longer = bytes.push(last);
    if bytes.len() == 0 {
        assert(longer.drop_first() =~= Seq::<u8>::empty());
        assert(packed_u64_value(longer.drop_first()) == 0);
        assert(longer[0] == last);
        assert(packed_u64_value(longer) == last + 256 * 0);
        assert(pow256(0) == 1);
        assert(last * pow256(0) == last);
    } else {
        let tail = bytes.drop_first();
        lemma_packed_u64_value_push(tail, last);
        assert(longer.drop_first() =~= tail.push(last));
        assert(longer[0] == bytes[0]);
        let unit = pow256(tail.len());
        let high = last * unit;
        assert(pow256(bytes.len()) == 256 * unit);
        assert(packed_u64_value(longer) == bytes[0] + 256 * packed_u64_value(tail.push(last)));
        assert(packed_u64_value(tail.push(last)) == packed_u64_value(tail) + high);
        assert(packed_u64_value(bytes) == bytes[0] + 256 * packed_u64_value(tail));
        assert(256 * high == last * (256 * unit)) by (nonlinear_arith)
            requires
                high == last * unit,
        ;
    }
}

/// The packed form of `number`, in a buffer of 1 to 8 bytes. The length is
/// not part of the form: whoever stores it stores the length beside it.
pub fn encode_packed_u64(number: u64) -> (packed: Bytes)
    ensures
        chunk_data(packed) == packed_u64_bytes(number),
{
    let mut buffer: Vec<u8> = Vec::new();
    let mut n: u64 = number;
    while n > 255
        invariant
            buffer@ + packed_u64_bytes(n) == packed_u64_bytes(number),
        decreases n,
    {
        assert(n & 0xff == n % 256 && n >> 8 == n / 256) by (bit_vector);
        assert(buffer@.push((n % 256) as u8) + packed_u64_bytes(n / 256) =~= buffer@
            + packed_u64_bytes(n));
        buffer.push((n & 0xff) as u8);
        n >>= 8;
    }
    assert(n & 0xff == n % 256) by (bit_vector);
    assert(buffer@.push(n as u8) =~= buffer@ + packed_u64_bytes(n));
    buffer.push((n & 0xff) as u8);
    Bytes::from(buffer)
}

/// The number that a packed form of up to 8 bytes stands for.
pub fn decode_packed_u64(buffer: Bytes) -> (number: u64)
    requires
        chunk_data(buffer).len() <= 8,
    ensures
        number == packed_u64_value(chunk_data(buffer)),
{
    let bytes = buffer.as_ref();
    let mut rv: u64 = 0;
    let mut shift: u8 = 0;
    let mut i: usize = 0;
    assert(bytes@.take(0) =~= Seq::<u8>::empty());
    while i < bytes.len()
        invariant
            i <= bytes.len() <= 8,
            shift == 8 * i,
            rv == packed_u64_value(bytes@.take(i as int)),
            rv < pow256(i as nat),
        decreases bytes.len() - i,
    {
        let b: u8 = bytes[i];
        proof {
            reveal_with_fuel(pow256, 9);
            assert(bytes@.take(i + 1) =~= bytes@.take(i as int).push(b));
            lemma_packed_u64_value_push(bytes@.take(i as int), b);
            assert(shift < 64 && shift % 8 == 0 ==> (b as u64) << shift == (b as u64) * (1u64
                << shift)) by (bit_vector);
            assert(shift < 64 && shift % 8 == 0 ==> (1u64 << shift) == (if shift == 0 {
                1u64
            } else if shift == 8 {
                0x100u64
            } else if shift == 16 {
                0x1_0000u64
            } else if shift == 24 {
                0x100_0000u64
            } else if shift == 32 {
                0x1_0000_0000u64
            } else if shift == 40 {
                0x100_0000_0000u64
            } else if shift == 48 {
                0x1_0000_0000_0000u64
            } else {
                0x100_0000_0000_0000u64
            })) by (bit_vector);
            assert((1u64 << shift) == pow256(i as nat));
            assert(b * pow256(i as nat) <= 255 * pow256(i as nat)) by (nonlinear_arith)
                requires
                    b <= 255,
            ;
        }
        rv += (b as u64) << shift;
        shift += 8;
        i += 1;
    }
    assert(bytes@.take(i as int) =~= bytes@);
    rv
}

// ----- frame length

/// What stands at the head of a frame: its length, or one of the two end
/// markers.
#[derive(Clone, Copy, Debug, PartialEq, Eq, Structural)]
pub enum FrameLength {
    EndOfStream,
    EndOfBottle,
    Length(usize),
}

/// The bytes that announce a frame of `n` bytes, for `n` from 1 to 2^22 - 1:
/// the shortest of the three forms that holds `n`. The top two bits of the
/// first byte say how many bytes follow it; its other six bits are the top
/// of the number, and the bytes that follow hold the rest, most significant
/// first.
pub open spec fn frame_length_bytes(n: nat) -> Seq<u8> {
    if n < 64 {
        seq![n as u8]
    } else if n < 0x4000 {
        seq![(0x40 + n / 0x100) as u8, (n % 0x100) as u8]
    } else {
        seq![(0x80 + n / 0x1_0000) as u8, ((n / 0x100) % 0x100) as u8, (n % 0x100) as u8]
    }
}

/// What the first byte of a length says: how many bytes follow it, and the
/// marker it is or the top of the number it starts.
pub open spec fn first_length_byte(byte: u8) -> (usize, FrameLength) {
    if byte == END_OF_STREAM {
        (0, FrameLength::EndOfStream)
    } else if byte == END_OF_BOTTLE {
        (0, FrameLength::EndOfBottle)
    } else {
        ((byte / 64) as usize, FrameLength::Length((byte % 64) as usize))
    }
}

/// The number that `accumulator` becomes once each of `bytes` has been
/// shifted in below it, first to last.
pub open spec fn shifted_in(accumulator: usize, bytes: Seq<u8>) -> usize
    decreases bytes.len(),
{
    if bytes.len() == 0 {
        accumulator
    } else {
        shifted_in((accumulator << 8) | (bytes[0] as usize), bytes.drop_first())
    }
}

/// What a length that the first byte started becomes with the bytes that
/// follow it. A marker has no bytes to follow and stays what it is.
pub open spec fn finished_length(length: FrameLength, bytes: Seq<u8>) -> FrameLength {
    match length {
        FrameLength::Length(accumulator) => FrameLength::Length(shifted_in(accumulator, bytes)),
        _ => length,
    }
}

/// Shifting a byte in below a number that leaves room for it is
/// multiplying by 256 and adding the byte.
pub proof fn lemma_shift_in(accumulator: usize, byte: u8)
    requires
        accumulator < 0x40_0000,
    ensures
        (accumulator << 8) | (byte as usize) == accumulator * 256 + byte,
{
    assert(accumulator < 0x40_0000 ==> (accumulator << 8) | (byte as usize) == accumulator * 256
        + byte) by (bit_vector);
}

/// Decoding the bytes that announce a length gives that length back, and
/// the bytes are as few as hold it: one for a length below 64, two below
/// 2^14, three below 2^22.
pub proof fn lemma_length_round_trip(n: usize)
    requires
        1 <= n < FRAME_LENGTH_LIMIT,
    ensures
        ({
            let bytes = frame_length_bytes(n as nat);
            let (more, start) = first_length_byte(bytes[0]);
            &&& bytes.len() == 1 + more
            &&& finished_length(start, bytes.skip(1)) == FrameLength::Length(n)
            &&& bytes.len() == if n < 64 {
                1nat
            } else if n < 0x4000 {
                2nat
            } else {
                3nat
            }
        }),
{
    let bytes = frame_length_bytes(n as nat);
    let rest = bytes.skip(1);
    if n < 64 {
        assert(rest =~= Seq::<u8>::empty());
    } else if n < 0x4000 {
        let top = (n / 0x100) as usize;
        assert(rest =~= seq![(n % 0x100) as u8]);
        assert(rest.drop_first() =~= Seq::<u8>::empty());
        lemma_shift_in(top, (n % 0x100) as u8);
        reveal_with_fuel(shifted_in, 3);
    } else {
        let top = (n / 0x1_0000) as usize;
        let mid = ((n / 0x100) % 0x100) as u8;
        let low = (n % 0x100) as u8;
        assert(rest =~= seq![mid, low]);
        assert(rest.drop_first() =~= seq![low]);
        assert(rest.drop_first().drop_first() =~= Seq::<u8>::empty());
        lemma_shift_in(top, mid);
        lemma_shift_in((top * 256 + mid) as usize, low);
        reveal_with_fuel(shifted_in, 4);
    }
}

/// The bytes that announce a frame of `number` bytes, in the shortest form
/// that holds it. A frame of 2^22 bytes or more cannot be announced.
pub fn encode_length(number: usize) -> (encoded: Result<Bytes, Error>)
    requires
        number > 0,
    ensures
        number < FRAME_LENGTH_LIMIT ==> (encoded matches Ok(bytes) && chunk_data(bytes)
            == frame_length_bytes(number as nat)),
        number >= FRAME_LENGTH_LIMIT ==> encoded == Err::<Bytes, Error>(Error::LengthTooLarge),
{
    if number >= FRAME_LENGTH_LIMIT {
        return Err(Error::LengthTooLarge);
    }
    let mut buffer: Vec<u8> = Vec::new();
    assert(number < 0x40_0000 ==> (number >> 8) == number / 0x100 && (number >> 16) == number
        / 0x1_0000 && (number & 0xff) == number % 0x100 && ((number >> 8) & 0xff) == (number / 0x100)
        % 0x100) by (bit_vector);
    if number < 64 {
        buffer.push(number as u8);
    } else if number < 0x4000 {
        let top: u8 = (number >> 8) as u8;
        assert(top < 64 ==> 0x40 | top == 0x40 + top) by (bit_vector);
        buffer.push(0x40 | top);
        buffer.push((number & 0xff) as u8);
    } else {
        let top: u8 = (number >> 16) as u8;
        assert(top < 64 ==> 0x80 | top == 0x80 + top) by (bit_vector);
        buffer.push(0x80 | top);
        buffer.push(((number >> 8) & 0xff) as u8);
        buffer.push((number & 0xff) as u8);
    }
    assert(buffer@ =~= frame_length_bytes(number as nat));
    Ok(Bytes::from(buffer))
}

/// Reads the first byte of a length: how many bytes follow it, and the
/// marker it is or the top of the number it starts.
pub fn decode_first_length_byte(byte: u8) -> (first: (usize, FrameLength))
    ensures
        first == first_length_byte(byte),
{
    if byte == END_OF_STREAM {
        (0, FrameLength::EndOfStream)
    } else if byte == END_OF_BOTTLE {
        (0, FrameLength::EndOfBottle)
    } else {
        assert((byte & 0xc0) >> 6 == byte / 64 && byte & 0x3f == byte % 64) by (bit_vector);
        (((byte & 0xc0) >> 6) as usize, FrameLength::Length((byte & 0x3f) as usize))
    }
}

/// Finishes a length with the bytes that follow its first byte.
pub fn decode_length(length: FrameLength, bytes: &[u8]) -> (finished: FrameLength)
    ensures
        finished == finished_length(length, bytes@),
{
    match length {
        FrameLength::EndOfStream => length,
        FrameLength::EndOfBottle => length,
        FrameLength::Length(accumulator) => {
            let mut n: usize = accumulator;
            let mut i: usize = 0;
            assert(bytes@.skip(0) =~= bytes@);
            while i < bytes.len()
                invariant
                    i <= bytes.len(),
                    shifted_in(n, bytes@.skip(i as int)) == shifted_in(accumulator, bytes@),
                decreases bytes.len() - i,
            {
                assert(bytes@.skip(i as int).drop_first() =~= bytes@.skip(i + 1));
                n = (n << 8) | (bytes[i] as usize);
                i += 1;
            }
            FrameLength::Length(n)
        },
    }
}

} // verus!
