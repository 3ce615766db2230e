//! One binary chunk record: a big-endian length, a 4-byte type code, the
//! payload, and a CRC-32 checksum over type code and payload.

use vstd::prelude::*;
use vstd::slice::{slice_index_get, slice_subrange};

use crate::bytes::{be32, be32_val, lemma_be32_of_val, lemma_be32_round_trip, push_be32, read_be32};
use crate::checksum::{crc32_of, crc32_ieee};
use crate::chunk_type::ChunkType;

verus! {

/// Failure of a chunk operation.
#[derive(Debug, Clone, Copy, PartialEq, Eq)]
pub enum ChunkError {
    /// The input ended before a declared field was complete.
    IOError,
    /// The stored checksum disagrees with the recomputed one.
    InvalidCrcSum,
    /// The payload is not valid UTF-8 text.
    EncodingError,
}

/// What decoding a byte sequence as UTF-8 text yields: the characters,
/// or nothing when the bytes are not valid UTF-8. The outcome depends on
/// the bytes alone.
pub uninterp spec fn utf8_decode(bytes: Seq<u8>) -> Option<Seq<char>>;

/// Relies on String::from_utf8: succeeds exactly on valid UTF-8 input,
/// and the decoding depends on the bytes alone.
#[verifier::external_body]
fn utf8_to_string(bytes: &Vec<u8>) -> (r: Option<String>)
    ensures
        match r {
            Some(s) => utf8_decode(bytes@) == Some(s@),
            None => utf8_decode(bytes@) == None::<Seq<char>>,
        },
{
    match String::from_utf8(bytes.clone()) {
        Ok(s) => Some(s),
        Err(_) => None,
    }
}

/// The payload length declared by a frame's first four bytes.
pub open spec fn spec_declared_len(input: Seq<u8>) -> u32
    recommends
        input.len() >= 4,
{
    be32_val(input.subrange(0, 4))
}

/// The input starts with a complete chunk frame: a four-byte length,
/// four type bytes, the declared payload, and a four-byte checksum.
pub open spec fn has_frame(input: Seq<u8>) -> bool {
    input.len() >= 4 && input.len() >= 12 + spec_declared_len(input)
}

/// The total size of the frame at the start of the input.
pub open spec fn frame_len(input: Seq<u8>) -> int
    recommends
        has_frame(input),
{
    12 + spec_declared_len(input)
}

/// The frame's stored checksum agrees with the checksum recomputed over
/// its type and payload bytes.
pub open spec fn frame_crc_ok(input: Seq<u8>) -> bool
    recommends
        has_frame(input),
{
    be32_val(input.subrange(frame_len(input) - 4, frame_len(input))) == crc32_of(
        input.subrange(4, frame_len(input) - 4),
    )
}

/// Everything parsing guarantees of a chunk read from the frame at the
/// start of the input.
pub open spec fn parse_result_ok(input: Seq<u8>, c: Chunk) -> bool {
    &&& has_frame(input)
    &&& frame_crc_ok(input)
    &&& c.wf()
    &&& c.length == spec_declared_len(input)
    &&& c.chunk_type@ == input.subrange(4, 8)
    &&& c.data@ == input.subrange(8, frame_len(input) - 4)
    &&& c.crc == be32_val(input.subrange(frame_len(input) - 4, frame_len(input)))
    &&& c.spec_bytes() == input.take(frame_len(input))
}

/// One chunk: `length` counts the payload bytes, `crc` checks type code
/// and payload.
#[derive(Debug)]
pub struct Chunk {
    pub length: u32,
    pub chunk_type: ChunkType,
    pub data: Vec<u8>,
    pub crc: u32,
}

impl Chunk {
    /// The bytes the checksum guards: type code, then payload.
    pub open spec fn spec_crc_input(self) -> Seq<u8> {
        self.chunk_type@ + self.data@
    }

    /// The chunk's invariant: the length field counts the payload, and
    /// the stored checksum agrees with the recomputed one. Both
    /// constructors establish it.
    pub open spec fn wf(self) -> bool {
        &&& self.length == self.data@.len()
        &&& self.crc == crc32_of(self.spec_crc_input())
    }

    /// The serialized form: big-endian length, type code, payload,
    /// big-endian checksum.
    pub open spec fn spec_bytes(self) -> Seq<u8> {
        be32(self.length) + self.chunk_type@ + self.data@ + be32(self.crc)
    }

    /// Builds a chunk from a type code and a payload, computing the
    /// checksum; it never fails, and its serialized form parses back.
    pub fn new(chunk_type: ChunkType, data: Vec<u8>) -> (r: Chunk)
        requires
            data@.len() <= u32::MAX,
        ensures
            r.wf(),
            r.chunk_type == chunk_type,
            r.data@ == data@,
            r.length == data@.len(),
            r.crc == crc32_of(chunk_type@ + data@),
            r.spec_bytes().len() == 12 + data@.len(),
            has_frame(r.spec_bytes()),
            frame_crc_ok(r.spec_bytes()),
    {
        let mut buf: Vec<u8> = Vec::new();
        chunk_type.push_bytes(&mut buf);
        let mut i: usize = 0;
        while i < data.len()
            invariant
                i <= data@.len(),
                buf@ == chunk_type@ + data@.subrange(0, i as int),
            decreases data@.len() - i,
        {
            buf.push(data[i]);
            assert(buf@ =~= chunk_type@ + data@.subrange(0, i + 1));
            i += 1;
        }
        assert(buf@ =~= chunk_type@ + data@);
        let crc = crc32_ieee(buf.as_slice());
        let length = data.len() as u32;
        let r = Chunk { length, chunk_type, data, crc };
        proof {
            lemma_chunk_round_trip(r);
        }
        r
    }

    /// Parses one chunk frame starting at `offset`; on success it also
    /// returns the offset just past the frame. Trailing input after the
    /// frame is left untouched.
    pub fn read_at(value: &[u8], offset: usize) -> (r: Result<(Chunk, usize), ChunkError>)
        requires
            offset <= value@.len(),
        ensures
            ({
                let tail = value@.skip(offset as int);
                match r {
                    Ok(p) => parse_result_ok(tail, p.0) && p.1 == offset + frame_len(tail) && p.1
                        <= value@.len(),
                    Err(e) => match e {
                        ChunkError::IOError => !has_frame(tail),
                        ChunkError::InvalidCrcSum => has_frame(tail) && !frame_crc_ok(tail),
                        _ => false,
                    },
                }
            }),
    {
        let ghost tail = value@.skip(offset as int);
        let total = value.len();
        let rem = total - offset;
        assert(tail.len() == rem);
        if rem < 12 {
            return Err(ChunkError::IOError);
        }
        let b0 = byte_at(value, offset);
        let b1 = byte_at(value, offset + 1);
        let b2 = byte_at(value, offset + 2);
        let b3 = byte_at(value, offset + 3);
        let len32 = read_be32(b0, b1, b2, b3);
        assert(tail.subrange(0, 4) =~= seq![b0, b1, b2, b3]);
        assert(spec_declared_len(tail) == len32);
        let n = len32 as usize;
        if n > rem - 12 {
            return Err(ChunkError::IOError);
        }
        assert(has_frame(tail) && frame_len(tail) == 12 + n);
        let t0 = byte_at(value, offset + 4);
        let t1 = byte_at(value, offset + 5);
        let t2 = byte_at(value, offset + 6);
        let t3 = byte_at(value, offset + 7);
        let chunk_type = ChunkType { chunks: [t0, t1, t2, t3] };
        assert(chunk_type@ =~= tail.subrange(4, 8));
        let mut data: Vec<u8> = Vec::new();
        let mut i: usize = 0;
        while i < n
            invariant
                i <= n,
                offset + 12 + n <= value@.len(),
                offset + 12 + n <= usize::MAX,
                tail == value@.skip(offset as int),
                data@ == tail.subrange(8, 8 + i as int),
            decreases n - i,
        {
            data.push(byte_at(value, offset + 8 + i));
            assert(data@ =~= tail.subrange(8, 8 + (i + 1) as int));
            i += 1;
        }
        let crc_input = slice_subrange(value, offset + 4, offset + 8 + n);
        let computed = crc32_ieee(crc_input);
        assert(crc_input@ =~= tail.subrange(4, 8 + n as int));
        let e0 = byte_at(value, offset + 8 + n);
        let e1 = byte_at(value, offset + 9 + n);
        let e2 = byte_at(value, offset + 10 + n);
        let e3 = byte_at(value, offset + 11 + n);
        let stored = read_be32(e0, e1, e2, e3);
        assert(tail.subrange(frame_len(tail) - 4, frame_len(tail)) =~= seq![e0, e1, e2, e3]);
        if stored != computed {
            return Err(ChunkError::InvalidCrcSum);
        }
        assert(frame_crc_ok(tail));
        let c = Chunk { length: len32, chunk_type, data, crc: stored };
        proof {
            assert(c.spec_crc_input() =~= tail.subrange(4, 8 + n as int));
            assert(c.wf());
            lemma_be32_of_val(b0, b1, b2, b3);
            lemma_be32_of_val(e0, e1, e2, e3);
            assert(be32(c.length) =~= tail.subrange(0, 4));
            assert(be32(c.crc) =~= tail.subrange(frame_len(tail) - 4, frame_len(tail)));
            assert(c.spec_bytes() =~= tail.take(frame_len(tail)));
        }
        Ok((c, offset + 12 + n))
    }

    /// Parses a chunk from the start of the input: the exact inverse of
    /// `as_bytes`. Fails with `IOError` when the input is shorter than
    /// the frame it declares, and with `InvalidCrcSum` when the stored
    /// checksum disagrees with the recomputed one.
    pub fn try_from(value: &[u8]) -> (r: Result<Chunk, ChunkError>)
        ensures
            match r {
                Ok(c) => parse_result_ok(value@, c),
                Err(e) => match e {
                    ChunkError::IOError => !has_frame(value@),
                    ChunkError::InvalidCrcSum => has_frame(value@) && !frame_crc_ok(value@),
                    _ => false,
                },
            },
    {
        assert(value@.skip(0) =~= value@);
        match Self::read_at(value, 0) {
            Ok(p) => Ok(p.0),
            Err(e) => Err(e),
        }
    }

    /// The payload byte count.
    pub fn length(&self) -> (r: u32)
        ensures
            r == self.length,
    {
        self.length
    }

    /// The chunk's type code.
    pub fn chunk_type(&self) -> (r: &ChunkType)
        ensures
            *r == self.chunk_type,
    {
        &self.chunk_type
    }

    /// The raw payload bytes.
    pub fn data(&self) -> (r: &[u8])
        ensures
            r@ == self.data@,
    {
        self.data.as_slice()
    }

    /// The stored checksum.
    pub fn crc(&self) -> (r: u32)
        ensures
            r == self.crc,
    {
        self.crc
    }

    /// The payload interpreted as UTF-8 text; fails with `EncodingError`
    /// exactly when the payload is not valid UTF-8.
    pub fn data_as_string(&self) -> (r: Result<String, ChunkError>)
        ensures
            match r {
                Ok(s) => utf8_decode(self.data@) == Some(s@),
                Err(e) => e == ChunkError::EncodingError && utf8_decode(self.data@) is None,
            },
    {
        match utf8_to_string(&self.data) {
            Some(s) => Ok(s),
            None => Err(ChunkError::EncodingError),
        }
    }

    /// The serialized form as bytes: length, type code, payload,
    /// checksum.
    pub fn as_bytes(&self) -> (r: Vec<u8>)
        ensures
            r@ == self.spec_bytes(),
    {
        let mut out: Vec<u8> = Vec::new();
        push_be32(&mut out, self.length);
        self.chunk_type.push_bytes(&mut out);
        let mut i: usize = 0;
        while i < self.data.len()
            invariant
                i <= self.data@.len(),
                out@ == be32(self.length) + self.chunk_type@ + self.data@.subrange(0, i as int),
            decreases self.data@.len() - i,
        {
            out.push(self.data[i]);
            assert(out@ =~= be32(self.length) + self.chunk_type@ + self.data@.subrange(
                0,
                i + 1,
            ));
            i += 1;
        }
        push_be32(&mut out, self.crc);
        assert(out@ =~= self.spec_bytes());
        out
    }
}

/// The byte at index `i`.
pub(crate) fn byte_at(value: &[u8], i: usize) -> (r: u8)
    requires
        i < value@.len(),
    ensures
        r == value@[i as int],
{
    *slice_index_get(value, i)
}

/// Round trip: a well-formed chunk's serialized bytes form a frame with
/// a matching checksum, the frame is the whole of those bytes, and any
/// chunk parsed from them is equal to the original in every field.
pub proof fn lemma_chunk_round_trip(c: Chunk)
    requires
        c.wf(),
    ensures
        has_frame(c.spec_bytes()),
        frame_crc_ok(c.spec_bytes()),
        frame_len(c.spec_bytes()) == c.spec_bytes().len(),
        forall|c2: Chunk|
            parse_result_ok(c.spec_bytes(), c2) ==> c2.length == c.length && c2.chunk_type@
                == c.chunk_type@ && c2.data@ == c.data@ && c2.crc == c.crc,
{
    let bs = c.spec_bytes();
    lemma_be32_round_trip(c.length);
    lemma_be32_round_trip(c.crc);
    assert(bs.len() == 12 + c.data@.len());
    assert(bs.subrange(0, 4) =~= be32(c.length));
    assert(spec_declared_len(bs) == c.length);
    assert(has_frame(bs));
    assert(frame_len(bs) == bs.len());
    assert(bs.subrange(4, 8) =~= c.chunk_type@);
    assert(bs.subrange(8, frame_len(bs) - 4) =~= c.data@);
    assert(bs.subrange(frame_len(bs) - 4, frame_len(bs)) =~= be32(c.crc));
    assert(bs.subrange(4, frame_len(bs) - 4) =~= c.chunk_type@ + c.data@);
    assert(frame_crc_ok(bs));
}

/// Truncation: no strict prefix of a full frame still holds a frame, so
/// parsing any strict prefix of a chunk's serialized bytes fails with
/// `IOError`.
pub proof fn lemma_frame_truncation(bytes: Seq<u8>, n: int)
    requires
        has_frame(bytes),
        bytes.len() == frame_len(bytes),
        0 <= n < bytes.len(),
    ensures
        !has_frame(bytes.take(n)),
{
    if n >= 4 {
        assert(bytes.take(n).subrange(0, 4) =~= bytes.subrange(0, 4));
        assert(spec_declared_len(bytes.take(n)) == spec_declared_len(bytes));
    }
}

/// Checksum-field sensitivity: bytes that agree with a checksum-valid
/// frame everywhere except in the stored checksum field fail the
/// checksum test, so parsing them fails with `InvalidCrcSum`.
pub proof fn lemma_crc_field_flip(bytes: Seq<u8>, other: Seq<u8>)
    requires
        has_frame(bytes),
        frame_crc_ok(bytes),
        bytes.len() == frame_len(bytes),
        other.len() == bytes.len(),
        other.take(bytes.len() - 4) == bytes.take(bytes.len() - 4),
        other.subrange(bytes.len() - 4, bytes.len() as int) != bytes.subrange(
            bytes.len() - 4,
            bytes.len() as int,
        ),
    ensures
        has_frame(other),
        !frame_crc_ok(other),
{
    let len = bytes.len() as int;
    assert(forall|j: int|
        0 <= j < len - 4 ==> other[j] == #[trigger] bytes[j]) by {
        assert(forall|j: int|
            0 <= j < len - 4 ==> other.take(len - 4)[j] == #[trigger] other[j]);
    }
    assert(other.subrange(0, 4) =~= bytes.subrange(0, 4));
    assert(spec_declared_len(other) == spec_declared_len(bytes));
    assert(has_frame(other) && frame_len(other) == len);
    assert(other.subrange(4, len - 4) =~= bytes.subrange(4, len - 4));
    let bf = bytes.subrange(len - 4, len);
    let of = other.subrange(len - 4, len);
    if frame_crc_ok(other) {
        assert(be32_val(of) == be32_val(bf));
        lemma_be32_of_val(of[0], of[1], of[2], of[3]);
        lemma_be32_of_val(bf[0], bf[1], bf[2], bf[3]);
        assert(of =~= seq![of[0], of[1], of[2], of[3]]);
        assert(bf =~= seq![bf[0], bf[1], bf[2], bf[3]]);
        assert(of == bf);
        assert(false);
    }
}

} // verus!
