//! The whole-file container: the fixed eight-byte signature followed by
//! an ordered list of chunks, with lookup, append and removal by type.

use vstd::prelude::*;

use crate::chunk::{
    byte_at, frame_crc_ok, frame_len, has_frame, parse_result_ok, Chunk, ChunkError,
};
use crate::chunk_type::text_names;

verus! {

/// Failure of a container operation.
#[derive(Debug, Clone, Copy, PartialEq, Eq)]
pub enum PngError {
    /// The first eight bytes are not the fixed signature.
    BadSignature,
    /// No chunk carries the requested type.
    NotFound,
    /// A chunk failed to parse; the whole parse is abandoned.
    Chunk(ChunkError),
}

/// The fixed eight-byte file signature.
pub open spec fn spec_signature() -> Seq<u8> {
    seq![0x89u8, 0x50u8, 0x4eu8, 0x47u8, 0x0du8, 0x0au8, 0x1au8, 0x0au8]
}

/// The serialized forms of the chunks, concatenated in order.
pub open spec fn chunks_bytes(cs: Seq<Chunk>) -> Seq<u8>
    decreases cs.len(),
{
    if cs.len() == 0 {
        Seq::empty()
    } else {
        cs[0].spec_bytes() + chunks_bytes(cs.drop_first())
    }
}

/// Appending a chunk appends its serialized form.
pub proof fn lemma_chunks_bytes_push(cs: Seq<Chunk>, c: Chunk)
    ensures
        chunks_bytes(cs.push(c)) == chunks_bytes(cs) + c.spec_bytes(),
    decreases cs.len(),
{
    if cs.len() == 0 {
        reveal_with_fuel(chunks_bytes, 2);
        assert(cs.push(c)[0] == c);
        assert(cs.push(c).drop_first() =~= Seq::<Chunk>::empty());
        assert(chunks_bytes(cs.push(c)) =~= chunks_bytes(cs) + c.spec_bytes());
    } else {
        lemma_chunks_bytes_push(cs.drop_first(), c);
        assert(cs.push(c).drop_first() =~= cs.drop_first().push(c));
        assert(cs.push(c)[0] == cs[0]);
        assert(chunks_bytes(cs.push(c)) =~= chunks_bytes(cs) + c.spec_bytes());
    }
}

/// The outcome of reading a byte tail as consecutive chunk frames: no
/// error when the tail is exactly a sequence of checksum-valid frames,
/// otherwise the failure met first.
pub open spec fn spec_parse_chunks_err(input: Seq<u8>) -> Option<ChunkError>
    decreases input.len(),
{
    if input.len() == 0 {
        None
    } else if !has_frame(input) {
        Some(ChunkError::IOError)
    } else if !frame_crc_ok(input) {
        Some(ChunkError::InvalidCrcSum)
    } else {
        spec_parse_chunks_err(input.skip(frame_len(input)))
    }
}

/// Appending a chunk whose serialized form is the next input slice
/// extends the serialized prefix by that slice.
proof fn lemma_bytes_extend(value: Seq<u8>, offset: int, next: int, c: Chunk, cs: Seq<Chunk>)
    requires
        8 <= offset <= next <= value.len(),
        c.spec_bytes() == value.subrange(offset, next),
        chunks_bytes(cs) == value.subrange(8, offset),
    ensures
        chunks_bytes(cs.push(c)) == value.subrange(8, next),
{
    lemma_chunks_bytes_push(cs, c);
    assert(value.subrange(8, next) =~= value.subrange(8, offset) + value.subrange(offset, next));
}

/// Consuming one checksum-valid frame leaves the outcome of reading the
/// rest unchanged.
proof fn lemma_err_step(value: Seq<u8>, offset: int, next: int)
    requires
        0 <= offset < next <= value.len(),
        has_frame(value.skip(offset)),
        frame_crc_ok(value.skip(offset)),
        next == offset + frame_len(value.skip(offset)),
    ensures
        spec_parse_chunks_err(value.skip(offset)) == spec_parse_chunks_err(value.skip(next)),
{
    let tail = value.skip(offset);
    assert(tail.skip(frame_len(tail)) =~= value.skip(next));
}

/// One step of the container parse: consuming a checksum-valid frame
/// extends the serialized prefix and leaves the remaining outcome
/// unchanged.
proof fn lemma_parse_step(value: Seq<u8>, offset: int, next: int, c: Chunk, cs: Seq<Chunk>)
    requires
        8 <= offset < value.len(),
        parse_result_ok(value.skip(offset), c),
        next == offset + frame_len(value.skip(offset)),
        next <= value.len(),
        chunks_bytes(cs) == value.subrange(8, offset),
    ensures
        offset < next,
        chunks_bytes(cs.push(c)) == value.subrange(8, next),
        spec_parse_chunks_err(value.skip(offset)) == spec_parse_chunks_err(value.skip(next)),
{
    let tail = value.skip(offset);
    assert(c.spec_bytes() == tail.take(frame_len(tail)));
    assert(tail.take(frame_len(tail)) =~= value.subrange(offset, next));
    lemma_bytes_extend(value, offset, next, c, cs);
    lemma_err_step(value, offset, next);
}

/// The index of the first chunk whose type code the text names.
pub open spec fn spec_first_match(cs: Seq<Chunk>, text: Seq<char>) -> Option<int>
    decreases cs.len(),
{
    if cs.len() == 0 {
        None
    } else if text_names(cs[0].chunk_type@, text) {
        Some(0int)
    } else {
        match spec_first_match(cs.drop_first(), text) {
            Some(i) => Some(i + 1),
            None => None,
        }
    }
}

/// A match at `i` with none before it is the first match.
pub proof fn lemma_first_match_at(cs: Seq<Chunk>, text: Seq<char>, i: int)
    requires
        0 <= i < cs.len(),
        text_names(cs[i].chunk_type@, text),
        forall|j: int| 0 <= j < i ==> !text_names((#[trigger] cs[j]).chunk_type@, text),
    ensures
        spec_first_match(cs, text) == Some(i),
    decreases cs.len(),
{
    if i > 0 {
        lemma_first_match_at(cs.drop_first(), text, i - 1);
    }
}

/// With no match anywhere there is no first match.
pub proof fn lemma_first_match_none(cs: Seq<Chunk>, text: Seq<char>)
    requires
        forall|j: int| 0 <= j < cs.len() ==> !text_names((#[trigger] cs[j]).chunk_type@, text),
    ensures
        spec_first_match(cs, text) is None,
    decreases cs.len(),
{
    if cs.len() > 0 {
        lemma_first_match_none(cs.drop_first(), text);
    }
}

/// The first match is a match, and nothing before it matches.
pub proof fn lemma_first_match_is_first(cs: Seq<Chunk>, text: Seq<char>, i: int)
    requires
        spec_first_match(cs, text) == Some(i),
    ensures
        0 <= i < cs.len(),
        text_names(cs[i].chunk_type@, text),
        forall|j: int| 0 <= j < i ==> !text_names((#[trigger] cs[j]).chunk_type@, text),
    decreases cs.len(),
{
    if cs.len() > 0 && !text_names(cs[0].chunk_type@, text) {
        lemma_first_match_is_first(cs.drop_first(), text, i - 1);
        assert forall|j: int| 0 <= j < i implies !text_names(
            (#[trigger] cs[j]).chunk_type@,
            text,
        ) by {
            if j > 0 {
                assert(cs[j] == cs.drop_first()[j - 1]);
            }
        }
    }
}

/// The container: the fixed signature followed by an ordered chunk list.
#[derive(Debug)]
pub struct Png {
    pub chunks: Vec<Chunk>,
}

impl Png {
    /// Every held chunk is well formed.
    pub open spec fn wf(self) -> bool {
        forall|i: int| 0 <= i < self.chunks@.len() ==> (#[trigger] self.chunks@[i]).wf()
    }

    /// The serialized form: the signature, then every chunk in order.
    pub open spec fn spec_bytes(self) -> Seq<u8> {
        spec_signature() + chunks_bytes(self.chunks@)
    }

    /// A container holding the bare signature and no chunks.
    pub fn new() -> (r: Png)
        ensures
            r.chunks@.len() == 0,
            r.wf(),
    {
        Png { chunks: Vec::new() }
    }

    /// Parses a whole buffer: the fixed signature, then chunks until the
    /// input is exhausted. Serializing the result reproduces the buffer
    /// byte for byte. Fails with `BadSignature` exactly when the buffer
    /// does not begin with the signature, and otherwise propagates the
    /// first chunk failure; a partially filled container is never
    /// returned.
    #[verifier::rlimit(50)]
    pub fn try_from(value: &[u8]) -> (r: Result<Png, PngError>)
        ensures
            match r {
                Ok(p) => value@.len() >= 8 && value@.take(8) == spec_signature() && p.wf()
                    && spec_parse_chunks_err(value@.skip(8)) is None && p.spec_bytes() == value@,
                Err(e) => match e {
                    PngError::BadSignature => value@.len() < 8 || value@.take(8)
                        != spec_signature(),
                    PngError::Chunk(ce) => value@.len() >= 8 && value@.take(8) == spec_signature()
                        && spec_parse_chunks_err(value@.skip(8)) == Some(ce),
                    PngError::NotFound => false,
                },
            },
    {
        if value.len() < 8 {
            return Err(PngError::BadSignature);
        }
        let ok = byte_at(value, 0) == 0x89 && byte_at(value, 1) == 0x50 && byte_at(value, 2)
            == 0x4e && byte_at(value, 3) == 0x47 && byte_at(value, 4) == 0x0d && byte_at(value, 5)
            == 0x0a && byte_at(value, 6) == 0x1a && byte_at(value, 7) == 0x0a;
        if !ok {
            proof {
                if value@.take(8) == spec_signature() {
                    assert(forall|j: int| 0 <= j < 8 ==> value@.take(8)[j] == value@[j]);
                    assert(value@[0] == 0x89u8 && value@[1] == 0x50u8 && value@[2] == 0x4eu8
                        && value@[3] == 0x47u8 && value@[4] == 0x0du8 && value@[5] == 0x0au8
                        && value@[6] == 0x1au8 && value@[7] == 0x0au8);
                }
            }
            return Err(PngError::BadSignature);
        }
        assert(value@.take(8) =~= spec_signature());
        let mut chunks: Vec<Chunk> = Vec::new();
        let mut offset: usize = 8;
        while offset < value.len()
            invariant
                8 <= offset <= value@.len(),
                value@.len() >= 8,
                value@.take(8) == spec_signature(),
                forall|k: int| 0 <= k < chunks@.len() ==> (#[trigger] chunks@[k]).wf(),
                chunks_bytes(chunks@) == value@.subrange(8, offset as int),
                spec_parse_chunks_err(value@.skip(8)) == spec_parse_chunks_err(
                    value@.skip(offset as int),
                ),
            decreases value@.len() - offset,
        {
            let ghost tail = value@.skip(offset as int);
            assert(tail.len() > 0);
            match Chunk::read_at(value, offset) {
                Ok(p) => {
                    let (c, next) = p;
                    proof {
                        lemma_parse_step(value@, offset as int, next as int, c, chunks@);
                    }
                    chunks.push(c);
                    offset = next;
                },
                Err(e) => {
                    proof {
                        assert(spec_parse_chunks_err(tail) == Some(e));
                    }
                    return Err(PngError::Chunk(e));
                },
            }
        }
        assert(value@.skip(offset as int).len() == 0);
        let p = Png { chunks };
        proof {
            assert(p.spec_bytes() =~= value@);
        }
        Ok(p)
    }

    /// The serialized form as bytes: the signature, then every chunk's
    /// serialized form in order.
    pub fn as_bytes(&self) -> (r: Vec<u8>)
        ensures
            r@ == self.spec_bytes(),
    {
        let mut out: Vec<u8> = Vec::new();
        out.push(0x89);
        out.push(0x50);
        out.push(0x4e);
        out.push(0x47);
        out.push(0x0d);
        out.push(0x0a);
        out.push(0x1a);
        out.push(0x0a);
        assert(out@ =~= spec_signature());
        assert(self.chunks@.take(0) =~= Seq::<Chunk>::empty());
        let mut i: usize = 0;
        while i < self.chunks.len()
            invariant
                i <= self.chunks@.len(),
                out@ == spec_signature() + chunks_bytes(self.chunks@.take(i as int)),
            decreases self.chunks@.len() - i,
        {
            let mut cb = self.chunks[i].as_bytes();
            out.append(&mut cb);
            proof {
                lemma_chunks_bytes_push(self.chunks@.take(i as int), self.chunks@[i as int]);
                assert(self.chunks@.take(i + 1) =~= self.chunks@.take(i as int).push(
                    self.chunks@[i as int],
                ));
                assert(out@ =~= spec_signature() + chunks_bytes(self.chunks@.take(i + 1)));
            }
            i += 1;
        }
        assert(self.chunks@.take(self.chunks@.len() as int) =~= self.chunks@);
        out
    }

    /// Appends a chunk at the end of the list; it always succeeds, and
    /// chunks of equal type may coexist.
    pub fn append_chunk(&mut self, chunk: Chunk)
        ensures
            final(self).chunks@ == old(self).chunks@.push(chunk),
    {
        self.chunks.push(chunk);
    }

    /// Finds the first chunk whose type code the given text names; it
    /// reads the list only.
    pub fn chunk_by_type(&self, chunk_type: &str) -> (r: Option<&Chunk>)
        ensures
            match r {
                Some(c) => spec_first_match(self.chunks@, chunk_type@) matches Some(i) && *c
                    == self.chunks@[i],
                None => spec_first_match(self.chunks@, chunk_type@) is None,
            },
    {
        match find_index(&self.chunks, chunk_type) {
            Some(i) => {
                proof {
                    lemma_first_match_is_first(self.chunks@, chunk_type@, i as int);
                }
                Some(&self.chunks[i])
            },
            None => None,
        }
    }

    /// Removes and returns the first chunk whose type code the given
    /// text names, keeping the order of the rest; fails with `NotFound`
    /// exactly when no chunk matches.
    pub fn remove_chunk(&mut self, chunk_type: &str) -> (r: Result<Chunk, PngError>)
        ensures
            match r {
                Ok(c) => spec_first_match(old(self).chunks@, chunk_type@) matches Some(i) && c
                    == old(self).chunks@[i] && final(self).chunks@ == old(self).chunks@.remove(i),
                Err(e) => e == PngError::NotFound && spec_first_match(
                    old(self).chunks@,
                    chunk_type@,
                ) is None && final(self).chunks@ == old(self).chunks@,
            },
    {
        match find_index(&self.chunks, chunk_type) {
            Some(i) => {
                proof {
                    lemma_first_match_is_first(self.chunks@, chunk_type@, i as int);
                }
                Ok(self.chunks.remove(i))
            },
            None => Err(PngError::NotFound),
        }
    }
}

/// The index of the first chunk whose type code the text names.
fn find_index(chunks: &Vec<Chunk>, text: &str) -> (r: Option<usize>)
    ensures
        match r {
            Some(i) => spec_first_match(chunks@, text@) == Some(i as int),
            None => spec_first_match(chunks@, text@) is None,
        },
{
    let n = text.unicode_len();
    if n != 4 {
        proof {
            assert(forall|j: int|
                0 <= j < chunks@.len() ==> !text_names(
                    (#[trigger] chunks@[j]).chunk_type@,
                    text@,
                ));
            lemma_first_match_none(chunks@, text@);
        }
        return None;
    }
    let v0 = text.get_char(0) as u32;
    let v1 = text.get_char(1) as u32;
    let v2 = text.get_char(2) as u32;
    let v3 = text.get_char(3) as u32;
    let mut i: usize = 0;
    while i < chunks.len()
        invariant
            i <= chunks@.len(),
            text@.len() == 4,
            v0 == text@[0] as u32,
            v1 == text@[1] as u32,
            v2 == text@[2] as u32,
            v3 == text@[3] as u32,
            forall|j: int| 0 <= j < i ==> !text_names((#[trigger] chunks@[j]).chunk_type@, text@),
        decreases chunks@.len() - i,
    {
        let tb = chunks[i].chunk_type.bytes();
        let ghost t = chunks@[i as int].chunk_type@;
        assert(tb@[0] == t[0] && tb@[1] == t[1] && tb@[2] == t[2] && tb@[3] == t[3]);
        if tb[0] as u32 == v0 && tb[1] as u32 == v1 && tb[2] as u32 == v2 && tb[3] as u32 == v3 {
            proof {
                assert(t[0] as u32 == text@[0] as u32 && t[1] as u32 == text@[1] as u32 && t[2]
                    as u32 == text@[2] as u32 && t[3] as u32 == text@[3] as u32);
                assert(text_names(t, text@));
                lemma_first_match_at(chunks@, text@, i as int);
            }
            return Some(i);
        }
        proof {
            assert(!text_names(t, text@));
        }
        i += 1;
    }
    proof {
        lemma_first_match_none(chunks@, text@);
    }
    None
}

/// A text names at most one 4-byte type code.
proof fn lemma_text_names_unique(x: Seq<u8>, y: Seq<u8>, t: Seq<char>)
    requires
        text_names(x, t),
        text_names(y, t),
    ensures
        x == y,
{
    assert(x[0] as u32 == t[0] as u32 && x[1] as u32 == t[1] as u32 && x[2] as u32 == t[2] as u32
        && x[3] as u32 == t[3] as u32);
    assert(y[0] as u32 == t[0] as u32 && y[1] as u32 == t[1] as u32 && y[2] as u32 == t[2] as u32
        && y[3] as u32 == t[3] as u32);
    assert(x =~= y);
}

/// After appending a chunk to an empty container, lookup by the chunk's
/// own type text finds exactly that chunk, and lookup by any text the
/// chunk's type does not carry finds none.
pub proof fn lemma_append_then_find(cs: Seq<Chunk>, c: Chunk, t: Seq<char>, u: Seq<char>)
    requires
        cs.len() == 0,
        text_names(c.chunk_type@, t),
        !text_names(c.chunk_type@, u),
    ensures
        spec_first_match(cs.push(c), t) == Some(0int),
        spec_first_match(cs.push(c), u) is None,
{
    assert(cs.push(c)[0] == c);
    lemma_first_match_at(cs.push(c), t, 0);
    assert(forall|j: int|
        0 <= j < cs.push(c).len() ==> !text_names((#[trigger] cs.push(c)[j]).chunk_type@, u));
    lemma_first_match_none(cs.push(c), u);
}

/// Removing by the middle chunk's type from three chunks of pairwise
/// distinct types removes exactly the middle chunk, keeps the others in
/// order, and a second removal by the same text finds nothing.
pub proof fn lemma_remove_preserves_order(a: Chunk, b: Chunk, c: Chunk, t: Seq<char>)
    requires
        text_names(b.chunk_type@, t),
        a.chunk_type@ != b.chunk_type@,
        c.chunk_type@ != b.chunk_type@,
    ensures
        spec_first_match(seq![a, b, c], t) == Some(1int),
        seq![a, b, c].remove(1) == seq![a, c],
        spec_first_match(seq![a, c], t) is None,
{
    assert(!text_names(a.chunk_type@, t)) by {
        if text_names(a.chunk_type@, t) {
            lemma_text_names_unique(a.chunk_type@, b.chunk_type@, t);
        }
    }
    assert(!text_names(c.chunk_type@, t)) by {
        if text_names(c.chunk_type@, t) {
            lemma_text_names_unique(c.chunk_type@, b.chunk_type@, t);
        }
    }
    lemma_first_match_at(seq![a, b, c], t, 1);
    assert(seq![a, b, c].remove(1) =~= seq![a, c]);
    lemma_first_match_none(seq![a, c], t);
}

} // verus!
