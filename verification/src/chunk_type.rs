//! The 4-byte chunk type code and its per-byte property bits.

use vstd::prelude::*;

verus! {

/// A byte is an ASCII uppercase letter.
pub open spec fn spec_is_upper(b: u8) -> bool {
    65 <= b <= 90
}

/// A byte is an ASCII lowercase letter.
pub open spec fn spec_is_lower(b: u8) -> bool {
    97 <= b <= 122
}

/// A byte is an ASCII letter.
pub open spec fn spec_is_alpha(b: u8) -> bool {
    spec_is_upper(b) || spec_is_lower(b)
}

/// A character is an ASCII letter.
pub open spec fn spec_is_alpha_char(c: char) -> bool {
    65 <= c as u32 <= 90 || 97 <= c as u32 <= 122
}

/// A four-character text names the four type-code bytes `t`: each
/// character's code point equals the byte at the same position.
pub open spec fn text_names(t: Seq<u8>, s: Seq<char>) -> bool {
    &&& t.len() == 4
    &&& s.len() == 4
    &&& forall|i: int| 0 <= i < 4 ==> t[i] as u32 == #[trigger] s[i] as u32
}

/// Rejection of a chunk-type text that is not exactly four ASCII
/// alphabetic characters.
#[derive(Debug, Clone, Copy, PartialEq, Eq)]
pub enum ChunkTypeError {
    InvalidFormat,
}

/// A 4-byte chunk type identifier. Codes built from raw bytes may hold
/// any bytes; codes built from text hold ASCII letters only.
#[derive(Debug, Clone, Copy, PartialEq, Eq)]
pub struct ChunkType {
    pub chunks: [u8; 4],
}

impl View for ChunkType {
    type V = Seq<u8>;

    open spec fn view(&self) -> Seq<u8> {
        self.chunks@
    }
}

impl ChunkType {
    /// Builds a type code from four raw bytes; any bytes are accepted,
    /// so that unknown codes read from a file never break parsing.
    pub fn try_from(value: [u8; 4]) -> (r: Result<ChunkType, ChunkTypeError>)
        ensures
            r matches Ok(t) && t@ == value@,
    {
        Ok(ChunkType { chunks: value })
    }

    /// Builds a type code from text: accepted exactly when the text is
    /// four ASCII alphabetic characters.
    pub fn from_str(s: &str) -> (r: Result<ChunkType, ChunkTypeError>)
        ensures
            match r {
                Ok(t) => text_names(t@, s@) && (forall|i: int|
                    0 <= i < 4 ==> spec_is_alpha(#[trigger] t@[i])),
                Err(e) => e == ChunkTypeError::InvalidFormat && !(s@.len() == 4 && (forall|i: int|
                    0 <= i < 4 ==> spec_is_alpha_char(#[trigger] s@[i]))),
            },
    {
        if s.unicode_len() != 4 {
            return Err(ChunkTypeError::InvalidFormat);
        }
        let c0 = s.get_char(0) as u32;
        let c1 = s.get_char(1) as u32;
        let c2 = s.get_char(2) as u32;
        let c3 = s.get_char(3) as u32;
        if !(char_code_is_alpha(c0) && char_code_is_alpha(c1) && char_code_is_alpha(c2)
            && char_code_is_alpha(c3)) {
            return Err(ChunkTypeError::InvalidFormat);
        }
        let t = ChunkType { chunks: [c0 as u8, c1 as u8, c2 as u8, c3 as u8] };
        assert(t@ =~= seq![c0 as u8, c1 as u8, c2 as u8, c3 as u8]);
        Ok(t)
    }

    /// The exact stored bytes, used for display and as checksum input.
    pub fn bytes(&self) -> (r: [u8; 4])
        ensures
            r@ == self@,
    {
        self.chunks
    }

    /// Appends the four type bytes.
    pub fn push_bytes(&self, out: &mut Vec<u8>)
        ensures
            final(out)@ == old(out)@ + self@,
    {
        out.push(self.chunks[0]);
        out.push(self.chunks[1]);
        out.push(self.chunks[2]);
        out.push(self.chunks[3]);
        assert(out@ =~= old(out)@ + self@);
    }

    /// The reserved property bit is valid: the third byte is uppercase.
    pub fn is_valid(&self) -> (r: bool)
        ensures
            r == spec_is_upper(self@[2]),
    {
        65 <= self.chunks[2] && self.chunks[2] <= 90
    }

    /// The chunk is critical: the first byte is uppercase.
    pub fn is_critical(&self) -> (r: bool)
        ensures
            r == spec_is_upper(self@[0]),
    {
        65 <= self.chunks[0] && self.chunks[0] <= 90
    }

    /// The type is public: the second byte is uppercase.
    pub fn is_public(&self) -> (r: bool)
        ensures
            r == spec_is_upper(self@[1]),
    {
        65 <= self.chunks[1] && self.chunks[1] <= 90
    }

    /// The reserved bit test, as the format's reserved-bit rule states it.
    pub fn is_reserved_bit_valid(&self) -> (r: bool)
        ensures
            r == spec_is_upper(self@[2]),
    {
        self.is_valid()
    }

    /// The chunk is safe to copy: the fourth byte is lowercase.
    pub fn is_safe_to_copy(&self) -> (r: bool)
        ensures
            r == spec_is_lower(self@[3]),
    {
        97 <= self.chunks[3] && self.chunks[3] <= 122
    }

    /// The four bytes rendered as text; meaningful only for alphabetic
    /// type codes, so only those are accepted.
    pub fn to_text(&self) -> (r: String)
        requires
            forall|i: int| 0 <= i < 4 ==> spec_is_alpha(#[trigger] self@[i]),
        ensures
            text_names(self@, r@),
    {
        let mut out = String::new();
        assert(spec_is_alpha(self@[0]) && spec_is_alpha(self@[1]) && spec_is_alpha(self@[2])
            && spec_is_alpha(self@[3]));
        out.push(byte_to_char(self.chunks[0]));
        out.push(byte_to_char(self.chunks[1]));
        out.push(byte_to_char(self.chunks[2]));
        out.push(byte_to_char(self.chunks[3]));
        assert(out@ =~= seq![
            self@[0] as char,
            self@[1] as char,
            self@[2] as char,
            self@[3] as char,
        ]);
        out
    }
}

/// Relies on String::push: appends the given character to the end of
/// the string.
pub assume_specification[ String::push ](s: &mut String, ch: char)
    ensures
        final(s)@ == old(s)@.push(ch),
;

/// A code point is that of an ASCII letter.
fn char_code_is_alpha(v: u32) -> (r: bool)
    ensures
        r == (65 <= v <= 90 || 97 <= v <= 122),
{
    (65 <= v && v <= 90) || (97 <= v && v <= 122)
}

/// An ASCII byte as the character it encodes.
fn byte_to_char(b: u8) -> (r: char)
    requires
        b < 128,
    ensures
        r == b as char,
        r as u32 == b as u32,
{
    b as char
}

} // verus!

