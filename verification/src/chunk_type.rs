use vstd::prelude::*;
use vstd::slice::slice_index_get;
use vstd::string::StringSliceAdditionalSpecFns;
use vstd::utf8::{encode_utf8, is_ascii_chars, is_ascii_chars_encode_utf8};
use crate::error::PngError;
use crate::text::{ascii_chars_of, lemma_ascii_bytes_utf8, utf8_to_string};

verus! {

/// `b` is an ASCII letter.
pub open spec fn is_alpha(b: u8) -> bool {
    (65 <= b && b <= 90) || (97 <= b && b <= 122)
}

/// `b` is an ASCII uppercase letter.
pub open spec fn is_upper(b: u8) -> bool {
    65 <= b && b <= 90
}

/// `b` is an ASCII lowercase letter.
pub open spec fn is_lower(b: u8) -> bool {
    97 <= b && b <= 122
}

/// Every byte of `s` is an ASCII letter.
pub open spec fn all_alpha(s: Seq<u8>) -> bool {
    forall|i: int| 0 <= i < s.len() ==> is_alpha(#[trigger] s[i])
}

/// `c` is an ASCII letter character.
pub open spec fn is_alpha_char(c: char) -> bool {
    ('A' <= c && c <= 'Z') || ('a' <= c && c <= 'z')
}

fn byte_is_alpha(b: u8) -> (r: bool)
    ensures
        r == is_alpha(b),
{
    (65 <= b && b <= 90) || (97 <= b && b <= 122)
}

/// The 4-byte type tag of a chunk. A value is only constructible when every
/// byte is an ASCII letter; the casing of each position carries the property
/// bits of the PNG chunk-type semantics.
#[derive(Debug, PartialEq, Eq, Clone, Copy)]
pub struct ChunkType {
    chunk_type: [u8; 4],
}

impl View for ChunkType {
    type V = Seq<u8>;

    closed spec fn view(&self) -> Seq<u8> {
        self.chunk_type@
    }
}

impl ChunkType {
    /// Every constructible value has exactly 4 bytes, all ASCII letters.
    pub open spec fn wf(self) -> bool {
        self@.len() == 4 && all_alpha(self@)
    }

    /// The raw 4 bytes of the type tag.
    pub fn bytes(&self) -> (r: [u8; 4])
        ensures
            r@ == self@,
    {
        self.chunk_type
    }

    /// Build a type tag from 4 raw bytes; succeeds exactly when every byte is
    /// an ASCII letter.
    pub fn try_from(bytes: [u8; 4]) -> (r: Result<ChunkType, PngError>)
        ensures
            r is Ok <==> all_alpha(bytes@),
            r is Ok ==> r->Ok_0@ == bytes@ && r->Ok_0.wf(),
            r is Err ==> r->Err_0 == PngError::InvalidType,
    {
        let ok = byte_is_alpha(bytes[0]) && byte_is_alpha(bytes[1]) && byte_is_alpha(bytes[2])
            && byte_is_alpha(bytes[3]);
        if ok {
            proof {
                assert forall|i: int| 0 <= i < 4 implies is_alpha(#[trigger] bytes@[i]) by {
                    assert(i == 0 || i == 1 || i == 2 || i == 3);
                }
            }
            Ok(ChunkType { chunk_type: bytes })
        } else {
            Err(PngError::InvalidType)
        }
    }

    /// Build a type tag from a text string; succeeds exactly when the string
    /// encodes to 4 bytes, all ASCII letters.
    pub fn from_str(s: &str) -> (r: Result<ChunkType, PngError>)
        ensures
            r is Ok <==> (s.spec_bytes().len() == 4 && all_alpha(s.spec_bytes())),
            r is Ok ==> r->Ok_0@ == s.spec_bytes() && r->Ok_0.wf(),
            r is Err ==> r->Err_0 == PngError::InvalidType,
    {
        let b = s.as_bytes();
        if b.len() != 4 {
            return Err(PngError::InvalidType);
        }
        let arr = [*slice_index_get(b, 0), *slice_index_get(b, 1), *slice_index_get(b, 2),
            *slice_index_get(b, 3)];
        proof {
            assert(arr@ =~= s.spec_bytes());
        }
        Self::try_from(arr)
    }

    /// True iff position 0 is uppercase: a decoder must understand the chunk.
    pub fn is_critical(&self) -> (r: bool)
        ensures
            r == is_upper(self@[0]),
    {
        let b = self.chunk_type[0];
        65 <= b && b <= 90
    }

    /// True iff position 1 is uppercase: the type is registered, not private.
    pub fn is_public(&self) -> (r: bool)
        ensures
            r == is_upper(self@[1]),
    {
        let b = self.chunk_type[1];
        65 <= b && b <= 90
    }

    /// True iff position 2 is uppercase: the reserved conformance bit holds.
    pub fn is_reserved_bit_valid(&self) -> (r: bool)
        ensures
            r == is_upper(self@[2]),
    {
        let reserved_bit = self.chunk_type[2];
        65 <= reserved_bit && reserved_bit <= 90
    }

    /// True iff position 3 is lowercase: editors may copy the chunk unread.
    pub fn is_safe_to_copy(&self) -> (r: bool)
        ensures
            r == is_lower(self@[3]),
    {
        let b = self.chunk_type[3];
        97 <= b && b <= 122
    }

    /// True iff all 4 bytes are ASCII letters and position 2 is uppercase.
    pub fn is_valid(&self) -> (r: bool)
        ensures
            r == (all_alpha(self@) && is_upper(self@[2])),
    {
        let alpha = byte_is_alpha(self.chunk_type[0]) && byte_is_alpha(self.chunk_type[1])
            && byte_is_alpha(self.chunk_type[2]) && byte_is_alpha(self.chunk_type[3]);
        proof {
            if alpha {
                assert forall|i: int| 0 <= i < self@.len() implies is_alpha(
                    #[trigger] self@[i],
                ) by {
                    assert(i == 0 || i == 1 || i == 2 || i == 3);
                }
            }
        }
        alpha && self.is_reserved_bit_valid()
    }

    /// Byte-wise equality of two type tags.
    pub fn eq_bytes(&self, other: &ChunkType) -> (r: bool)
        ensures
            r == (self@ == other@),
    {
        let a = self.chunk_type;
        let b = other.chunk_type;
        let r = a[0] == b[0] && a[1] == b[1] && a[2] == b[2] && a[3] == b[3];
        proof {
            if r {
                assert(self@ =~= other@);
            } else if self@ == other@ {
                assert(a@[0] == b@[0] && a@[1] == b@[1] && a@[2] == b@[2] && a@[3] == b@[3]);
            }
        }
        r
    }

    /// The 4 bytes rendered as text, one character per byte.
    pub fn to_text(&self) -> (r: String)
        requires
            self.wf(),
        ensures
            r@ == ascii_chars_of(self@),
    {
        proof {
            lemma_ascii_bytes_utf8(self@);
        }
        match utf8_to_string(self.chunk_type.as_slice()) {
            Some(t) => t,
            None => vstd::pervasive::unreached(),
        }
    }
}

/// Law: parsing any 4-letter string to a type tag and rendering the tag back
/// as text gives the original string.
pub proof fn lemma_from_str_to_text_round_trip(s: Seq<char>)
    requires
        s.len() == 4,
        forall|i: int| 0 <= i < 4 ==> is_alpha_char(#[trigger] s[i]),
    ensures
        encode_utf8(s).len() == 4,
        all_alpha(encode_utf8(s)),
        ascii_chars_of(encode_utf8(s)) == s,
{
    assert forall|i: int| 0 <= i < s.len() implies '\0' <= #[trigger] s[i] <= '\u{7f}' by {
        assert(is_alpha_char(s[i]));
    }
    assert(is_ascii_chars(s));
    is_ascii_chars_encode_utf8(s);
    let b = encode_utf8(s);
    assert forall|i: int| 0 <= i < 4 implies is_alpha(#[trigger] b[i]) by {
        assert(s[i] as u8 == b[i]);
        assert(is_alpha_char(s[i]));
    }
    assert forall|i: int| 0 <= i < 4 implies ascii_chars_of(b)[i] == s[i] by {
        assert(s[i] as u8 == b[i]);
    }
    assert(ascii_chars_of(b) =~= s);
}

} // verus!
