use vstd::prelude::*;
use vstd::slice::{slice_index_get, slice_subrange, slice_to_vec};
use vstd::utf8::{decode_utf8, valid_utf8};
use crate::be32::{be_bytes_of, lemma_be_bytes_of_u32_of_be, lemma_u32_of_be_bytes_of, push_u32_be,
    u32_from_be, u32_of_be};
use crate::chunk_type::{all_alpha, ChunkType};
use crate::error::PngError;
use crate::text::utf8_to_string;

verus! {

/// Name for the CRC-32 checksum (ISO-HDLC, the standard PNG polynomial) of a
/// byte sequence; the value depends on the bytes alone.
pub uninterp spec fn crc32_of(bytes: Seq<u8>) -> u32;

/// Relies on crc::Crc::<u32>::checksum with the CRC_32_ISO_HDLC algorithm:
/// a pure function of the input bytes.
#[verifier::external_body]
fn crc32_checksum(bytes: &[u8]) -> (r: u32)
    ensures
        r == crc32_of(bytes@),
{
    crc::Crc::<u32>::new(&crc::CRC_32_ISO_HDLC).checksum(bytes)
}

/// The mathematical content of a chunk: its 4 type bytes and its payload.
pub ghost struct ChunkModel {
    pub ctype: Seq<u8>,
    pub data: Seq<u8>,
}

impl ChunkModel {
    /// A chunk model a constructible `Chunk` can carry: a 4-byte all-letter
    /// type tag and a payload whose length fits the 4-byte length field.
    pub open spec fn wf(self) -> bool {
        self.ctype.len() == 4 && all_alpha(self.ctype) && self.data.len() <= u32::MAX
    }
}

/// The on-wire form of a chunk: `length:4 | type:4 | data | crc:4`, with the
/// length and the CRC over type‖data both big-endian.
pub open spec fn model_bytes(m: ChunkModel) -> Seq<u8> {
    be_bytes_of(m.data.len() as u32) + m.ctype + m.data + be_bytes_of(
        crc32_of(m.ctype + m.data),
    )
}

/// What decoding a byte slice as one chunk yields: the input must hold at
/// least the 12 fixed bytes; the stored CRC (the trailing 4 bytes) must equal
/// the CRC recomputed over everything between the length field and the stored
/// CRC; and the 4 type bytes must all be letters. The declared length field
/// is read but not checked against the slice: the data is everything between
/// byte 8 and the stored CRC.
pub open spec fn parse_chunk(b: Seq<u8>) -> Result<ChunkModel, PngError> {
    if b.len() < 12 {
        Err(PngError::MalformedInput)
    } else {
        let stored = u32_of_be(b[b.len() - 4], b[b.len() - 3], b[b.len() - 2], b[b.len() - 1]);
        let computed = crc32_of(b.subrange(4, b.len() - 4));
        if stored != computed {
            Err(PngError::IntegrityFailure { stored, computed })
        } else if !all_alpha(b.subrange(4, 8)) {
            Err(PngError::InvalidType)
        } else {
            Ok(ChunkModel { ctype: b.subrange(4, 8), data: b.subrange(8, b.len() - 4) })
        }
    }
}

/// One length-prefixed, CRC-checked unit of the chunk stream. The CRC is
/// never stored: it is recomputed from the type and data on demand, so a
/// constructed chunk is always internally consistent.
#[derive(Debug, PartialEq, Eq)]
pub struct Chunk {
    pub chunk_type: ChunkType,
    pub data: Vec<u8>,
}

impl Chunk {
    /// The mathematical content of this chunk.
    pub open spec fn model(self) -> ChunkModel {
        ChunkModel { ctype: self.chunk_type@, data: self.data@ }
    }

    pub open spec fn wf(self) -> bool {
        self.chunk_type.wf() && self.data@.len() <= u32::MAX
    }

    /// Build a chunk from a type tag and a payload; always succeeds.
    pub fn new(chunk_type: ChunkType, data: Vec<u8>) -> (r: Chunk)
        requires
            chunk_type.wf(),
            data@.len() <= u32::MAX,
        ensures
            r.chunk_type == chunk_type,
            r.data == data,
            r.wf(),
    {
        Chunk { chunk_type, data }
    }

    /// Decode one chunk from raw bytes, as `parse_chunk` describes.
    pub fn try_from(bytes: &[u8]) -> (r: Result<Chunk, PngError>)
        requires
            bytes@.len() <= 12 + u32::MAX,
        ensures
            match r {
                Ok(c) => parse_chunk(bytes@) == Ok::<ChunkModel, PngError>(c.model()) && c.wf(),
                Err(e) => parse_chunk(bytes@) == Err::<ChunkModel, PngError>(e),
            },
    {
        let n = bytes.len();
        if n < 12 {
            return Err(PngError::MalformedInput);
        }
        let stored = u32_from_be(
            *slice_index_get(bytes, n - 4),
            *slice_index_get(bytes, n - 3),
            *slice_index_get(bytes, n - 2),
            *slice_index_get(bytes, n - 1),
        );
        let covered = slice_subrange(bytes, 4, n - 4);
        let computed = crc32_checksum(covered);
        if stored != computed {
            return Err(PngError::IntegrityFailure { stored, computed });
        }
        let t = [*slice_index_get(bytes, 4), *slice_index_get(bytes, 5), *slice_index_get(
            bytes,
            6,
        ), *slice_index_get(bytes, 7)];
        proof {
            assert(t@ =~= bytes@.subrange(4, 8));
        }
        match ChunkType::try_from(t) {
            Err(e) => Err(e),
            Ok(ct) => {
                let data = slice_to_vec(slice_subrange(bytes, 8, n - 4));
                let c = Chunk { chunk_type: ct, data };
                proof {
                    assert(c.model() == parse_chunk(bytes@)->Ok_0);
                }
                Ok(c)
            },
        }
    }

    /// The payload's byte count, the value of the 4-byte length field.
    pub fn length(&self) -> (r: u32)
        requires
            self.wf(),
        ensures
            r == self.data@.len(),
    {
        self.data.len() as u32
    }

    /// The chunk's type tag.
    pub fn chunk_type(&self) -> (r: &ChunkType)
        ensures
            r == &self.chunk_type,
    {
        &self.chunk_type
    }

    /// The payload bytes.
    pub fn data(&self) -> (r: &[u8])
        ensures
            r@ == self.data@,
    {
        self.data.as_slice()
    }

    /// The CRC-32 over the 4 type bytes followed by the payload.
    pub fn crc(&self) -> (r: u32)
        ensures
            r == crc32_of(self.chunk_type@ + self.data@),
    {
        let t = self.chunk_type.bytes();
        let mut combined: Vec<u8> = Vec::new();
        combined.extend_from_slice(t.as_slice());
        combined.extend_from_slice(self.data.as_slice());
        proof {
            assert(combined@ =~= self.chunk_type@ + self.data@);
        }
        crc32_checksum(combined.as_slice())
    }

    /// The payload decoded as text; fails exactly when it is not valid UTF-8.
    pub fn data_as_string(&self) -> (r: Result<String, PngError>)
        ensures
            valid_utf8(self.data@) ==> r is Ok && r->Ok_0@ == decode_utf8(self.data@),
            !valid_utf8(self.data@) ==> r == Err::<String, PngError>(PngError::EncodingFailure),
    {
        match utf8_to_string(self.data.as_slice()) {
            Some(t) => Ok(t),
            None => Err(PngError::EncodingFailure),
        }
    }

    /// Serialize to the on-wire layout `length:4 | type:4 | data | crc:4`.
    pub fn as_bytes(&self) -> (r: Vec<u8>)
        requires
            self.wf(),
        ensures
            r@ == model_bytes(self.model()),
    {
        let mut out: Vec<u8> = Vec::new();
        push_u32_be(&mut out, self.data.len() as u32);
        let t = self.chunk_type.bytes();
        out.extend_from_slice(t.as_slice());
        out.extend_from_slice(self.data.as_slice());
        let c = self.crc();
        push_u32_be(&mut out, c);
        proof {
            assert(out@ =~= model_bytes(self.model()));
        }
        out
    }
}

/// Law: decoding the serialized bytes of any well-formed chunk yields that
/// chunk's type and data again (the chunk round trip).
pub proof fn lemma_chunk_round_trip(m: ChunkModel)
    requires
        m.wf(),
    ensures
        parse_chunk(model_bytes(m)) == Ok::<ChunkModel, PngError>(m),
{
    let b = model_bytes(m);
    let crc = crc32_of(m.ctype + m.data);
    assert(b.len() == 12 + m.data.len());
    assert(b.subrange(b.len() - 4, b.len() as int) =~= be_bytes_of(crc));
    lemma_u32_of_be_bytes_of(crc);
    assert(u32_of_be(b[b.len() - 4], b[b.len() - 3], b[b.len() - 2], b[b.len() - 1]) == crc);
    assert(b.subrange(4, b.len() - 4) =~= m.ctype + m.data);
    assert(b.subrange(4, 8) =~= m.ctype);
    assert(b.subrange(8, b.len() - 4) =~= m.data);
}

/// Law (one region of the corruption property): changing any single byte of
/// the stored CRC field of a serialized chunk makes decoding fail with an
/// integrity failure. Corruption of the type or data region is caught by the
/// checksum's error-detection strength, which is a property of the CRC
/// algorithm itself and is not stated here.
pub proof fn lemma_crc_field_corruption_detected(m: ChunkModel, b2: Seq<u8>, i: int)
    requires
        m.wf(),
        b2.len() == model_bytes(m).len(),
        model_bytes(m).len() - 4 <= i < model_bytes(m).len(),
        forall|j: int| 0 <= j < b2.len() && j != i ==> b2[j] == model_bytes(m)[j],
        b2[i] != model_bytes(m)[i],
    ensures
        parse_chunk(b2) is Err,
        parse_chunk(b2)->Err_0 is IntegrityFailure,
{
    let b = model_bytes(m);
    let crc = crc32_of(m.ctype + m.data);
    assert(b.len() == 12 + m.data.len());
    assert(b2.subrange(4, b2.len() - 4) =~= b.subrange(4, b.len() - 4));
    assert(b.subrange(4, b.len() - 4) =~= m.ctype + m.data);
    let stored = u32_of_be(b2[b2.len() - 4], b2[b2.len() - 3], b2[b2.len() - 2], b2[b2.len() - 1]);
    assert(b.subrange(b.len() - 4, b.len() as int) =~= be_bytes_of(crc));
    lemma_be_bytes_of_u32_of_be(
        b2[b2.len() - 4],
        b2[b2.len() - 3],
        b2[b2.len() - 2],
        b2[b2.len() - 1],
    );
    if stored == crc {
        assert(be_bytes_of(stored) == be_bytes_of(crc));
        assert(seq![b2[b2.len() - 4], b2[b2.len() - 3], b2[b2.len() - 2], b2[b2.len() - 1]]
            =~= b2.subrange(b2.len() - 4, b2.len() as int));
        assert(b2.subrange(b2.len() - 4, b2.len() as int) == b.subrange(
            b.len() - 4,
            b.len() as int,
        ));
        assert(b2[i] == b2.subrange(b2.len() - 4, b2.len() as int)[i - (b2.len() - 4)]);
        assert(b2[i] == b[i]);
        assert(false);
    }
}

} // verus!
