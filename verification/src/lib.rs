//! Chunk-level manipulation of PNG byte streams: parsing and re-serializing
//! the length-prefixed, CRC-checked chunk stream that follows the fixed PNG
//! signature, so that an auxiliary payload can be embedded in, extracted
//! from, or removed from a PNG container while keeping the file a valid PNG.
//!
//! The operations below work on whole in-memory file images; reading and
//! writing the actual files is the caller's business.

pub mod be32;
pub mod chunk;
pub mod chunk_type;
pub mod error;
pub mod png;
pub mod text;

use vstd::prelude::*;
use vstd::slice::slice_index_get;
use vstd::string::{StringSliceAdditionalSpecFns, StrSliceExecFns};
use vstd::utf8::{decode_utf8, valid_utf8};
use crate::chunk::{model_bytes, Chunk, ChunkModel};
use crate::chunk_type::{all_alpha, ChunkType};
use crate::error::PngError;
use crate::png::{
    first_of_type, lemma_container_round_trip, lemma_first_of_type_props, lemma_models_bytes_push,
    models_of, png_bytes, png_parse, Png,
};
use crate::text::ascii_chars_of;

verus! {

/// Decode `file_bytes` as a container, append one chunk built from
/// `chunk_type` and the bytes of `message`, and serialize the result. The
/// output is exactly the input followed by the new chunk's on-wire bytes.
pub fn hide_message(chunk_type: &str, message: &str, file_bytes: &[u8]) -> (r: Result<
    Vec<u8>,
    PngError,
>)
    requires
        message.spec_bytes().len() <= u32::MAX,
    ensures
        ({
            let tb = chunk_type.spec_bytes();
            let m = ChunkModel { ctype: tb, data: message.spec_bytes() };
            match png_parse(file_bytes@) {
                Err(e) => r == Err::<Vec<u8>, PngError>(e),
                Ok(ms) => {
                    if !(tb.len() == 4 && all_alpha(tb)) {
                        r == Err::<Vec<u8>, PngError>(PngError::InvalidType)
                    } else {
                        r is Ok && r->Ok_0@ == png_bytes(ms.push(m)) && r->Ok_0@ == file_bytes@
                            + model_bytes(m)
                    }
                },
            }
        }),
{
    let mut png = match Png::try_from(file_bytes) {
        Err(e) => {
            return Err(e);
        },
        Ok(p) => p,
    };
    let ct = match ChunkType::from_str(chunk_type) {
        Err(e) => {
            return Err(e);
        },
        Ok(t) => t,
    };
    let data = message.as_bytes_vec();
    let ghost ms = models_of(png@);
    let ghost m = ChunkModel { ctype: ct@, data: data@ };
    let new_chunk = Chunk::new(ct, data);
    png.append_chunk(new_chunk);
    proof {
        assert(models_of(png@) =~= ms.push(m));
        lemma_models_bytes_push(ms, m);
        lemma_container_round_trip(file_bytes@);
        assert(png_bytes(ms.push(m)) =~= png_bytes(ms) + model_bytes(m));
    }
    Ok(png.as_bytes())
}

/// Decode `file_bytes` as a container, find the first chunk of the given
/// type, and return its payload as text. Fails with `NotFound` when no chunk
/// of that type exists and with `EncodingFailure` when the payload is not
/// valid UTF-8.
pub fn extract_message(file_bytes: &[u8], chunk_type: &str) -> (r: Result<String, PngError>)
    ensures
        ({
            let tb = chunk_type.spec_bytes();
            match png_parse(file_bytes@) {
                Err(e) => r == Err::<String, PngError>(e),
                Ok(ms) => match first_of_type(ms, tb) {
                    None => r == Err::<String, PngError>(PngError::NotFound),
                    Some(i) => {
                        if valid_utf8(ms[i].data) {
                            r is Ok && r->Ok_0@ == decode_utf8(ms[i].data)
                        } else {
                            r == Err::<String, PngError>(PngError::EncodingFailure)
                        }
                    },
                },
            }
        }),
{
    let png = match Png::try_from(file_bytes) {
        Err(e) => {
            return Err(e);
        },
        Ok(p) => p,
    };
    match png.chunk_by_type(chunk_type) {
        Some(chunk) => {
            proof {
                lemma_first_of_type_props(models_of(png@), chunk_type.spec_bytes());
                match first_of_type(models_of(png@), chunk_type.spec_bytes()) {
                    Some(i) => {
                        assert(models_of(png@)[i] == png@[i].model());
                    },
                    None => {},
                }
            }
            chunk.data_as_string()
        },
        None => Err(PngError::NotFound),
    }
}

/// Decode `file_bytes` as a container, remove the first chunk of the given
/// type, and serialize the result. Fails with `InvalidType` on a malformed
/// type string and with `NotFound` when no chunk matches; no bytes are
/// produced on failure.
pub fn remove_chunk(file_bytes: &[u8], chunk_type: &str) -> (r: Result<Vec<u8>, PngError>)
    ensures
        ({
            let tb = chunk_type.spec_bytes();
            match png_parse(file_bytes@) {
                Err(e) => r == Err::<Vec<u8>, PngError>(e),
                Ok(ms) => {
                    if !(tb.len() == 4 && all_alpha(tb)) {
                        r == Err::<Vec<u8>, PngError>(PngError::InvalidType)
                    } else {
                        match first_of_type(ms, tb) {
                            None => r == Err::<Vec<u8>, PngError>(PngError::NotFound),
                            Some(i) => r is Ok && r->Ok_0@ == png_bytes(ms.remove(i)),
                        }
                    }
                },
            }
        }),
{
    let mut png = match Png::try_from(file_bytes) {
        Err(e) => {
            return Err(e);
        },
        Ok(p) => p,
    };
    let ghost ms = models_of(png@);
    match png.remove_first_chunk(chunk_type) {
        Err(e) => Err(e),
        Ok(_removed) => {
            proof {
                lemma_first_of_type_props(ms, chunk_type.spec_bytes());
                match first_of_type(ms, chunk_type.spec_bytes()) {
                    Some(i) => {
                        assert(0 <= i < ms.len());
                        assert(models_of(png@) =~= ms.remove(i));
                    },
                    None => {},
                }
            }
            Ok(png.as_bytes())
        },
    }
}

/// Decode `file_bytes` as a container and list each chunk as its type's text
/// form paired with its payload length, in container order.
pub fn list_chunks(file_bytes: &[u8]) -> (r: Result<Vec<(String, u32)>, PngError>)
    ensures
        match png_parse(file_bytes@) {
            Err(e) => r == Err::<Vec<(String, u32)>, PngError>(e),
            Ok(ms) => r is Ok && r->Ok_0@.len() == ms.len() && (forall|i: int|
                0 <= i < ms.len() ==> (#[trigger] r->Ok_0@[i]).1 == ms[i].data.len()
                    && r->Ok_0@[i].0@ == ascii_chars_of(ms[i].ctype)),
        },
{
    let png = match Png::try_from(file_bytes) {
        Err(e) => {
            return Err(e);
        },
        Ok(p) => p,
    };
    let ghost ms = models_of(png@);
    let chunks = png.chunks();
    let mut res: Vec<(String, u32)> = Vec::new();
    let mut i: usize = 0;
    while i < chunks.len()
        invariant
            0 <= i <= chunks@.len(),
            png.wf(),
            chunks@ == png@,
            ms == models_of(png@),
            res@.len() == i,
            forall|j: int|
                0 <= j < i ==> (#[trigger] res@[j]).1 == ms[j].data.len() && res@[j].0@
                    == ascii_chars_of(ms[j].ctype),
        decreases chunks@.len() - i,
    {
        let c = slice_index_get(chunks, i);
        proof {
            assert(ms[i as int] == png@[i as int].model());
        }
        let entry = (c.chunk_type.to_text(), c.length());
        res.push(entry);
        i += 1;
    }
    Ok(res)
}

} // verus!
