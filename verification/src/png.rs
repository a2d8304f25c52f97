use vstd::prelude::*;
use vstd::slice::{slice_index_get, slice_subrange};
use crate::be32::{be_bytes_of, lemma_be_bytes_of_u32_of_be, u32_from_be, u32_of_be};
use crate::chunk::{crc32_of, model_bytes, parse_chunk, Chunk, ChunkModel};
use crate::chunk_type::{all_alpha, ChunkType};
use crate::error::PngError;
use vstd::string::StringSliceAdditionalSpecFns;

verus! {

/// The canonical 8-byte PNG signature that opens every container.
pub open spec fn spec_signature() -> Seq<u8> {
    seq![0x89u8, 0x50u8, 0x4eu8, 0x47u8, 0x0du8, 0x0au8, 0x1au8, 0x0au8]
}

/// The signature as an array, for building and checking real byte streams.
pub fn signature_bytes() -> (r: [u8; 8])
    ensures
        r@ == spec_signature(),
{
    let r = [0x89u8, 0x50u8, 0x4eu8, 0x47u8, 0x0du8, 0x0au8, 0x1au8, 0x0au8];
    proof {
        assert(r@ =~= spec_signature());
    }
    r
}

/// What decoding a chunk stream yields: chunks are read back to back until
/// the bytes are exhausted. Each step reads the declared length `l` from the
/// first 4 bytes, requires the stream to hold the full `12 + l` byte region,
/// and decodes that region as one chunk; the first failure is the result.
pub open spec fn parse_chunks(b: Seq<u8>) -> Result<Seq<ChunkModel>, PngError>
    decreases b.len(),
{
    if b.len() == 0 {
        Ok(Seq::empty())
    } else if b.len() < 12 {
        Err(PngError::MalformedInput)
    } else {
        let l = u32_of_be(b[0], b[1], b[2], b[3]) as int;
        if b.len() < 12 + l {
            Err(PngError::MalformedInput)
        } else {
            match parse_chunk(b.subrange(0, 12 + l)) {
                Err(e) => Err(e),
                Ok(m) => match parse_chunks(b.skip(12 + l)) {
                    Err(e) => Err(e),
                    Ok(rest) => Ok(seq![m] + rest),
                },
            }
        }
    }
}

/// What decoding a whole container yields: the 8-byte signature followed by
/// the chunk stream.
pub open spec fn png_parse(b: Seq<u8>) -> Result<Seq<ChunkModel>, PngError> {
    if b.len() < 8 || b.subrange(0, 8) != spec_signature() {
        Err(PngError::MalformedInput)
    } else {
        parse_chunks(b.skip(8))
    }
}

/// The concatenated on-wire form of a chunk sequence.
pub open spec fn models_bytes(ms: Seq<ChunkModel>) -> Seq<u8>
    decreases ms.len(),
{
    if ms.len() == 0 {
        Seq::empty()
    } else {
        model_bytes(ms[0]) + models_bytes(ms.drop_first())
    }
}

/// The on-wire form of a whole container: signature, then the chunks.
pub open spec fn png_bytes(ms: Seq<ChunkModel>) -> Seq<u8> {
    spec_signature() + models_bytes(ms)
}

/// The models of a sequence of chunks.
pub open spec fn models_of(cs: Seq<Chunk>) -> Seq<ChunkModel> {
    cs.map_values(|c: Chunk| c.model())
}

/// The index of the first chunk in `ms` whose type is `t`, if any.
pub open spec fn first_of_type(ms: Seq<ChunkModel>, t: Seq<u8>) -> Option<int>
    decreases ms.len(),
{
    if ms.len() == 0 {
        None
    } else if ms[0].ctype == t {
        Some(0int)
    } else {
        match first_of_type(ms.drop_first(), t) {
            None => None,
            Some(i) => Some(i + 1),
        }
    }
}

/// Connects `first_of_type` to a left-to-right scan: if no index below `k`
/// matches, the first match is at `k` exactly when `k` is in range and
/// matches, and there is none when the scan ran off the end.
pub proof fn lemma_first_of_type_at(ms: Seq<ChunkModel>, t: Seq<u8>, k: int)
    requires
        0 <= k <= ms.len(),
        forall|j: int| 0 <= j < k ==> (#[trigger] ms[j]).ctype != t,
    ensures
        k == ms.len() ==> first_of_type(ms, t) is None,
        k < ms.len() && ms[k].ctype == t ==> first_of_type(ms, t) == Some(k),
    decreases ms.len(),
{
    if ms.len() == 0 {
    } else if ms[0].ctype == t {
        assert(k == 0);
    } else {
        let rest = ms.drop_first();
        if k > 0 {
            assert forall|j: int| 0 <= j < k - 1 implies (#[trigger] rest[j]).ctype != t by {
                assert(rest[j] == ms[j + 1]);
            }
            lemma_first_of_type_at(rest, t, k - 1);
            if k < ms.len() && ms[k].ctype == t {
                assert(rest[k - 1] == ms[k]);
                assert(first_of_type(rest, t) == Some(k - 1));
            }
        }
    }
}

/// The full statement of `first_of_type`: a `None` means no chunk of that
/// type exists; a `Some(i)` points at a matching chunk preceded by none.
pub proof fn lemma_first_of_type_props(ms: Seq<ChunkModel>, t: Seq<u8>)
    ensures
        match first_of_type(ms, t) {
            None => forall|i: int| 0 <= i < ms.len() ==> (#[trigger] ms[i]).ctype != t,
            Some(i) => 0 <= i < ms.len() && ms[i].ctype == t && (forall|j: int|
                0 <= j < i ==> (#[trigger] ms[j]).ctype != t),
        },
    decreases ms.len(),
{
    if ms.len() == 0 {
    } else if ms[0].ctype == t {
    } else {
        let rest = ms.drop_first();
        lemma_first_of_type_props(rest, t);
        match first_of_type(rest, t) {
            None => {
                assert forall|i: int| 0 <= i < ms.len() implies (#[trigger] ms[i]).ctype != t by {
                    if i > 0 {
                        assert(ms[i] == rest[i - 1]);
                    }
                }
            },
            Some(i) => {
                assert(ms[i + 1] == rest[i]);
                assert forall|j: int| 0 <= j < i + 1 implies (#[trigger] ms[j]).ctype != t by {
                    if j > 0 {
                        assert(ms[j] == rest[j - 1]);
                    }
                }
            },
        }
    }
}

/// Glue for building a parse result chunk by chunk from the left.
pub open spec fn prepend_parsed(
    ms: Seq<ChunkModel>,
    r: Result<Seq<ChunkModel>, PngError>,
) -> Result<Seq<ChunkModel>, PngError> {
    match r {
        Ok(rest) => Ok(ms + rest),
        Err(e) => Err(e),
    }
}

/// Serializing after appending one chunk appends that chunk's bytes.
pub proof fn lemma_models_bytes_push(ms: Seq<ChunkModel>, m: ChunkModel)
    ensures
        models_bytes(ms.push(m)) == models_bytes(ms) + model_bytes(m),
    decreases ms.len(),
{
    if ms.len() == 0 {
        assert(ms.push(m)[0] == m);
        assert(ms.push(m).drop_first() =~= Seq::<ChunkModel>::empty());
        assert(models_bytes(ms.push(m)) == model_bytes(m) + models_bytes(
            Seq::<ChunkModel>::empty(),
        ));
        assert(model_bytes(m) + Seq::<u8>::empty() =~= model_bytes(m));
        assert(models_bytes(ms) + model_bytes(m) =~= model_bytes(m));
    } else {
        let rest = ms.drop_first();
        assert(ms.push(m)[0] == ms[0]);
        assert(ms.push(m).drop_first() =~= rest.push(m));
        lemma_models_bytes_push(rest, m);
        assert(models_bytes(ms.push(m)) == model_bytes(ms[0]) + (models_bytes(rest)
            + model_bytes(m)));
        assert(model_bytes(ms[0]) + (models_bytes(rest) + model_bytes(m)) =~= (model_bytes(ms[0])
            + models_bytes(rest)) + model_bytes(m));
        assert(models_bytes(ms) == model_bytes(ms[0]) + models_bytes(rest));
    }
}

/// A chunk region whose declared length field matches its actual size
/// serializes back to exactly itself once decoded.
proof fn lemma_region_round_trip(region: Seq<u8>)
    requires
        parse_chunk(region) is Ok,
        region.len() >= 12,
        region.len() == 12 + u32_of_be(region[0], region[1], region[2], region[3]) as int,
    ensures
        model_bytes(parse_chunk(region)->Ok_0) == region,
{
    let l = region.len() - 12;
    let m = parse_chunk(region)->Ok_0;
    assert(m.ctype == region.subrange(4, 8));
    assert(m.data == region.subrange(8, 8 + l));
    assert(m.data.len() == l);
    let covered = region.subrange(4, 8 + l);
    let stored = u32_of_be(region[8 + l], region[9 + l], region[10 + l], region[11 + l]);
    assert(stored == crc32_of(covered));
    assert(covered =~= m.ctype + m.data);
    assert(crc32_of(m.ctype + m.data) == stored);
    lemma_be_bytes_of_u32_of_be(region[0], region[1], region[2], region[3]);
    assert(m.data.len() as u32 == u32_of_be(region[0], region[1], region[2], region[3]));
    assert(be_bytes_of(m.data.len() as u32) =~= region.subrange(0, 4));
    lemma_be_bytes_of_u32_of_be(region[8 + l], region[9 + l], region[10 + l], region[11 + l]);
    assert(be_bytes_of(stored) =~= region.subrange(8 + l, 12 + l));
    assert(model_bytes(m) == region.subrange(0, 4) + region.subrange(4, 8) + region.subrange(
        8,
        8 + l,
    ) + region.subrange(8 + l, 12 + l));
    assert(model_bytes(m) =~= region);
}

/// Law: re-serializing the chunks decoded from a chunk stream reproduces the
/// stream byte for byte.
pub proof fn lemma_parse_chunks_round_trip(b: Seq<u8>)
    requires
        parse_chunks(b) is Ok,
    ensures
        models_bytes(parse_chunks(b)->Ok_0) == b,
    decreases b.len(),
{
    if b.len() == 0 {
        assert(models_bytes(parse_chunks(b)->Ok_0) =~= b);
    } else {
        let l = u32_of_be(b[0], b[1], b[2], b[3]) as int;
        let region = b.subrange(0, 12 + l);
        assert(region.len() == 12 + l);
        let m = parse_chunk(region)->Ok_0;
        let rest = b.skip(12 + l);
        assert(parse_chunk(region) is Ok);
        assert(region[0] == b[0] && region[1] == b[1] && region[2] == b[2] && region[3] == b[3]);
        lemma_region_round_trip(region);
        lemma_parse_chunks_round_trip(rest);
        let ms = parse_chunks(b)->Ok_0;
        assert(ms == seq![m] + parse_chunks(rest)->Ok_0);
        assert(ms.len() > 0 && ms[0] == m);
        assert(ms.drop_first() =~= parse_chunks(rest)->Ok_0);
        assert(models_bytes(ms) == model_bytes(m) + models_bytes(ms.drop_first()));
        assert(b =~= region + rest);
        assert(models_bytes(ms) =~= b);
    }
}

/// Law: re-serializing a decoded container reproduces the original byte
/// sequence exactly (the container round trip).
pub proof fn lemma_container_round_trip(b: Seq<u8>)
    requires
        png_parse(b) is Ok,
    ensures
        png_bytes(png_parse(b)->Ok_0) == b,
{
    let t = b.skip(8);
    let ms = png_parse(b)->Ok_0;
    assert(png_parse(b) == parse_chunks(t));
    lemma_parse_chunks_round_trip(t);
    assert(models_bytes(ms) == t);
    assert(b.subrange(0, 8) == spec_signature());
    assert(png_bytes(ms) == spec_signature() + models_bytes(ms));
    assert(spec_signature() + t =~= b);
}

/// Law: after appending a chunk whose type does not yet occur, looking that
/// type up finds exactly the appended chunk.
pub proof fn lemma_append_then_find(ms: Seq<ChunkModel>, m: ChunkModel)
    requires
        first_of_type(ms, m.ctype) is None,
    ensures
        first_of_type(ms.push(m), m.ctype) == Some(ms.len() as int),
    decreases ms.len(),
{
    if ms.len() == 0 {
        assert(ms.push(m)[0] == m);
    } else {
        assert(ms.push(m).drop_first() =~= ms.drop_first().push(m));
        lemma_append_then_find(ms.drop_first(), m);
    }
}

/// The ordered stream of chunks following the fixed PNG signature. The
/// container owns its chunks; decoding and re-serializing are inverse to one
/// another, and append/remove touch nothing but the named chunk.
#[derive(Debug)]
pub struct Png {
    chunks: Vec<Chunk>,
}

impl View for Png {
    type V = Seq<Chunk>;

    closed spec fn view(&self) -> Seq<Chunk> {
        self.chunks@
    }
}

impl Png {
    /// Every chunk of the container is well formed.
    pub open spec fn wf(self) -> bool {
        forall|i: int| 0 <= i < self@.len() ==> (#[trigger] self@[i]).wf()
    }

    /// Build a container directly from a chunk list.
    pub fn from_chunks(chunks: Vec<Chunk>) -> (r: Png)
        requires
            forall|i: int| 0 <= i < chunks@.len() ==> (#[trigger] chunks@[i]).wf(),
        ensures
            r@ == chunks@,
            r.wf(),
    {
        Png { chunks }
    }

    /// Decode a container from raw file bytes, as `png_parse` describes: the
    /// signature must open the input, and every chunk must decode; the first
    /// failure is the result and no container is returned.
    pub fn try_from(bytes: &[u8]) -> (r: Result<Png, PngError>)
        ensures
            match r {
                Ok(p) => png_parse(bytes@) == Ok::<Seq<ChunkModel>, PngError>(models_of(p@))
                    && p.wf(),
                Err(e) => png_parse(bytes@) == Err::<Seq<ChunkModel>, PngError>(e),
            },
    {
        let n = bytes.len();
        if n < 8 {
            return Err(PngError::MalformedInput);
        }
        let sig = signature_bytes();
        let mut i: usize = 0;
        while i < 8
            invariant
                0 <= i <= 8,
                n == bytes@.len(),
                n >= 8,
                sig@ == spec_signature(),
                forall|j: int| 0 <= j < i ==> bytes@[j] == spec_signature()[j],
            decreases 8 - i,
        {
            if *slice_index_get(bytes, i) != sig[i] {
                proof {
                    assert(bytes@.subrange(0, 8)[i as int] != spec_signature()[i as int]);
                }
                return Err(PngError::MalformedInput);
            }
            i += 1;
        }
        proof {
            assert(bytes@.subrange(0, 8) =~= spec_signature());
        }
        let mut chunks: Vec<Chunk> = Vec::new();
        let mut offset: usize = 8;
        while offset < n
            invariant
                8 <= offset <= n,
                n == bytes@.len(),
                bytes@.subrange(0, 8) == spec_signature(),
                forall|j: int| 0 <= j < chunks@.len() ==> (#[trigger] chunks@[j]).wf(),
                prepend_parsed(
                    models_of(chunks@),
                    parse_chunks(bytes@.subrange(offset as int, n as int)),
                ) == parse_chunks(bytes@.skip(8)),
            decreases n - offset,
        {
            let ghost tail = bytes@.subrange(offset as int, n as int);
            let rem = n - offset;
            if rem < 12 {
                proof {
                    assert(parse_chunks(tail) == Err::<Seq<ChunkModel>, PngError>(
                        PngError::MalformedInput,
                    ));
                }
                return Err(PngError::MalformedInput);
            }
            let l = u32_from_be(
                *slice_index_get(bytes, offset),
                *slice_index_get(bytes, offset + 1),
                *slice_index_get(bytes, offset + 2),
                *slice_index_get(bytes, offset + 3),
            ) as usize;
            proof {
                assert(tail[0] == bytes@[offset as int]);
                assert(tail[1] == bytes@[offset + 1]);
                assert(tail[2] == bytes@[offset + 2]);
                assert(tail[3] == bytes@[offset + 3]);
            }
            if l > rem - 12 {
                proof {
                    assert(parse_chunks(tail) == Err::<Seq<ChunkModel>, PngError>(
                        PngError::MalformedInput,
                    ));
                }
                return Err(PngError::MalformedInput);
            }
            let end = offset + 12 + l;
            let region = slice_subrange(bytes, offset, end);
            proof {
                assert(region@ =~= tail.subrange(0, 12 + l));
                assert(bytes@.subrange(end as int, n as int) =~= tail.skip(12 + l));
            }
            match Chunk::try_from(region) {
                Err(e) => {
                    proof {
                        assert(parse_chunks(tail) == Err::<Seq<ChunkModel>, PngError>(e));
                    }
                    return Err(e);
                },
                Ok(c) => {
                    proof {
                        assert(parse_chunks(tail) == prepend_parsed(
                            seq![c.model()],
                            parse_chunks(tail.skip(12 + l)),
                        ));
                        assert(models_of(chunks@.push(c)) =~= models_of(chunks@) + seq![
                            c.model(),
                        ]);
                        match parse_chunks(tail.skip(12 + l)) {
                            Ok(rest) => {
                                assert(models_of(chunks@) + (seq![c.model()] + rest) =~= (
                                models_of(chunks@) + seq![c.model()]) + rest);
                            },
                            Err(_) => {},
                        }
                    }
                    chunks.push(c);
                    offset = end;
                },
            }
        }
        proof {
            assert(bytes@.subrange(n as int, n as int) =~= Seq::<u8>::empty());
            assert(models_of(chunks@) + Seq::<ChunkModel>::empty() =~= models_of(chunks@));
        }
        Ok(Png { chunks })
    }

    /// Push a chunk to the end of the sequence; never deduplicates.
    pub fn append_chunk(&mut self, chunk: Chunk)
        requires
            chunk.wf(),
        ensures
            final(self)@ == old(self)@.push(chunk),
            old(self).wf() ==> final(self).wf(),
    {
        self.chunks.push(chunk);
        proof {
            if old(self).wf() {
                assert forall|i: int| 0 <= i < self@.len() implies (#[trigger] self@[i]).wf() by {
                    if i < old(self)@.len() {
                        assert(self@[i] == old(self)@[i]);
                    } else {
                        assert(self@[i] == chunk);
                    }
                }
            }
        }
    }

    /// A reference to the first chunk whose type's text form equals
    /// `chunk_type`, or `None` when no chunk of that type exists.
    pub fn chunk_by_type(&self, chunk_type: &str) -> (r: Option<&Chunk>)
        requires
            self.wf(),
        ensures
            match first_of_type(models_of(self@), chunk_type.spec_bytes()) {
                None => r is None,
                Some(i) => r is Some && *r->Some_0 == self@[i],
            },
    {
        let ghost tb = chunk_type.spec_bytes();
        let ghost ms = models_of(self@);
        let target = match ChunkType::from_str(chunk_type) {
            Err(_) => {
                proof {
                    assert forall|j: int| 0 <= j < ms.len() implies (#[trigger] ms[j]).ctype
                        != tb by {
                        assert(self@[j].wf());
                        assert(ms[j].ctype == self@[j].chunk_type@);
                    }
                    lemma_first_of_type_at(ms, tb, ms.len() as int);
                }
                return None;
            },
            Ok(t) => t,
        };
        let mut i: usize = 0;
        while i < self.chunks.len()
            invariant
                0 <= i <= self.chunks.len(),
                self.wf(),
                self@ == self.chunks@,
                target@ == tb,
                tb == chunk_type.spec_bytes(),
                ms == models_of(self@),
                forall|j: int| 0 <= j < i ==> (#[trigger] ms[j]).ctype != tb,
            decreases self.chunks.len() - i,
        {
            let c = slice_index_get(self.chunks.as_slice(), i);
            if c.chunk_type.eq_bytes(&target) {
                proof {
                    assert(*c == self@[i as int]);
                    assert(ms[i as int] == self@[i as int].model());
                    assert(ms[i as int].ctype == tb);
                    lemma_first_of_type_at(ms, tb, i as int);
                    assert(first_of_type(models_of(self@), chunk_type.spec_bytes()) == Some(
                        i as int,
                    ));
                }
                return Some(c);
            }
            proof {
                assert(ms[i as int].ctype == self@[i as int].chunk_type@);
            }
            i += 1;
        }
        proof {
            lemma_first_of_type_at(ms, tb, ms.len() as int);
        }
        None
    }

    /// Remove and return the first chunk whose type's text form equals
    /// `chunk_type`. Fails with `InvalidType` on a malformed type string and
    /// with `NotFound` when no chunk matches; either failure leaves the
    /// container unchanged, and at most one chunk is ever removed.
    pub fn remove_first_chunk(&mut self, chunk_type: &str) -> (r: Result<Chunk, PngError>)
        requires
            old(self).wf(),
        ensures
            final(self).wf(),
            ({
                let tb = chunk_type.spec_bytes();
                if !(tb.len() == 4 && all_alpha(tb)) {
                    r == Err::<Chunk, PngError>(PngError::InvalidType) && final(self)@ == old(
                        self,
                    )@
                } else {
                    match first_of_type(models_of(old(self)@), tb) {
                        None => r == Err::<Chunk, PngError>(PngError::NotFound) && final(self)@
                            == old(self)@,
                        Some(i) => r is Ok && r->Ok_0 == old(self)@[i] && final(self)@ == old(
                            self,
                        )@.remove(i),
                    }
                }
            }),
    {
        let ghost tb = chunk_type.spec_bytes();
        let ghost ms = models_of(old(self)@);
        let target = match ChunkType::from_str(chunk_type) {
            Err(_) => {
                return Err(PngError::InvalidType);
            },
            Ok(t) => t,
        };
        let mut i: usize = 0;
        while i < self.chunks.len()
            invariant
                0 <= i <= self.chunks.len(),
                self.wf(),
                self@ == self.chunks@,
                self@ == old(self)@,
                target@ == tb,
                tb == chunk_type.spec_bytes(),
                tb.len() == 4 && all_alpha(tb),
                ms == models_of(old(self)@),
                forall|j: int| 0 <= j < i ==> (#[trigger] ms[j]).ctype != tb,
            decreases self.chunks.len() - i,
        {
            let hit = {
                let c = slice_index_get(self.chunks.as_slice(), i);
                c.chunk_type.eq_bytes(&target)
            };
            if hit {
                proof {
                    assert(ms[i as int] == self@[i as int].model());
                    assert(ms[i as int].ctype == tb);
                    lemma_first_of_type_at(ms, tb, i as int);
                    assert(first_of_type(models_of(old(self)@), tb) == Some(i as int));
                }
                let c = self.chunks.remove(i);
                proof {
                    assert(c == old(self)@[i as int]);
                    assert(self@ == old(self)@.remove(i as int));
                    assert forall|k: int| 0 <= k < self@.len() implies (#[trigger] self@[k]).wf()
                        by {
                        assert(self@ == old(self)@.remove(i as int));
                        if k < i {
                            assert(self@[k] == old(self)@[k]);
                        } else {
                            assert(self@[k] == old(self)@[k + 1]);
                        }
                    }
                }
                return Ok(c);
            }
            proof {
                assert(ms[i as int].ctype == self@[i as int].chunk_type@);
            }
            i += 1;
        }
        proof {
            lemma_first_of_type_at(ms, tb, ms.len() as int);
        }
        Err(PngError::NotFound)
    }

    /// The full ordered chunk sequence, for read-only enumeration.
    pub fn chunks(&self) -> (r: &[Chunk])
        ensures
            r@ == self@,
    {
        self.chunks.as_slice()
    }

    /// Serialize the container: the signature, then each chunk's bytes in
    /// container order, with no gaps.
    pub fn as_bytes(&self) -> (r: Vec<u8>)
        requires
            self.wf(),
        ensures
            r@ == png_bytes(models_of(self@)),
    {
        let mut out: Vec<u8> = Vec::new();
        let sig = signature_bytes();
        out.extend_from_slice(sig.as_slice());
        proof {
            assert(models_of(self@.take(0)) =~= Seq::<ChunkModel>::empty());
            assert(out@ =~= spec_signature() + models_bytes(models_of(self@.take(0))));
        }
        let mut i: usize = 0;
        while i < self.chunks.len()
            invariant
                0 <= i <= self.chunks.len(),
                self.wf(),
                self@ == self.chunks@,
                out@ == spec_signature() + models_bytes(models_of(self@.take(i as int))),
            decreases self.chunks.len() - i,
        {
            let c = slice_index_get(self.chunks.as_slice(), i);
            let cb = c.as_bytes();
            out.extend_from_slice(cb.as_slice());
            proof {
                assert(models_of(self@.take(i + 1)) =~= models_of(self@.take(i as int)).push(
                    self@[i as int].model(),
                ));
                lemma_models_bytes_push(models_of(self@.take(i as int)), self@[i as int].model());
            }
            i += 1;
        }
        proof {
            assert(self@.take(self@.len() as int) =~= self@);
        }
        out
    }
}

} // verus!
