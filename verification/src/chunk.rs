//! CRC-protected chunks: length, type code, payload and checksum, with
//! byte-exact serialization and cross-validating deserialization.
use vstd::prelude::*;
use vstd::slice::slice_index_get;
use vstd::utf8::decode_utf8;
use vstd::utf8::valid_utf8;
use crate::chunk_type::ChunkType;
use crate::chunk_type::spec_type_valid;
use crate::crc::crc32;
use crate::crc::crc32_of;
use crate::error::PngError;
use crate::text::utf8_from_bytes;
use crate::wire::copy_range;
use crate::wire::push_slice;
use crate::wire::push_u32_be;
use crate::wire::read_u32_be;
use crate::wire::spec_u32_from_be_bytes;
use crate::wire::spec_u32_to_be_bytes;
use crate::wire::lemma_u32_be_bytes_auto;
use crate::wire::lemma_u32_from_be_bytes_injective;

verus! {

/// What a chunk is mathematically: its type-code bytes and its payload.
/// The stored length and CRC of a well-formed chunk are functions of
/// these two sequences.
pub ghost struct ChunkModel {
    /// The four type-code bytes.
    pub type_code: Seq<u8>,
    /// The payload bytes.
    pub data: Seq<u8>,
}

/// A model a real chunk can carry: a 4-byte type code and a payload
/// whose length fits the 32-bit length field.
pub open spec fn chunk_model_wf(m: ChunkModel) -> bool {
    &&& m.type_code.len() == 4
    &&& m.data.len() <= u32::MAX
}

/// The serialized form of a chunk: 4-byte big-endian data length, the
/// type code, the data, then the big-endian CRC-32 of type code ++ data.
pub open spec fn spec_chunk_bytes(m: ChunkModel) -> Seq<u8> {
    spec_u32_to_be_bytes(m.data.len() as u32) + m.type_code + m.data + spec_u32_to_be_bytes(
        crc32_of(m.type_code + m.data),
    )
}

/// What parsing one chunk from the front of `bytes` yields: the length
/// field is read, the type code validated, exactly that many data bytes
/// taken, and the stored CRC compared against the recomputed one. Bytes
/// past the chunk are ignored.
pub open spec fn spec_parse_chunk(bytes: Seq<u8>) -> Result<ChunkModel, PngError> {
    if bytes.len() < 8 {
        Err(PngError::UnexpectedEof)
    } else {
        let len = spec_u32_from_be_bytes(bytes.subrange(0, 4)) as int;
        let t = bytes.subrange(4, 8);
        if !spec_type_valid(t) {
            Err(PngError::InvalidTypeCode)
        } else if bytes.len() < 12 + len {
            Err(PngError::UnexpectedEof)
        } else {
            let data = bytes.subrange(8, 8 + len);
            let stored = spec_u32_from_be_bytes(bytes.subrange(8 + len, 12 + len));
            if crc32_of(t + data) != stored {
                Err(PngError::CrcMismatch)
            } else {
                Ok(ChunkModel { type_code: t, data })
            }
        }
    }
}

/// How many bytes the chunk at the front of `bytes` occupies, read from
/// its length field.
pub open spec fn spec_chunk_size(bytes: Seq<u8>) -> int {
    12 + spec_u32_from_be_bytes(bytes.subrange(0, 4))
}

/// A successful parse consumes `spec_chunk_size` bytes, which fit in the
/// input, and yields a well-formed model.
pub proof fn lemma_parse_chunk_ok_bounds(bytes: Seq<u8>)
    requires
        spec_parse_chunk(bytes) is Ok,
    ensures
        chunk_model_wf(spec_parse_chunk(bytes)->Ok_0),
        spec_type_valid(spec_parse_chunk(bytes)->Ok_0.type_code),
        spec_chunk_size(bytes) == 12 + spec_parse_chunk(bytes)->Ok_0.data.len(),
        12 <= spec_chunk_size(bytes) <= bytes.len(),
{
}

/// A length-prefixed, type-tagged, CRC-protected record of a PNG stream.
#[derive(Debug)]
pub struct Chunk {
    /// Byte count of `data` alone, as stored in the length field.
    length: u32,
    /// The 4-byte chunk type code.
    chunk_type: ChunkType,
    /// The payload, owned by this chunk.
    data: Vec<u8>,
    /// The ISO-3309 CRC-32 over type-code bytes ++ data bytes.
    crc: u32,
}

impl View for Chunk {
    type V = ChunkModel;

    closed spec fn view(&self) -> ChunkModel {
        ChunkModel { type_code: self.chunk_type@, data: self.data@ }
    }
}

impl Chunk {
    /// The stored length and CRC agree with the type and data bytes.
    /// Every chunk built by `new` or a successful `parse` satisfies this.
    pub closed spec fn wf(&self) -> bool {
        &&& self.data@.len() <= u32::MAX
        &&& self.length == self.data@.len() as u32
        &&& self.crc == crc32_of(self.chunk_type@ + self.data@)
    }

    /// A well-formed chunk carries a well-formed model.
    pub proof fn lemma_wf_model(&self)
        requires
            self.wf(),
        ensures
            chunk_model_wf(self@),
    {
    }

    /// Builds a chunk from a type code and payload: the length is the
    /// payload's byte count and the CRC is computed over type ++ data.
    pub fn new(chunk_type: ChunkType, data: Vec<u8>) -> (r: Chunk)
        requires
            data@.len() <= u32::MAX,
        ensures
            r.wf(),
            r@ == (ChunkModel { type_code: chunk_type@, data: data@ }),
    {
        let mut buf: Vec<u8> = Vec::new();
        let tb = chunk_type.bytes();
        buf.push(tb[0]);
        buf.push(tb[1]);
        buf.push(tb[2]);
        buf.push(tb[3]);
        proof {
            assert(buf@ =~= chunk_type@);
        }
        push_slice(&mut buf, data.as_slice());
        let crc = crc32(buf.as_slice());
        let length = data.len() as u32;
        Chunk { length, chunk_type, data, crc }
    }

    /// The stored data length.
    pub fn length(&self) -> (r: u32)
        ensures
            self.wf() ==> r as int == self@.data.len(),
    {
        self.length
    }

    /// The chunk's type code.
    pub fn chunk_type(&self) -> (r: &ChunkType)
        ensures
            r@ == self@.type_code,
    {
        &self.chunk_type
    }

    /// The payload bytes.
    pub fn data(&self) -> (r: &[u8])
        ensures
            r@ == self@.data,
    {
        self.data.as_slice()
    }

    /// The stored CRC-32.
    pub fn crc(&self) -> (r: u32)
        ensures
            self.wf() ==> r == crc32_of(self@.type_code + self@.data),
    {
        self.crc
    }

    /// Decodes the payload as UTF-8; fails with `InvalidEncoding` if and
    /// only if the payload is not valid UTF-8. No lossy fallback.
    pub fn data_as_string(&self) -> (r: Result<String, PngError>)
        ensures
            valid_utf8(self@.data) ==> (r matches Ok(s) && s@ == decode_utf8(self@.data)),
            !valid_utf8(self@.data) ==> r == Err::<String, PngError>(PngError::InvalidEncoding),
    {
        match utf8_from_bytes(self.data.as_slice()) {
            Some(s) => Ok(s.to_owned()),
            None => Err(PngError::InvalidEncoding),
        }
    }

    /// Serializes the chunk in the on-disk order: big-endian length,
    /// type code, data, big-endian CRC.
    pub fn as_bytes(&self) -> (r: Vec<u8>)
        ensures
            self.wf() ==> r@ == spec_chunk_bytes(self@),
    {
        let mut out: Vec<u8> = Vec::new();
        push_u32_be(&mut out, self.length);
        let tb = self.chunk_type.bytes();
        out.push(tb[0]);
        out.push(tb[1]);
        out.push(tb[2]);
        out.push(tb[3]);
        proof {
            assert(out@ =~= spec_u32_to_be_bytes(self.length) + self.chunk_type@);
        }
        push_slice(&mut out, self.data.as_slice());
        push_u32_be(&mut out, self.crc);
        proof {
            if self.wf() {
                assert(out@ =~= spec_chunk_bytes(self@));
            }
        }
        out
    }

    /// Parses one chunk from the front of `bytes`, cross-checking the
    /// stored length and CRC against values recomputed from the parsed
    /// type and data. The outcome is exactly `spec_parse_chunk`.
    pub fn parse(bytes: &[u8]) -> (r: Result<Chunk, PngError>)
        ensures
            match spec_parse_chunk(bytes@) {
                Ok(m) => r matches Ok(c) && c.wf() && c@ == m,
                Err(e) => r == Err::<Chunk, PngError>(e),
            },
    {
        let n = bytes.len();
        if n < 8 {
            return Err(PngError::UnexpectedEof);
        }
        let length_u32 = read_u32_be(bytes, 0);
        let t0 = *slice_index_get(bytes, 4);
        let t1 = *slice_index_get(bytes, 5);
        let t2 = *slice_index_get(bytes, 6);
        let t3 = *slice_index_get(bytes, 7);
        let type_arr: [u8; 4] = [t0, t1, t2, t3];
        proof {
            assert(type_arr@ =~= bytes@.subrange(4, 8));
        }
        let chunk_type = match ChunkType::from_bytes(type_arr) {
            Ok(t) => t,
            Err(e) => {
                return Err(e);
            },
        };
        let len = length_u32 as usize;
        if n < 12 || n - 12 < len {
            return Err(PngError::UnexpectedEof);
        }
        let data = copy_range(bytes, 8, 8 + len);
        let stored_crc = read_u32_be(bytes, 8 + len);
        let chunk = Chunk::new(chunk_type, data);
        // The length can only disagree if the data segment was cut short,
        // which the size check above already rules out.
        if chunk.length() != length_u32 {
            return Err(PngError::LengthMismatch);
        }
        if chunk.crc() != stored_crc {
            return Err(PngError::CrcMismatch);
        }
        Ok(chunk)
    }
}

/// Round trip: serializing any chunk whose type code passes the strict
/// rule and parsing the result yields the chunk back, with identical
/// type, data, length and CRC.
pub proof fn lemma_chunk_round_trip(m: ChunkModel)
    requires
        chunk_model_wf(m),
        spec_type_valid(m.type_code),
    ensures
        spec_parse_chunk(spec_chunk_bytes(m)) == Ok::<ChunkModel, PngError>(m),
{
    let s = spec_chunk_bytes(m);
    let len = m.data.len() as int;
    lemma_u32_be_bytes_auto();
    assert(s.len() == 12 + len);
    assert(s.subrange(0, 4) =~= spec_u32_to_be_bytes(m.data.len() as u32));
    assert(s.subrange(4, 8) =~= m.type_code);
    assert(s.subrange(8, 8 + len) =~= m.data);
    assert(s.subrange(8 + len, 12 + len) =~= spec_u32_to_be_bytes(crc32_of(m.type_code + m.data)));
    assert(spec_u32_from_be_bytes(s.subrange(0, 4)) == m.data.len() as u32);
    assert(spec_parse_chunk(s)->Ok_0 =~= m);
}

/// Tamper detection in the checksum field: corrupting any byte of a
/// serialized chunk's CRC region (in particular, flipping any single
/// bit there) makes parsing fail with `CrcMismatch`.
pub proof fn lemma_corrupt_crc_detected(m: ChunkModel, b: Seq<u8>, j: int)
    requires
        chunk_model_wf(m),
        spec_type_valid(m.type_code),
        b.len() == spec_chunk_bytes(m).len(),
        8 + m.data.len() <= j < b.len(),
        forall|k: int| 0 <= k < b.len() && k != j ==> b[k] == #[trigger] spec_chunk_bytes(m)[k],
        b[j] != spec_chunk_bytes(m)[j],
    ensures
        spec_parse_chunk(b) == Err::<ChunkModel, PngError>(PngError::CrcMismatch),
{
    let s = spec_chunk_bytes(m);
    let len = m.data.len() as int;
    lemma_u32_be_bytes_auto();
    assert(s.subrange(0, 4) =~= spec_u32_to_be_bytes(m.data.len() as u32));
    assert(s.subrange(4, 8) =~= m.type_code);
    assert(s.subrange(8, 8 + len) =~= m.data);
    assert(b.subrange(0, 4) =~= s.subrange(0, 4));
    assert(b.subrange(4, 8) =~= m.type_code);
    assert(b.subrange(8, 8 + len) =~= m.data);
    assert(spec_u32_from_be_bytes(b.subrange(0, 4)) == m.data.len() as u32);
    let crc_bytes = s.subrange(8 + len, 12 + len);
    let bad_bytes = b.subrange(8 + len, 12 + len);
    assert(crc_bytes =~= spec_u32_to_be_bytes(crc32_of(m.type_code + m.data)));
    assert(bad_bytes[j - (8 + len)] != crc_bytes[j - (8 + len)]);
    lemma_u32_from_be_bytes_injective(bad_bytes, crc_bytes);
    assert(spec_u32_from_be_bytes(crc_bytes) == crc32_of(m.type_code + m.data));
}

/// Tamper detection in the data region: any corruption of the data bytes
/// that changes the recomputed checksum (every corruption but a CRC-32
/// collision) makes parsing fail with `CrcMismatch`.
pub proof fn lemma_corrupt_data_detected(m: ChunkModel, b: Seq<u8>)
    requires
        chunk_model_wf(m),
        spec_type_valid(m.type_code),
        b.len() == spec_chunk_bytes(m).len(),
        b.subrange(0, 8) == spec_chunk_bytes(m).subrange(0, 8),
        b.subrange(8 + m.data.len() as int, 12 + m.data.len() as int) == spec_chunk_bytes(
            m,
        ).subrange(8 + m.data.len() as int, 12 + m.data.len() as int),
        crc32_of(m.type_code + b.subrange(8, 8 + m.data.len() as int)) != crc32_of(
            m.type_code + m.data,
        ),
    ensures
        spec_parse_chunk(b) == Err::<ChunkModel, PngError>(PngError::CrcMismatch),
{
    let s = spec_chunk_bytes(m);
    let len = m.data.len() as int;
    lemma_u32_be_bytes_auto();
    assert(s.subrange(0, 4) =~= spec_u32_to_be_bytes(m.data.len() as u32));
    assert(s.subrange(4, 8) =~= m.type_code);
    assert(b.subrange(0, 4) =~= b.subrange(0, 8).subrange(0, 4));
    assert(b.subrange(4, 8) =~= b.subrange(0, 8).subrange(4, 8));
    assert(s.subrange(0, 4) =~= s.subrange(0, 8).subrange(0, 4));
    assert(s.subrange(4, 8) =~= s.subrange(0, 8).subrange(4, 8));
    assert(b.subrange(0, 4) =~= s.subrange(0, 4));
    assert(b.subrange(4, 8) =~= s.subrange(4, 8));
    assert(spec_u32_from_be_bytes(b.subrange(0, 4)) == m.data.len() as u32);
    let crc_bytes = s.subrange(8 + len, 12 + len);
    assert(crc_bytes =~= spec_u32_to_be_bytes(crc32_of(m.type_code + m.data)));
    assert(spec_u32_from_be_bytes(b.subrange(8 + len, 12 + len)) == crc32_of(
        m.type_code + m.data,
    ));
}

} // verus!
