//! The PNG container: the fixed 8-byte signature followed by an ordered
//! sequence of chunks, with parse, serialize, lookup, append and remove.
use vstd::prelude::*;
use vstd::slice::slice_index_get;
use vstd::slice::slice_subrange;
use vstd::string::StringSliceAdditionalSpecFns;
use crate::chunk::Chunk;
use crate::chunk::ChunkModel;
use crate::chunk::chunk_model_wf;
use crate::chunk::lemma_parse_chunk_ok_bounds;
use crate::chunk::spec_chunk_bytes;
use crate::chunk::spec_parse_chunk;
use crate::chunk_type::ChunkType;
use crate::chunk_type::spec_type_valid;
use crate::crc::crc32_of;
use crate::error::PngError;
use crate::is_alpha;
use crate::wire::lemma_u32_be_bytes_auto;
use crate::wire::push_slice;
use crate::wire::spec_u32_from_be_bytes;
use crate::wire::spec_u32_to_be_bytes;

verus! {

/// What a container is mathematically: its signature bytes and the
/// models of its chunks, in on-disk order.
pub ghost struct PngModel {
    /// The 8 signature bytes.
    pub signature: Seq<u8>,
    /// The chunk models, in order.
    pub chunks: Seq<ChunkModel>,
}

/// The fixed 8-byte PNG magic that opens every container.
pub open spec fn spec_signature() -> Seq<u8> {
    seq![0x89u8, 0x50u8, 0x4eu8, 0x47u8, 0x0du8, 0x0au8, 0x1au8, 0x0au8]
}

/// A model a parse can produce: the standard signature, and every chunk
/// well formed with a strictly valid type code.
pub open spec fn png_model_wf(m: PngModel) -> bool {
    &&& m.signature == spec_signature()
    &&& forall|i: int| 0 <= i < m.chunks.len() ==> chunk_model_wf(#[trigger] m.chunks[i])
    &&& forall|i: int|
        0 <= i < m.chunks.len() ==> spec_type_valid((#[trigger] m.chunks[i]).type_code)
}

/// The concatenated serializations of a chunk sequence.
pub open spec fn spec_chunks_bytes(ms: Seq<ChunkModel>) -> Seq<u8>
    decreases ms.len(),
{
    if ms.len() == 0 {
        Seq::empty()
    } else {
        spec_chunk_bytes(ms[0]) + spec_chunks_bytes(ms.drop_first())
    }
}

/// The serialized container: signature, then each chunk in order.
pub open spec fn spec_png_bytes(m: PngModel) -> Seq<u8> {
    m.signature + spec_chunks_bytes(m.chunks)
}

/// What parsing the byte region after the signature yields: chunks are
/// read one after another until the input is exhausted, and the first
/// chunk failure aborts the whole parse.
pub open spec fn spec_parse_chunks(bytes: Seq<u8>) -> Result<Seq<ChunkModel>, PngError>
    decreases bytes.len(),
{
    if bytes.len() == 0 {
        Ok(Seq::empty())
    } else {
        match spec_parse_chunk(bytes) {
            Err(e) => Err(e),
            Ok(m) => if 12 + m.data.len() <= bytes.len() {
                match spec_parse_chunks(bytes.skip(12 + m.data.len() as int)) {
                    Err(e) => Err(e),
                    Ok(ms) => Ok(seq![m] + ms),
                }
            } else {
                Err(PngError::UnexpectedEof)
            },
        }
    }
}

/// Where the new chunk lands on append: before the present last chunk,
/// so a terminal marker keeps the tail; at the end if there is none.
pub open spec fn spec_append(chunks: Seq<ChunkModel>, m: ChunkModel) -> Seq<ChunkModel> {
    if chunks.len() == 0 {
        seq![m]
    } else {
        chunks.drop_last().push(m).push(chunks.last())
    }
}

/// Whether some chunk of the sequence carries type code `t`.
pub open spec fn match_in(chunks: Seq<ChunkModel>, t: Seq<u8>) -> bool {
    exists|i: int| 0 <= i < chunks.len() && (#[trigger] chunks[i]).type_code == t
}

/// The index of the first chunk with type code `t`; meaningful only
/// when `match_in` holds.
pub open spec fn first_match(chunks: Seq<ChunkModel>, t: Seq<u8>) -> int
    decreases chunks.len(),
{
    if chunks.len() == 0 {
        0
    } else if chunks[0].type_code == t {
        0
    } else {
        1 + first_match(chunks.drop_first(), t)
    }
}

/// `first_match` is the index of a match that nothing earlier matches.
pub proof fn lemma_first_match_at(chunks: Seq<ChunkModel>, t: Seq<u8>, i: int)
    requires
        0 <= i < chunks.len(),
        chunks[i].type_code == t,
        forall|k: int| 0 <= k < i ==> (#[trigger] chunks[k]).type_code != t,
    ensures
        first_match(chunks, t) == i,
    decreases i,
{
    if i > 0 {
        let rest = chunks.drop_first();
        assert forall|k: int| 0 <= k < i - 1 implies (#[trigger] rest[k]).type_code != t by {
            assert(rest[k] == chunks[k + 1]);
        }
        assert(rest[i - 1] == chunks[i]);
        lemma_first_match_at(rest, t, i - 1);
    }
}

/// The byte-level string rule shared by `remove_chunk` and
/// `chunk_by_type`: the target string is exactly 4 ASCII letters.
pub open spec fn spec_code_ok(b: Seq<u8>) -> bool {
    b.len() == 4 && forall|i: int| 0 <= i < 4 ==> is_alpha(#[trigger] b[i])
}

/// The PNG file structure: signature plus ordered chunk sequence.
pub struct PNG {
    /// The 8 signature bytes; always the standard magic.
    signature: [u8; 8],
    /// The chunks, in on-disk order.
    chunks: Vec<Chunk>,
}

impl View for PNG {
    type V = PngModel;

    closed spec fn view(&self) -> PngModel {
        PngModel {
            signature: self.signature@,
            chunks: Seq::new(self.chunks@.len(), |i: int| self.chunks@[i]@),
        }
    }
}

/// Finds the first chunk whose type code equals `target`.
fn find_first(chunks: &Vec<Chunk>, target: &ChunkType) -> (r: Option<usize>)
    ensures
        match r {
            Some(i) => i < chunks@.len() && chunks@[i as int]@.type_code == target@ && (forall|
                k: int,
            |
                0 <= k < i ==> (#[trigger] chunks@[k])@.type_code != target@),
            None => forall|k: int|
                0 <= k < chunks@.len() ==> (#[trigger] chunks@[k])@.type_code != target@,
        },
{
    let mut idx: usize = 0;
    while idx < chunks.len()
        invariant
            idx <= chunks@.len(),
            forall|k: int| 0 <= k < idx ==> (#[trigger] chunks@[k])@.type_code != target@,
        decreases chunks@.len() - idx,
    {
        if *chunks[idx].chunk_type() == *target {
            return Some(idx);
        }
        idx = idx + 1;
    }
    None
}

impl PNG {
    /// Every held chunk is well formed and the signature is standard.
    /// Containers built by `from_chunks` from well-formed chunks, or by
    /// a successful `parse`, satisfy this.
    pub closed spec fn wf(&self) -> bool {
        &&& self.signature@ == spec_signature()
        &&& forall|i: int| 0 <= i < self.chunks@.len() ==> (#[trigger] self.chunks@[i]).wf()
    }

    /// Builds a container over the given chunks with the standard
    /// signature. No structural rule on the sequence is checked: a
    /// header or terminal chunk may sit anywhere, as the caller chose.
    pub fn from_chunks(chunks: Vec<Chunk>) -> (r: PNG)
        ensures
            r@.signature == spec_signature(),
            r@.chunks.len() == chunks@.len(),
            forall|i: int| 0 <= i < chunks@.len() ==> r@.chunks[i] == (#[trigger] chunks@[i])@,
            (forall|i: int| 0 <= i < chunks@.len() ==> (#[trigger] chunks@[i]).wf()) ==> r.wf(),
    {
        let signature: [u8; 8] = [0x89u8, 0x50u8, 0x4eu8, 0x47u8, 0x0du8, 0x0au8, 0x1au8, 0x0au8];
        proof {
            assert(signature@ =~= spec_signature());
        }
        PNG { signature, chunks }
    }

    /// The 8 signature bytes.
    pub fn header(&self) -> (r: &[u8; 8])
        ensures
            r@ == self@.signature,
    {
        &self.signature
    }

    /// The chunk sequence, in order.
    pub fn chunks(&self) -> (r: &[Chunk])
        ensures
            r@.len() == self@.chunks.len(),
            forall|i: int| 0 <= i < r@.len() ==> (#[trigger] r@[i])@ == self@.chunks[i],
            self.wf() ==> forall|i: int| 0 <= i < r@.len() ==> (#[trigger] r@[i]).wf(),
    {
        self.chunks.as_slice()
    }

    /// Inserts `chunk` immediately before the current last chunk, so a
    /// terminal marker at the tail stays there; appends at the end when
    /// the sequence is empty. Positional only: no type code is inspected.
    pub fn append_chunk(&mut self, chunk: Chunk)
        ensures
            final(self)@.signature == old(self)@.signature,
            final(self)@.chunks == spec_append(old(self)@.chunks, chunk@),
            (old(self).wf() && chunk.wf()) ==> final(self).wf(),
    {
        match self.chunks.pop() {
            Some(last) => {
                self.chunks.push(chunk);
                self.chunks.push(last);
            },
            None => {
                self.chunks.push(chunk);
            },
        }
        proof {
            assert(self@.chunks =~= spec_append(old(self)@.chunks, chunk@));
        }
    }

    /// Removes and returns the first chunk whose type code equals the
    /// target string, read by the weaker string constructor; fails with
    /// `InvalidTypeCode` when the string does not parse and `NotFound`
    /// when no chunk matches. Later chunks shift down one position and
    /// are otherwise untouched.
    pub fn remove_chunk(&mut self, chunk_type: &str) -> (r: Result<Chunk, PngError>)
        ensures
            ({
                let b = chunk_type.spec_bytes();
                &&& !spec_code_ok(b) ==> r == Err::<Chunk, PngError>(PngError::InvalidTypeCode)
                    && *final(self) == *old(self)
                &&& spec_code_ok(b) && !match_in(old(self)@.chunks, b) ==> r == Err::<
                    Chunk,
                    PngError,
                >(PngError::NotFound) && *final(self) == *old(self)
                &&& spec_code_ok(b) && match_in(old(self)@.chunks, b) ==> {
                    let i = first_match(old(self)@.chunks, b);
                    &&& r matches Ok(c) && c@ == old(self)@.chunks[i]
                    &&& final(self)@.chunks == old(self)@.chunks.remove(i)
                    &&& final(self)@.signature == old(self)@.signature
                    &&& old(self).wf() ==> final(self).wf() && (r matches Ok(c) && c.wf())
                }
            }),
    {
        let target = match ChunkType::from_string(chunk_type) {
            Ok(t) => t,
            Err(_) => {
                return Err(PngError::InvalidTypeCode);
            },
        };
        proof {
            let b = chunk_type.spec_bytes();
            assert(spec_code_ok(b));
            assert(target@ == b);
        }
        match find_first(&self.chunks, &target) {
            Some(i) => {
                proof {
                    let b = chunk_type.spec_bytes();
                    assert(self@.chunks[i as int] == self.chunks@[i as int]@);
                    assert(match_in(self@.chunks, b));
                    assert forall|k: int| 0 <= k < i implies (#[trigger] self@.chunks[k]).type_code
                        != b by {
                        assert(self@.chunks[k] == self.chunks@[k]@);
                    }
                    lemma_first_match_at(self@.chunks, b, i as int);
                }
                let c = self.chunks.remove(i);
                proof {
                    assert(self@.chunks =~= old(self)@.chunks.remove(i as int));
                    if old(self).wf() {
                        assert forall|k: int|
                            0 <= k < self.chunks@.len() implies (#[trigger] self.chunks@[k]).wf()
                        by {
                            if k < i as int {
                                assert(self.chunks@[k] == old(self).chunks@[k]);
                            } else {
                                assert(self.chunks@[k] == old(self).chunks@[k + 1]);
                            }
                        }
                    }
                }
                Ok(c)
            },
            None => {
                proof {
                    let b = chunk_type.spec_bytes();
                    assert forall|k: int|
                        0 <= k < self@.chunks.len() implies (#[trigger] self@.chunks[k]).type_code
                        != b by {
                        assert(self@.chunks[k] == self.chunks@[k]@);
                    }
                }
                Err(PngError::NotFound)
            },
        }
    }

    /// A borrowed view of the first chunk whose type code equals the
    /// target string; nothing (not an error) when the string does not
    /// parse or no chunk matches — unlike `remove_chunk`.
    pub fn chunk_by_type(&self, chunk_type: &str) -> (r: Option<&Chunk>)
        ensures
            ({
                let b = chunk_type.spec_bytes();
                &&& (!spec_code_ok(b) || !match_in(self@.chunks, b)) ==> r is None
                &&& spec_code_ok(b) && match_in(self@.chunks, b) ==> (r matches Some(c) && c@
                    == self@.chunks[first_match(self@.chunks, b)] && (self.wf() ==> c.wf()))
            }),
    {
        let target = match ChunkType::from_string(chunk_type) {
            Ok(t) => t,
            Err(_) => {
                return None;
            },
        };
        proof {
            let b = chunk_type.spec_bytes();
            assert(spec_code_ok(b));
            assert(target@ == b);
        }
        match find_first(&self.chunks, &target) {
            Some(i) => {
                proof {
                    let b = chunk_type.spec_bytes();
                    assert(self@.chunks[i as int] == self.chunks@[i as int]@);
                    assert(match_in(self@.chunks, b));
                    assert forall|k: int| 0 <= k < i implies (#[trigger] self@.chunks[k]).type_code
                        != b by {
                        assert(self@.chunks[k] == self.chunks@[k]@);
                    }
                    lemma_first_match_at(self@.chunks, b, i as int);
                }
                Some(&self.chunks[i])
            },
            None => {
                proof {
                    let b = chunk_type.spec_bytes();
                    assert forall|k: int|
                        0 <= k < self@.chunks.len() implies (#[trigger] self@.chunks[k]).type_code
                        != b by {
                        assert(self@.chunks[k] == self.chunks@[k]@);
                    }
                }
                None
            },
        }
    }

    /// Serializes the container: the signature, then each chunk's bytes
    /// in sequence order.
    pub fn as_bytes(&self) -> (r: Vec<u8>)
        ensures
            self.wf() ==> r@ == spec_png_bytes(self@),
    {
        let mut out: Vec<u8> = Vec::new();
        out.push(self.signature[0]);
        out.push(self.signature[1]);
        out.push(self.signature[2]);
        out.push(self.signature[3]);
        out.push(self.signature[4]);
        out.push(self.signature[5]);
        out.push(self.signature[6]);
        out.push(self.signature[7]);
        proof {
            assert(out@ =~= self@.signature);
        }
        let mut i: usize = 0;
        while i < self.chunks.len()
            invariant
                i <= self.chunks@.len(),
                self.wf() ==> out@ == self@.signature + spec_chunks_bytes(
                    self@.chunks.take(i as int),
                ),
            decreases self.chunks@.len() - i,
        {
            let cb = self.chunks[i].as_bytes();
            push_slice(&mut out, cb.as_slice());
            proof {
                if self.wf() {
                    lemma_chunks_bytes_push(
                        self@.chunks.take(i as int),
                        self@.chunks[i as int],
                    );
                    assert(self@.chunks.take(i as int).push(self@.chunks[i as int])
                        =~= self@.chunks.take(i as int + 1));
                    assert(out@ =~= self@.signature + spec_chunks_bytes(
                        self@.chunks.take(i as int + 1),
                    ));
                }
            }
            i = i + 1;
        }
        proof {
            if self.wf() {
                assert(self@.chunks.take(self.chunks@.len() as int) =~= self@.chunks);
            }
        }
        out
    }

    /// Parses a container: checks the 8-byte signature against the
    /// standard magic, then reads chunks until the input is exhausted.
    /// The first chunk failure aborts the whole parse.
    pub fn parse(bytes: &[u8]) -> (r: Result<PNG, PngError>)
        ensures
            bytes@.len() < 8 ==> r == Err::<PNG, PngError>(PngError::UnexpectedEof),
            bytes@.len() >= 8 && bytes@.subrange(0, 8) != spec_signature() ==> r == Err::<
                PNG,
                PngError,
            >(PngError::BadSignature),
            bytes@.len() >= 8 && bytes@.subrange(0, 8) == spec_signature() ==> match
                spec_parse_chunks(bytes@.skip(8)) {
                Ok(ms) => r matches Ok(p) && p.wf() && p@.signature == spec_signature()
                    && p@.chunks == ms,
                Err(e) => r == Err::<PNG, PngError>(e),
            },
    {
        let n = bytes.len();
        if n < 8 {
            return Err(PngError::UnexpectedEof);
        }
        let s0 = *slice_index_get(bytes, 0);
        let s1 = *slice_index_get(bytes, 1);
        let s2 = *slice_index_get(bytes, 2);
        let s3 = *slice_index_get(bytes, 3);
        let s4 = *slice_index_get(bytes, 4);
        let s5 = *slice_index_get(bytes, 5);
        let s6 = *slice_index_get(bytes, 6);
        let s7 = *slice_index_get(bytes, 7);
        if !(s0 == 0x89 && s1 == 0x50 && s2 == 0x4e && s3 == 0x47 && s4 == 0x0d && s5 == 0x0a
            && s6 == 0x1a && s7 == 0x0a) {
            proof {
                assert(bytes@.subrange(0, 8) != spec_signature());
            }
            return Err(PngError::BadSignature);
        }
        let signature: [u8; 8] = [s0, s1, s2, s3, s4, s5, s6, s7];
        proof {
            assert(signature@ =~= bytes@.subrange(0, 8));
            assert(bytes@.subrange(0, 8) =~= spec_signature());
        }
        let mut chunks: Vec<Chunk> = Vec::new();
        let mut i: usize = 8;
        while i < n
            invariant
                8 <= i <= n,
                n == bytes@.len(),
                bytes@.subrange(0, 8) == spec_signature(),
                forall|k: int| 0 <= k < chunks@.len() ==> (#[trigger] chunks@[k]).wf(),
                ({
                    let models = Seq::new(chunks@.len(), |k: int| chunks@[k]@);
                    match spec_parse_chunks(bytes@.skip(i as int)) {
                        Ok(ms) => spec_parse_chunks(bytes@.skip(8)) == Ok::<
                            Seq<ChunkModel>,
                            PngError,
                        >(models + ms),
                        Err(e) => spec_parse_chunks(bytes@.skip(8)) == Err::<
                            Seq<ChunkModel>,
                            PngError,
                        >(e),
                    }
                }),
            decreases n - i,
        {
            let ghost i0 = i as int;
            let ghost models0 = Seq::new(chunks@.len(), |k: int| chunks@[k]@);
            let rest = slice_subrange(bytes, i, n);
            proof {
                assert(rest@ =~= bytes@.skip(i0));
            }
            let c = match Chunk::parse(rest) {
                Ok(c) => c,
                Err(e) => {
                    proof {
                        assert(bytes@.skip(i0).len() > 0);
                        assert(spec_parse_chunks(bytes@.skip(i0)) == Err::<
                            Seq<ChunkModel>,
                            PngError,
                        >(e));
                    }
                    return Err(e);
                },
            };
            proof {
                lemma_parse_chunk_ok_bounds(bytes@.skip(i0));
            }
            let len = c.length() as usize;
            let step = 12 + len;
            i = i + step;
            chunks.push(c);
            proof {
                assert(bytes@.skip(i as int) =~= bytes@.skip(i0).skip(step as int));
                let models1 = Seq::new(chunks@.len(), |k: int| chunks@[k]@);
                assert(models1 =~= models0.push(c@));
                match spec_parse_chunks(bytes@.skip(i as int)) {
                    Ok(ms) => {
                        assert(spec_parse_chunks(bytes@.skip(i0)) == Ok::<
                            Seq<ChunkModel>,
                            PngError,
                        >(seq![c@] + ms));
                        assert(models0 + (seq![c@] + ms) =~= models1 + ms);
                    },
                    Err(e) => {
                        assert(spec_parse_chunks(bytes@.skip(i0)) == Err::<
                            Seq<ChunkModel>,
                            PngError,
                        >(e));
                    },
                }
            }
        }
        let png = PNG { signature, chunks };
        proof {
            assert(bytes@.skip(n as int).len() == 0);
            assert(spec_parse_chunks(bytes@.skip(n as int)) == Ok::<Seq<ChunkModel>, PngError>(
                Seq::empty(),
            ));
            let models = Seq::new(png.chunks@.len(), |k: int| png.chunks@[k]@);
            assert(models + Seq::<ChunkModel>::empty() =~= models);
            assert(png@.chunks =~= models);
        }
        Ok(png)
    }
}

/// Serializing one more chunk appends its bytes at the end.
pub proof fn lemma_chunks_bytes_push(ms: Seq<ChunkModel>, m: ChunkModel)
    ensures
        spec_chunks_bytes(ms.push(m)) == spec_chunks_bytes(ms) + spec_chunk_bytes(m),
    decreases ms.len(),
{
    if ms.len() == 0 {
        assert(ms.push(m)[0] == m);
        assert(ms.push(m).drop_first() =~= Seq::<ChunkModel>::empty());
        assert(spec_chunks_bytes(ms.push(m)) == spec_chunk_bytes(m) + spec_chunks_bytes(
            Seq::<ChunkModel>::empty(),
        ));
        assert(spec_chunk_bytes(m) + Seq::<u8>::empty() =~= spec_chunk_bytes(m));
        assert(Seq::<u8>::empty() + spec_chunk_bytes(m) =~= spec_chunk_bytes(m));
    } else {
        assert(ms.push(m)[0] == ms[0]);
        assert(ms.push(m).drop_first() =~= ms.drop_first().push(m));
        lemma_chunks_bytes_push(ms.drop_first(), m);
        assert(spec_chunks_bytes(ms.push(m)) == spec_chunk_bytes(ms[0]) + (spec_chunks_bytes(
            ms.drop_first(),
        ) + spec_chunk_bytes(m)));
        assert(spec_chunk_bytes(ms[0]) + (spec_chunks_bytes(ms.drop_first()) + spec_chunk_bytes(m))
            =~= (spec_chunk_bytes(ms[0]) + spec_chunks_bytes(ms.drop_first())) + spec_chunk_bytes(
            m,
        ));
    }
}

/// Parsing one chunk from its serialization followed by anything else
/// succeeds, yields that chunk, and consumes exactly its bytes.
pub proof fn lemma_parse_chunk_with_suffix(m: ChunkModel, rest: Seq<u8>)
    requires
        chunk_model_wf(m),
        spec_type_valid(m.type_code),
    ensures
        spec_parse_chunk(spec_chunk_bytes(m) + rest) == Ok::<ChunkModel, PngError>(m),
        (spec_chunk_bytes(m) + rest).skip(12 + m.data.len() as int) == rest,
{
    let s = spec_chunk_bytes(m) + rest;
    let len = m.data.len() as int;
    lemma_u32_be_bytes_auto();
    assert(s.subrange(0, 4) =~= spec_u32_to_be_bytes(m.data.len() as u32));
    assert(s.subrange(4, 8) =~= m.type_code);
    assert(s.subrange(8, 8 + len) =~= m.data);
    assert(s.subrange(8 + len, 12 + len) =~= spec_u32_to_be_bytes(crc32_of(m.type_code + m.data)));
    assert(spec_u32_from_be_bytes(s.subrange(0, 4)) == m.data.len() as u32);
    assert(s.skip(12 + len) =~= rest);
    assert(spec_parse_chunk(s)->Ok_0 =~= m);
}

/// Round trip for a chunk sequence: parsing the concatenation of the
/// serialized chunks yields the same sequence back.
pub proof fn lemma_chunks_round_trip(ms: Seq<ChunkModel>)
    requires
        forall|i: int| 0 <= i < ms.len() ==> chunk_model_wf(#[trigger] ms[i]),
        forall|i: int| 0 <= i < ms.len() ==> spec_type_valid((#[trigger] ms[i]).type_code),
    ensures
        spec_parse_chunks(spec_chunks_bytes(ms)) == Ok::<Seq<ChunkModel>, PngError>(ms),
    decreases ms.len(),
{
    if ms.len() == 0 {
        assert(ms =~= Seq::<ChunkModel>::empty());
    } else {
        let m = ms[0];
        let rest = ms.drop_first();
        let tail = spec_chunks_bytes(rest);
        let s = spec_chunk_bytes(m) + tail;
        assert(spec_chunks_bytes(ms) == s);
        lemma_parse_chunk_with_suffix(m, tail);
        assert forall|i: int| 0 <= i < rest.len() implies chunk_model_wf(#[trigger] rest[i])
            && spec_type_valid(rest[i].type_code) by {
            assert(rest[i] == ms[i + 1]);
        }
        lemma_chunks_round_trip(rest);
        assert(spec_chunk_bytes(m).len() == 12 + m.data.len());
        assert(s.len() != 0);
        assert(s.skip(12 + m.data.len() as int) == tail);
        assert(spec_parse_chunks(s) == Ok::<Seq<ChunkModel>, PngError>(seq![m] + rest));
        assert(seq![m] + rest =~= ms);
    }
}

/// Round trip for a whole container: serializing any container whose
/// chunks are well formed with strictly valid type codes, then parsing
/// the bytes, reproduces the same signature and chunk sequence.
pub proof fn lemma_png_round_trip(m: PngModel)
    requires
        png_model_wf(m),
    ensures
        spec_png_bytes(m).len() >= 8,
        spec_png_bytes(m).subrange(0, 8) == spec_signature(),
        spec_parse_chunks(spec_png_bytes(m).skip(8)) == Ok::<Seq<ChunkModel>, PngError>(m.chunks),
{
    let s = spec_png_bytes(m);
    assert(m.signature.len() == 8);
    assert(s.subrange(0, 8) =~= m.signature);
    assert(s.skip(8) =~= spec_chunks_bytes(m.chunks));
    lemma_chunks_round_trip(m.chunks);
}

/// Appending a chunk and then removing its type code restores the
/// original sequence, when that type code was not already present.
pub proof fn lemma_append_then_remove(chunks: Seq<ChunkModel>, m: ChunkModel)
    requires
        forall|i: int| 0 <= i < chunks.len() ==> (#[trigger] chunks[i]).type_code != m.type_code,
    ensures
        match_in(spec_append(chunks, m), m.type_code),
        spec_append(chunks, m)[first_match(spec_append(chunks, m), m.type_code)] == m,
        spec_append(chunks, m).remove(first_match(spec_append(chunks, m), m.type_code)) == chunks,
{
    let app = spec_append(chunks, m);
    if chunks.len() == 0 {
        assert(app[0] == m);
        lemma_first_match_at(app, m.type_code, 0);
        assert(app.remove(0) =~= chunks);
    } else {
        let n = chunks.len() as int;
        assert(app.len() == n + 1);
        assert(app[n - 1] == m);
        assert forall|k: int| 0 <= k < n - 1 implies (#[trigger] app[k]).type_code
            != m.type_code by {
            assert(app[k] == chunks[k]);
        }
        lemma_first_match_at(app, m.type_code, n - 1);
        assert(app.remove(n - 1) =~= chunks);
    }
}

} // verus!
