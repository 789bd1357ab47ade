use crate::chunk_type::ChunkType;
use crate::error::ChunkError;
use crate::utf8::utf8_to_string;
use crate::wire::{be_bytes, be_u32, lemma_be_round_trip, push_be_u32, push_range, read_be_u32};
use vstd::prelude::*;
use vstd::utf8::*;

verus! {

/// The CRC-32/ISO-HDLC checksum of `bytes`, the one PNG uses.
pub uninterp spec fn crc32_iso_hdlc(bytes: Seq<u8>) -> u32;

/// Relies on crc's `Crc::<u32>::checksum` under `CRC_32_ISO_HDLC`: a checksum
/// that depends on the bytes alone.
#[verifier::external_body]
fn calc_crc(bytes: &[u8]) -> (r: u32)
    ensures
        r == crc32_iso_hdlc(bytes@),
{
    crc::Crc::<u32>::new(&crc::CRC_32_ISO_HDLC).checksum(bytes)
}

/// The checksum a chunk of type `t` and data `data` must carry.
pub open spec fn crc_of(t: ChunkType, data: Seq<u8>) -> u32 {
    crc32_iso_hdlc(t.spec_bytes() + data)
}

/// A chunk as a mathematical value.
pub struct ChunkView {
    pub length: u32,
    pub chunk_type: ChunkType,
    pub data: Seq<u8>,
    pub crc: u32,
}

impl ChunkView {
    /// The length counts the data and the checksum covers type and data.
    pub open spec fn wf(self) -> bool {
        self.length == self.data.len() && self.crc == crc_of(self.chunk_type, self.data)
    }

    /// The chunk on the wire: length, type, data and checksum, integers big-endian.
    pub open spec fn wire(self) -> Seq<u8> {
        be_bytes(self.length) + self.chunk_type.spec_bytes() + self.data + be_bytes(self.crc)
    }
}

/// The chunk that `new` builds from a type and data.
pub open spec fn chunk_of(t: ChunkType, data: Seq<u8>) -> ChunkView {
    ChunkView { length: data.len() as u32, chunk_type: t, data, crc: crc_of(t, data) }
}

/// The outcome of reading the whole of `b` as one chunk.
#[verifier::opaque]
pub open spec fn parse_chunk(b: Seq<u8>) -> Result<ChunkView, ChunkError> {
    if b.len() < 12 {
        Err(ChunkError::TooShort)
    } else if b.len() != 12 + be_u32(b.subrange(0, 4)) {
        Err(ChunkError::LengthMismatch)
    } else {
        match ChunkType::parse_bytes(b.subrange(4, 8)) {
            Err(e) => Err(e),
            Ok(t) => {
                let data = b.subrange(8, b.len() - 4);
                let crc = be_u32(b.subrange(b.len() - 4, b.len() as int));
                if crc_of(t, data) != crc {
                    Err(ChunkError::ChecksumMismatch)
                } else {
                    Ok(ChunkView { length: be_u32(b.subrange(0, 4)), chunk_type: t, data, crc })
                }
            },
        }
    }
}

/// One record of the container: a typed, checksummed run of bytes.
pub struct Chunk {
    pub c_length: u32,
    pub c_type: ChunkType,
    pub c_data: Vec<u8>,
    pub c_crc: u32,
}

impl View for Chunk {
    type V = ChunkView;

    open spec fn view(&self) -> ChunkView {
        ChunkView {
            length: self.c_length,
            chunk_type: self.c_type,
            data: self.c_data@,
            crc: self.c_crc,
        }
    }
}

impl Chunk {
    /// Builds a chunk, computing its length and checksum.
    pub fn new(chunk_type: ChunkType, data: Vec<u8>) -> (r: Chunk)
        requires
            data@.len() <= u32::MAX,
        ensures
            r@ == chunk_of(chunk_type, data@),
            r@.wf(),
    {
        let type_bytes = chunk_type.bytes();
        let mut input: Vec<u8> = Vec::new();
        push_range(&mut input, type_bytes.as_slice(), 0, 4);
        push_range(&mut input, data.as_slice(), 0, data.len());
        assert(type_bytes@.subrange(0, 4) =~= chunk_type.spec_bytes());
        assert(data@.subrange(0, data@.len() as int) =~= data@);
        let c_crc = calc_crc(input.as_slice());
        Chunk { c_length: data.len() as u32, c_type: chunk_type, c_data: data, c_crc }
    }

    /// Reads `value` as exactly one chunk: length, type, data, checksum.
    pub fn from_bytes(value: &[u8]) -> (r: Result<Chunk, ChunkError>)
        ensures
            match r {
                Ok(c) => parse_chunk(value@) == Ok::<ChunkView, ChunkError>(c@),
                Err(e) => parse_chunk(value@) == Err::<ChunkView, ChunkError>(e),
            },
            r matches Ok(c) ==> c@.wf() && c@.chunk_type.spec_is_valid() && c@.wire() == value@,
    {
        proof {
            reveal(parse_chunk);
            if parse_chunk(value@) is Ok {
                lemma_parsed_wire(value@);
            }
        }
        if value.len() < 12 {
            return Err(ChunkError::TooShort);
        }
        let c_length = read_be_u32(value, 0);
        if value.len() as u64 != 12 + c_length as u64 {
            return Err(ChunkError::LengthMismatch);
        }
        let type_bytes: [u8; 4] = [value[4], value[5], value[6], value[7]];
        assert(type_bytes@ =~= value@.subrange(4, 8));
        let c_type = match ChunkType::from_bytes(type_bytes) {
            Ok(t) => t,
            Err(e) => {
                return Err(e);
            },
        };
        let end = value.len() - 4;
        let mut c_data: Vec<u8> = Vec::new();
        push_range(&mut c_data, value, 8, end);
        let c_crc = read_be_u32(value, end);
        let mut input: Vec<u8> = Vec::new();
        push_range(&mut input, value, 4, 8);
        push_range(&mut input, value, 8, end);
        assert(c_type.spec_bytes() =~= value@.subrange(4, 8));
        assert(c_data@ =~= value@.subrange(8, end as int));
        if calc_crc(input.as_slice()) != c_crc {
            return Err(ChunkError::ChecksumMismatch);
        }
        Ok(Chunk { c_length, c_type, c_data, c_crc })
    }

    pub fn length(&self) -> (r: u32)
        ensures
            r == self.c_length,
    {
        self.c_length
    }

    pub fn chunk_type(&self) -> (r: &ChunkType)
        ensures
            *r == self.c_type,
    {
        &self.c_type
    }

    pub fn data(&self) -> (r: &[u8])
        ensures
            r@ == self.c_data@,
    {
        self.c_data.as_slice()
    }

    pub fn crc(&self) -> (r: u32)
        ensures
            r == self.c_crc,
    {
        self.c_crc
    }

    /// The data as text, when it is valid UTF-8.
    pub fn data_as_string(&self) -> (r: Result<String, ChunkError>)
        ensures
            r is Ok <==> valid_utf8(self.c_data@),
            r matches Ok(s) ==> s@ == decode_utf8(self.c_data@),
            r matches Err(e) ==> e == ChunkError::NotUtf8Text,
    {
        let mut bytes: Vec<u8> = Vec::new();
        push_range(&mut bytes, self.c_data.as_slice(), 0, self.c_data.len());
        assert(bytes@ =~= self.c_data@);
        match utf8_to_string(bytes) {
            Some(s) => Ok(s),
            None => Err(ChunkError::NotUtf8Text),
        }
    }

    /// The chunk as it stands on the wire.
    pub fn as_bytes(&self) -> (r: Vec<u8>)
        ensures
            r@ == self@.wire(),
    {
        let type_bytes = self.c_type.bytes();
        let mut out: Vec<u8> = Vec::new();
        push_be_u32(&mut out, self.c_length);
        push_range(&mut out, type_bytes.as_slice(), 0, 4);
        push_range(&mut out, self.c_data.as_slice(), 0, self.c_data.len());
        push_be_u32(&mut out, self.c_crc);
        assert(type_bytes@.subrange(0, 4) =~= self.c_type.spec_bytes());
        assert(self.c_data@.subrange(0, self.c_data@.len() as int) =~= self.c_data@);
        out
    }
}

/// A well-formed chunk of a valid type reads back from its own bytes.
pub proof fn lemma_parse_wire(c: ChunkView)
    requires
        c.wf(),
        c.chunk_type.spec_is_valid(),
    ensures
        parse_chunk(c.wire()) == Ok::<ChunkView, ChunkError>(c),
{
    reveal(parse_chunk);
    let w = c.wire();
    let n = w.len();
    assert(w.subrange(0, 4) =~= be_bytes(c.length));
    assert(w.subrange(4, 8) =~= c.chunk_type.spec_bytes());
    assert(w.subrange(8, n - 4) =~= c.data);
    assert(w.subrange(n - 4, n as int) =~= be_bytes(c.crc));
    lemma_be_round_trip(c.length);
    lemma_be_round_trip(c.crc);
    assert(ChunkType::of_bytes(c.chunk_type.spec_bytes()) == c.chunk_type);
}

/// Every chunk built by `new` with a valid type, once serialized, parses back
/// to the same type, data, length and checksum.
pub proof fn lemma_new_round_trip(t: ChunkType, data: Seq<u8>)
    requires
        t.spec_is_valid(),
        data.len() <= u32::MAX,
    ensures
        parse_chunk(chunk_of(t, data).wire()) == Ok::<ChunkView, ChunkError>(chunk_of(t, data)),
{
    lemma_parse_wire(chunk_of(t, data));
}

/// What parsing accepts is well-formed, of a valid type, and serializes back to
/// exactly the bytes it was read from.
pub proof fn lemma_parsed_wire(b: Seq<u8>)
    requires
        parse_chunk(b) is Ok,
    ensures
        parse_chunk(b)->Ok_0.wf(),
        parse_chunk(b)->Ok_0.chunk_type.spec_is_valid(),
        parse_chunk(b)->Ok_0.wire() == b,
{
    reveal(parse_chunk);
    let c = parse_chunk(b)->Ok_0;
    let n = b.len();
    let t = ChunkType::of_bytes(b.subrange(4, 8));
    assert(t.spec_bytes() =~= b.subrange(4, 8));
    let len = be_u32(b.subrange(0, 4));
    let crc = be_u32(b.subrange(n - 4, n as int));
    let (b0, b1, b2, b3) = (b[0], b[1], b[2], b[3]);
    assert(be_bytes(len) =~= b.subrange(0, 4)) by {
        assert(((((b0 as u32) << 24u32) | ((b1 as u32) << 16u32) | ((b2 as u32) << 8u32) | (
        b3 as u32)) >> 24u32) as u8 == b0 && ((((b0 as u32) << 24u32) | ((b1 as u32) << 16u32) | (
        (b2 as u32) << 8u32) | (b3 as u32)) >> 16u32) as u8 == b1 && ((((b0 as u32) << 24u32) | (
        (b1 as u32) << 16u32) | ((b2 as u32) << 8u32) | (b3 as u32)) >> 8u32) as u8 == b2 && ((((
        b0 as u32) << 24u32) | ((b1 as u32) << 16u32) | ((b2 as u32) << 8u32) | (b3 as u32))
            as u8) == b3) by (bit_vector);
    }
    let (c0, c1, c2, c3) = (b[n - 4], b[n - 3], b[n - 2], b[n - 1]);
    assert(be_bytes(crc) =~= b.subrange(n - 4, n as int)) by {
        assert(((((c0 as u32) << 24u32) | ((c1 as u32) << 16u32) | ((c2 as u32) << 8u32) | (
        c3 as u32)) >> 24u32) as u8 == c0 && ((((c0 as u32) << 24u32) | ((c1 as u32) << 16u32) | (
        (c2 as u32) << 8u32) | (c3 as u32)) >> 16u32) as u8 == c1 && ((((c0 as u32) << 24u32) | (
        (c1 as u32) << 16u32) | ((c2 as u32) << 8u32) | (c3 as u32)) >> 8u32) as u8 == c2 && ((((
        c0 as u32) << 24u32) | ((c1 as u32) << 16u32) | ((c2 as u32) << 8u32) | (c3 as u32))
            as u8) == c3) by (bit_vector);
    }
    assert(c.wire() =~= b);
}

/// A declared length that differs from the payload that follows it is refused
/// as a length mismatch.
pub proof fn lemma_length_coherence(b: Seq<u8>)
    requires
        b.len() >= 12,
        b.len() != 12 + be_u32(b.subrange(0, 4)),
    ensures
        parse_chunk(b) == Err::<ChunkView, ChunkError>(ChunkError::LengthMismatch),
{
    reveal(parse_chunk);
}

/// Bytes that keep a parsed chunk's length and checksum fields but change its
/// type or data, so that the checksum over type and data no longer agrees, are
/// refused as a checksum mismatch, provided the changed type is still valid.
pub proof fn lemma_checksum_mismatch(b: Seq<u8>, changed: Seq<u8>)
    requires
        parse_chunk(b) is Ok,
        changed.len() == b.len(),
        changed.subrange(0, 4) == b.subrange(0, 4),
        changed.subrange(b.len() - 4, b.len() as int) == b.subrange(b.len() - 4, b.len() as int),
        ChunkType::of_bytes(changed.subrange(4, 8)).spec_is_valid(),
        crc32_iso_hdlc(changed.subrange(4, changed.len() - 4)) != crc32_iso_hdlc(
            b.subrange(4, b.len() - 4),
        ),
    ensures
        parse_chunk(changed) == Err::<ChunkView, ChunkError>(ChunkError::ChecksumMismatch),
{
    reveal(parse_chunk);
    let n = b.len();
    assert(ChunkType::of_bytes(b.subrange(4, 8)).spec_bytes() + b.subrange(8, n - 4) =~= b.subrange(
        4,
        n - 4,
    ));
    assert(ChunkType::of_bytes(changed.subrange(4, 8)).spec_bytes() + changed.subrange(8, n - 4)
        =~= changed.subrange(4, n - 4));
}

} // verus!
