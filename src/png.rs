use crate::chunk::{lemma_parsed_wire, parse_chunk, Chunk, ChunkView};
use crate::error::{ChunkError, PngError};
use crate::wire::{be_u32, push_range, read_be_u32};
use vstd::prelude::*;
use vstd::slice::slice_subrange;

verus! {

/// The eight bytes every PNG file starts with.
pub open spec fn signature() -> Seq<u8> {
    seq![137u8, 80u8, 78u8, 71u8, 13u8, 10u8, 26u8, 10u8]
}

/// The mathematical values of a run of chunks.
pub open spec fn chunk_views(cs: Seq<Chunk>) -> Seq<ChunkView> {
    Seq::new(cs.len(), |i: int| cs[i]@)
}

/// The chunks laid end to end on the wire.
pub open spec fn chunks_wire(cs: Seq<ChunkView>) -> Seq<u8>
    decreases cs.len(),
{
    if cs.len() == 0 {
        Seq::empty()
    } else {
        chunks_wire(cs.drop_last()) + cs.last().wire()
    }
}

/// A whole file: the signature, then each chunk in order.
pub open spec fn png_wire(cs: Seq<ChunkView>) -> Seq<u8> {
    signature() + chunks_wire(cs)
}

/// The outcome of reading all of `b` as chunks, the first of them counted as
/// number `index`.
pub open spec fn parse_chunks(b: Seq<u8>, index: nat) -> Result<Seq<ChunkView>, PngError>
    decreases b.len(),
{
    if b.len() == 0 {
        Ok(Seq::empty())
    } else if b.len() < 12 || b.len() < 12 + be_u32(b.subrange(0, 4)) {
        Err(PngError::TrailingGarbage)
    } else {
        let total = 12 + be_u32(b.subrange(0, 4));
        match parse_chunk(b.subrange(0, total)) {
            Err(e) => Err(PngError::Chunk { index: index as usize, error: e }),
            Ok(c) => match parse_chunks(b.subrange(total, b.len() as int), index + 1) {
                Ok(rest) => Ok(seq![c] + rest),
                Err(e) => Err(e),
            },
        }
    }
}

/// The outcome of reading `b` as a whole file.
pub open spec fn parse_png(b: Seq<u8>) -> Result<Seq<ChunkView>, PngError> {
    if b.len() < 8 || b.subrange(0, 8) != signature() {
        Err(PngError::BadSignature)
    } else {
        parse_chunks(b.subrange(8, b.len() as int), 0)
    }
}

/// `pre` followed by what `r` parsed, or the error of `r`.
pub open spec fn after(pre: Seq<ChunkView>, r: Result<Seq<ChunkView>, PngError>) -> Result<
    Seq<ChunkView>,
    PngError,
> {
    match r {
        Ok(rest) => Ok(pre + rest),
        Err(e) => Err(e),
    }
}

/// The chunk is looked up by `name`: the text of its type equals it.
pub open spec fn has_name(c: ChunkView, name: Seq<char>) -> bool {
    c.chunk_type.text() == name
}

/// The position of the first chunk named `name`, if any.
pub open spec fn first_match(cs: Seq<ChunkView>, name: Seq<char>) -> Option<int>
    decreases cs.len(),
{
    if cs.len() == 0 {
        None
    } else {
        match first_match(cs.drop_last(), name) {
            Some(i) => Some(i),
            None => if has_name(cs.last(), name) {
                Some(cs.len() - 1)
            } else {
                None
            },
        }
    }
}

/// The decimal digits, in order.
pub open spec fn digits() -> Seq<char> {
    "0123456789"@
}

/// `n` written in decimal, without leading zeros.
pub open spec fn decimal(n: nat) -> Seq<char>
    decreases n,
{
    if n < 10 {
        seq![digits()[n as int]]
    } else {
        decimal(n / 10) + seq![digits()[(n % 10) as int]]
    }
}

/// One line of the listing: the type's text, the length and the checksum.
pub open spec fn chunk_line(c: ChunkView) -> Seq<char> {
    c.chunk_type.text() + ": length "@ + decimal(c.length as nat) + ", crc "@ + decimal(
        c.crc as nat,
    ) + "\n"@
}

/// The listing of every chunk, one line each, in order.
pub open spec fn render(cs: Seq<ChunkView>) -> Seq<char>
    decreases cs.len(),
{
    if cs.len() == 0 {
        Seq::empty()
    } else {
        render(cs.drop_last()) + chunk_line(cs.last())
    }
}

/// Appends `n` in decimal to `s`.
fn append_decimal(s: &mut String, n: u32)
    ensures
        final(s)@ == old(s)@ + decimal(n as nat),
    decreases n,
{
    if n >= 10 {
        append_decimal(s, n / 10);
    }
    let all = "0123456789";
    proof {
        reveal_strlit("0123456789");
    }
    let d = (n % 10) as usize;
    let ghost mid = s@;
    s.append(all.substring_char(d, d + 1));
    assert(all@.subrange(d as int, d + 1) =~= seq![digits()[d as int]]);
    if n >= 10 {
        assert(old(s)@ + decimal(n as nat) =~= mid + seq![digits()[d as int]]);
    } else {
        assert(old(s)@ + decimal(n as nat) =~= mid + seq![digits()[d as int]]);
    }
}

/// A PNG file held in memory: its chunks, in order.
pub struct Png {
    chunks: Vec<Chunk>,
}

impl View for Png {
    type V = Seq<ChunkView>;

    closed spec fn view(&self) -> Seq<ChunkView> {
        chunk_views(self.chunks@)
    }
}

impl Png {
    /// The signature as an array.
    pub fn standard_header() -> (r: [u8; 8])
        ensures
            r@ == signature(),
    {
        let r: [u8; 8] = [137, 80, 78, 71, 13, 10, 26, 10];
        assert(r@ =~= signature());
        r
    }

    /// A file of the given chunks.
    pub fn from_chunks(chunks: Vec<Chunk>) -> (r: Png)
        ensures
            r@ == chunk_views(chunks@),
    {
        Png { chunks }
    }

    /// Reads a whole file: the signature, then chunks up to the last byte.
    pub fn from_bytes(bytes: &[u8]) -> (r: Result<Png, PngError>)
        ensures
            match r {
                Ok(p) => parse_png(bytes@) == Ok::<Seq<ChunkView>, PngError>(p@),
                Err(e) => parse_png(bytes@) == Err::<Seq<ChunkView>, PngError>(e),
            },
            r matches Ok(p) ==> png_wire(p@) == bytes@,
    {
        proof {
            if parse_png(bytes@) is Ok {
                lemma_container_round_trip(bytes@);
            }
        }
        if bytes.len() < 8 {
            return Err(PngError::BadSignature);
        }
        let header = Png::standard_header();
        let mut k: usize = 0;
        while k < 8
            invariant
                k <= 8 <= bytes@.len(),
                header@ == signature(),
                forall|j: int| 0 <= j < k ==> bytes@[j] == #[trigger] signature()[j],
            decreases 8 - k,
        {
            if bytes[k] != header[k] {
                assert(bytes@.subrange(0, 8)[k as int] != signature()[k as int]);
                return Err(PngError::BadSignature);
            }
            k = k + 1;
        }
        assert(bytes@.subrange(0, 8) =~= signature());
        let ghost b = bytes@;
        let mut chunks: Vec<Chunk> = Vec::new();
        let mut pos: usize = 8;
        let mut index: usize = 0;
        while pos < bytes.len()
            invariant
                b == bytes@,
                8 <= pos <= b.len(),
                index <= pos,
                parse_png(b) == after(
                    chunk_views(chunks@),
                    parse_chunks(b.subrange(pos as int, b.len() as int), index as nat),
                ),
            decreases b.len() - pos,
        {
            let ghost rest = b.subrange(pos as int, b.len() as int);
            let remaining = bytes.len() - pos;
            if remaining < 12 {
                return Err(PngError::TrailingGarbage);
            }
            let length = read_be_u32(bytes, pos);
            assert(rest.subrange(0, 4) =~= b.subrange(pos as int, pos + 4));
            if (remaining as u64) < 12 + length as u64 {
                return Err(PngError::TrailingGarbage);
            }
            let total = 12 + length as usize;
            let piece = slice_subrange(bytes, pos, pos + total);
            assert(rest.subrange(0, total as int) =~= piece@);
            assert(rest.subrange(total as int, rest.len() as int) =~= b.subrange(
                (pos + total) as int,
                b.len() as int,
            ));
            match Chunk::from_bytes(piece) {
                Err(e) => {
                    return Err(PngError::Chunk { index, error: e });
                },
                Ok(c) => {
                    let ghost before = chunk_views(chunks@);
                    let ghost next = parse_chunks(
                        b.subrange((pos + total) as int, b.len() as int),
                        (index + 1) as nat,
                    );
                    chunks.push(c);
                    assert(chunk_views(chunks@) =~= before.push(c@));
                    assert(after(before, parse_chunks(rest, index as nat)) == after(
                        before.push(c@),
                        next,
                    )) by {
                        if next is Ok {
                            assert(before + (seq![c@] + next->Ok_0) =~= before.push(c@)
                                + next->Ok_0);
                        }
                    }
                    pos = pos + total;
                    index = index + 1;
                },
            }
        }
        assert(b.subrange(pos as int, b.len() as int) =~= Seq::<u8>::empty());
        assert(chunk_views(chunks@) + Seq::<ChunkView>::empty() =~= chunk_views(chunks@));
        Ok(Png { chunks })
    }

    /// Adds `chunk` after the last chunk.
    pub fn append_chunk(&mut self, chunk: Chunk)
        ensures
            final(self)@ == old(self)@.push(chunk@),
    {
        let ghost before = self@;
        self.chunks.push(chunk);
        assert(self@ =~= before.push(chunk@));
    }

    /// The position of the first chunk named `name`, if any.
    fn position_of(&self, name: &str) -> (r: Option<usize>)
        ensures
            match r {
                Some(k) => first_match(self@, name@) == Some(k as int),
                None => first_match(self@, name@) is None,
            },
    {
        let wanted = name.to_owned();
        let mut i: usize = 0;
        while i < self.chunks.len()
            invariant
                i <= self.chunks@.len(),
                wanted@ == name@,
                first_match(self@.subrange(0, i as int), name@) is None,
            decreases self.chunks@.len() - i,
        {
            let text = self.chunks[i].c_type.to_string();
            assert(self@.subrange(0, i + 1).drop_last() =~= self@.subrange(0, i as int));
            if text == wanted {
                proof {
                    lemma_first_match_prefix(self@, name@, i + 1);
                }
                return Some(i);
            }
            i = i + 1;
        }
        assert(self@.subrange(0, i as int) =~= self@);
        None
    }

    /// The first chunk whose type reads as `chunk_type`.
    pub fn chunk_by_type(&self, chunk_type: &str) -> (r: Option<&Chunk>)
        ensures
            match first_match(self@, chunk_type@) {
                Some(i) => r matches Some(c) && c@ == self@[i],
                None => r is None,
            },
    {
        proof {
            lemma_first_match(self@, chunk_type@);
        }
        match self.position_of(chunk_type) {
            Some(i) => {
                let c = &self.chunks[i];
                assert(c@ == self@[i as int]);
                Some(c)
            },
            None => None,
        }
    }

    /// Takes out the first chunk whose type reads as `chunk_type`.
    pub fn remove_chunk(&mut self, chunk_type: &str) -> (r: Result<Chunk, PngError>)
        ensures
            match first_match(old(self)@, chunk_type@) {
                Some(i) => r matches Ok(c) && c@ == old(self)@[i] && final(self)@ == old(
                    self,
                )@.remove(i),
                None => r == Err::<Chunk, PngError>(PngError::ChunkNotFound) && final(self)@
                    == old(self)@,
            },
    {
        proof {
            lemma_first_match(self@, chunk_type@);
        }
        match self.position_of(chunk_type) {
            Some(i) => {
                let ghost before = self@;
                let c = self.chunks.remove(i);
                assert(self@ =~= before.remove(i as int));
                Ok(c)
            },
            None => Err(PngError::ChunkNotFound),
        }
    }

    /// The chunks, in order.
    pub fn chunks(&self) -> (r: &[Chunk])
        ensures
            chunk_views(r@) == self@,
    {
        self.chunks.as_slice()
    }

    /// A listing of every chunk's type, length and checksum, one line each.
    pub fn to_string(&self) -> (r: String)
        ensures
            r@ == render(self@),
    {
        let mut out = String::new();
        let mut i: usize = 0;
        while i < self.chunks.len()
            invariant
                i <= self.chunks@.len(),
                out@ == render(self@.subrange(0, i as int)),
            decreases self.chunks@.len() - i,
        {
            let c = &self.chunks[i];
            let text = c.c_type.to_string();
            out.append(text.as_str());
            out.append(": length ");
            append_decimal(&mut out, c.c_length);
            out.append(", crc ");
            append_decimal(&mut out, c.c_crc);
            out.append("\n");
            assert(self@.subrange(0, i + 1).drop_last() =~= self@.subrange(0, i as int));
            assert(out@ =~= render(self@.subrange(0, i + 1)));
            i = i + 1;
        }
        assert(self@.subrange(0, i as int) =~= self@);
        out
    }

    /// The whole file: the signature, then every chunk.
    pub fn as_bytes(&self) -> (r: Vec<u8>)
        ensures
            r@ == png_wire(self@),
    {
        let header = Png::standard_header();
        let mut out: Vec<u8> = Vec::new();
        push_range(&mut out, header.as_slice(), 0, 8);
        assert(header@.subrange(0, 8) =~= signature());
        let mut i: usize = 0;
        while i < self.chunks.len()
            invariant
                i <= self.chunks@.len(),
                out@ == signature() + chunks_wire(self@.subrange(0, i as int)),
            decreases self.chunks@.len() - i,
        {
            let bytes = self.chunks[i].as_bytes();
            push_range(&mut out, bytes.as_slice(), 0, bytes.len());
            assert(bytes@.subrange(0, bytes@.len() as int) =~= bytes@);
            assert(self@.subrange(0, i + 1).drop_last() =~= self@.subrange(0, i as int));
            i = i + 1;
        }
        assert(self@.subrange(0, i as int) =~= self@);
        out
    }
}

impl Default for Png {
    fn default() -> (r: Png)
        ensures
            r@ == Seq::<ChunkView>::empty(),
    {
        let r = Png { chunks: Vec::new() };
        assert(r@ =~= Seq::<ChunkView>::empty());
        r
    }
}

/// The first match is a chunk of that name with none before it; without a
/// match no chunk has that name.
pub proof fn lemma_first_match(cs: Seq<ChunkView>, name: Seq<char>)
    ensures
        match first_match(cs, name) {
            Some(i) => 0 <= i < cs.len() && has_name(cs[i], name) && forall|j: int|
                0 <= j < i ==> !has_name(#[trigger] cs[j], name),
            None => forall|j: int| 0 <= j < cs.len() ==> !has_name(#[trigger] cs[j], name),
        },
    decreases cs.len(),
{
    if cs.len() > 0 {
        lemma_first_match(cs.drop_last(), name);
        assert forall|j: int| 0 <= j < cs.len() - 1 implies #[trigger] cs[j] == cs.drop_last()[j] by {}
    }
}

proof fn lemma_first_match_prefix(cs: Seq<ChunkView>, name: Seq<char>, n: int)
    requires
        0 < n <= cs.len(),
        first_match(cs.subrange(0, n - 1), name) is None,
        has_name(cs[n - 1], name),
    ensures
        first_match(cs, name) == Some(n - 1),
    decreases cs.len(),
{
    assert(cs.subrange(0, n).drop_last() =~= cs.subrange(0, n - 1));
    if n < cs.len() {
        assert(cs.drop_last().subrange(0, n - 1) =~= cs.subrange(0, n - 1));
        lemma_first_match_prefix(cs.drop_last(), name, n);
    } else {
        assert(cs.drop_last() =~= cs.subrange(0, n - 1));
    }
}

proof fn lemma_chunks_wire_cons(c: ChunkView, rest: Seq<ChunkView>)
    ensures
        chunks_wire(seq![c] + rest) == c.wire() + chunks_wire(rest),
    decreases rest.len(),
{
    let s = seq![c] + rest;
    assert(s.last() == if rest.len() == 0 {
        c
    } else {
        rest.last()
    });
    if rest.len() == 0 {
        assert(s.drop_last() =~= Seq::<ChunkView>::empty());
        assert(chunks_wire(Seq::<ChunkView>::empty()) == Seq::<u8>::empty());
        assert(c.wire() + Seq::<u8>::empty() =~= c.wire());
        assert(Seq::<u8>::empty() + c.wire() =~= c.wire());
    } else {
        assert(s.drop_last() =~= seq![c] + rest.drop_last());
        lemma_chunks_wire_cons(c, rest.drop_last());
        assert(c.wire() + chunks_wire(rest.drop_last()) + rest.last().wire() =~= c.wire() + (
        chunks_wire(rest.drop_last()) + rest.last().wire()));
    }
}

proof fn lemma_parse_chunks_wire(b: Seq<u8>, index: nat)
    requires
        parse_chunks(b, index) is Ok,
    ensures
        chunks_wire(parse_chunks(b, index)->Ok_0) == b,
    decreases b.len(),
{
    if b.len() == 0 {
        assert(b =~= Seq::<u8>::empty());
    } else {
        let total = 12 + be_u32(b.subrange(0, 4));
        let head = b.subrange(0, total);
        let tail = b.subrange(total, b.len() as int);
        let c = parse_chunk(head)->Ok_0;
        let rest = parse_chunks(tail, index + 1)->Ok_0;
        assert(parse_chunk(head) is Ok && parse_chunks(tail, index + 1) is Ok);
        assert(parse_chunks(b, index)->Ok_0 == seq![c] + rest);
        lemma_parsed_wire(head);
        lemma_parse_chunks_wire(tail, index + 1);
        lemma_chunks_wire_cons(c, rest);
        assert(head + tail =~= b);
    }
}

/// Every file that `from_bytes` accepts serializes back to exactly its bytes.
pub proof fn lemma_container_round_trip(b: Seq<u8>)
    requires
        parse_png(b) is Ok,
    ensures
        png_wire(parse_png(b)->Ok_0) == b,
{
    lemma_parse_chunks_wire(b.subrange(8, b.len() as int), 0);
    assert(signature() + b.subrange(8, b.len() as int) =~= b);
}

/// Bytes that do not start with the signature are refused as a bad
/// signature, whatever follows.
pub proof fn lemma_signature_gate(b: Seq<u8>)
    requires
        !(b.len() >= 8 && b.subrange(0, 8) == signature()),
    ensures
        parse_png(b) == Err::<Seq<ChunkView>, PngError>(PngError::BadSignature),
{
}

/// After appending a chunk named `name` to chunks of which none has that name,
/// lookup finds the appended chunk, and once it is removed lookup finds none.
pub proof fn lemma_append_find_remove(cs: Seq<ChunkView>, c: ChunkView, name: Seq<char>)
    requires
        first_match(cs, name) is None,
        has_name(c, name),
    ensures
        first_match(cs.push(c), name) == Some(cs.len() as int),
        first_match(cs.push(c).remove(cs.len() as int), name) is None,
{
    assert(cs.push(c).drop_last() =~= cs);
    assert(cs.push(c).remove(cs.len() as int) =~= cs);
}

} // verus!
