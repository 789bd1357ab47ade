use crate::error::ChunkError;
use crate::utf8::utf8_to_string;
use vstd::prelude::*;
use vstd::utf8::*;

verus! {

/// The case bit of a type-code byte: clear for an uppercase letter.
pub const BIT5_FLAG: u8 = 0x20;

/// True when `b` is an ASCII letter.
pub open spec fn is_letter(b: u8) -> bool {
    (65 <= b && b <= 90) || (97 <= b && b <= 122)
}

/// True when `b` is an uppercase ASCII letter.
pub open spec fn is_upper(b: u8) -> bool {
    65 <= b && b <= 90
}

/// What `to_string` shows for a code that is not valid.
pub open spec fn invalid_text() -> Seq<char> {
    "ChunkType is invalid"@
}

/// A four-byte chunk-type code. Each byte carries one flag in its case bit.
#[derive(Debug, Clone, Copy, PartialEq, Eq, Structural)]
pub struct ChunkType {
    pub ancillary_bit: u8,
    pub private_bit: u8,
    pub reserved_bit: u8,
    pub stc_bit: u8,
}

proof fn lemma_case_bit(x: u8)
    ensures
        is_letter(x) ==> (is_upper(x) <==> x & 0x20u8 == 0),
{
    assert(65 <= x <= 90 ==> x & 0x20u8 == 0) by (bit_vector);
    assert(97 <= x <= 122 ==> x & 0x20u8 != 0) by (bit_vector);
}

impl ChunkType {
    /// The four bytes of the code, in order.
    pub open spec fn spec_bytes(self) -> Seq<u8> {
        seq![self.ancillary_bit, self.private_bit, self.reserved_bit, self.stc_bit]
    }

    /// All four bytes are ASCII letters.
    pub open spec fn all_letters(self) -> bool {
        forall|i: int| 0 <= i < 4 ==> is_letter(#[trigger] self.spec_bytes()[i])
    }

    /// Four letters, the third of them uppercase.
    pub open spec fn spec_is_valid(self) -> bool {
        self.all_letters() && is_upper(self.reserved_bit)
    }

    /// The code as text: its four letters when valid, a fixed notice otherwise.
    pub open spec fn text(self) -> Seq<char> {
        if self.spec_is_valid() {
            Seq::new(4, |i: int| self.spec_bytes()[i] as char)
        } else {
            invalid_text()
        }
    }

    /// The outcome of accepting the four bytes `b` as a code.
    pub open spec fn parse_bytes(b: Seq<u8>) -> Result<ChunkType, ChunkError>
        recommends
            b.len() == 4,
    {
        if ChunkType::of_bytes(b).spec_is_valid() {
            Ok(ChunkType::of_bytes(b))
        } else {
            Err(ChunkError::InvalidTypeCode)
        }
    }

    /// The code whose bytes are `b[0..4]`.
    pub open spec fn of_bytes(b: Seq<u8>) -> ChunkType
        recommends
            b.len() == 4,
    {
        ChunkType { ancillary_bit: b[0], private_bit: b[1], reserved_bit: b[2], stc_bit: b[3] }
    }

    fn is_uppercase(s: &u8) -> (r: bool)
        ensures
            r == is_upper(*s),
    {
        65 <= *s && *s <= 90
    }

    fn is_valid_symbol(s: &u8) -> (r: bool)
        ensures
            r == is_letter(*s),
    {
        (65 <= *s && *s <= 90) || (97 <= *s && *s <= 122)
    }

    pub fn bytes(&self) -> (r: [u8; 4])
        ensures
            r@ == self.spec_bytes(),
    {
        let r = [self.ancillary_bit, self.private_bit, self.reserved_bit, self.stc_bit];
        assert(r@ =~= self.spec_bytes());
        r
    }

    /// Each byte is a letter, the reserved byte is uppercase, and the case bit
    /// of every other byte agrees with its case.
    pub fn is_valid(&self) -> (r: bool)
        ensures
            r == self.spec_is_valid(),
    {
        let b = self.bytes();
        let mut i: usize = 0;
        while i < 4
            invariant
                i <= 4,
                b@ == self.spec_bytes(),
                forall|j: int| 0 <= j < i ==> is_letter(#[trigger] self.spec_bytes()[j]),
            decreases 4 - i,
        {
            if !Self::is_valid_symbol(&b[i]) {
                return false;
            }
            i = i + 1;
        }
        let a = b[0];
        let p = b[1];
        let c = b[2];
        let d = b[3];
        proof {
            lemma_case_bit(a);
            lemma_case_bit(p);
            lemma_case_bit(c);
            lemma_case_bit(d);
        }
        Self::is_uppercase(&c) && c & BIT5_FLAG == 0 && Self::is_uppercase(&a) == (a & BIT5_FLAG
            == 0) && Self::is_uppercase(&p) == (p & BIT5_FLAG == 0) && Self::is_uppercase(&d) == (d
            & BIT5_FLAG == 0)
    }

    pub fn is_critical(&self) -> (r: bool)
        ensures
            r == (self.ancillary_bit & 0x20u8 == 0),
    {
        self.ancillary_bit & BIT5_FLAG == 0
    }

    pub fn is_public(&self) -> (r: bool)
        ensures
            r == (self.private_bit & 0x20u8 == 0),
    {
        self.private_bit & BIT5_FLAG == 0
    }

    pub fn is_reserved_bit_valid(&self) -> (r: bool)
        ensures
            r == (self.reserved_bit & 0x20u8 == 0),
    {
        self.reserved_bit & BIT5_FLAG == 0
    }

    pub fn is_safe_to_copy(&self) -> (r: bool)
        ensures
            r == (self.stc_bit & 0x20u8 != 0),
    {
        self.stc_bit & BIT5_FLAG != 0
    }

    /// Accepts four bytes that form a valid code; anything else is
    /// `InvalidTypeCode`.
    pub fn from_bytes(value: [u8; 4]) -> (r: Result<ChunkType, ChunkError>)
        ensures
            r == ChunkType::parse_bytes(value@),
    {
        let chunk = ChunkType {
            ancillary_bit: value[0],
            private_bit: value[1],
            reserved_bit: value[2],
            stc_bit: value[3],
        };
        if chunk.is_valid() {
            Ok(chunk)
        } else {
            Err(ChunkError::InvalidTypeCode)
        }
    }

    /// Accepts text whose UTF-8 encoding is four ASCII letters. The reserved
    /// byte may be of either case here: such a code is built but `is_valid`
    /// reports it.
    pub fn from_text(s: &str) -> (r: Result<ChunkType, ChunkError>)
        ensures
            r is Ok <==> (encode_utf8(s@).len() == 4 && ChunkType::of_bytes(
                encode_utf8(s@),
            ).all_letters()),
            r matches Ok(t) ==> t.spec_bytes() == encode_utf8(s@),
            r matches Err(e) ==> e == ChunkError::InvalidTypeCode,
    {
        let b = s.as_bytes();
        assert(b@ == encode_utf8(s@));
        if b.len() != 4 {
            return Err(ChunkError::InvalidTypeCode);
        }
        let t = ChunkType { ancillary_bit: b[0], private_bit: b[1], reserved_bit: b[2], stc_bit: b[3] };
        assert(t.spec_bytes() =~= b@);
        let mut i: usize = 0;
        while i < 4
            invariant
                i <= 4,
                b@ == t.spec_bytes(),
                b@ == encode_utf8(s@),
                forall|j: int| 0 <= j < i ==> is_letter(#[trigger] t.spec_bytes()[j]),
            decreases 4 - i,
        {
            if !Self::is_valid_symbol(&b[i]) {
                assert(ChunkType::of_bytes(b@) == t);
                assert(!is_letter(t.spec_bytes()[i as int]));
                assert(!t.all_letters());
                return Err(ChunkError::InvalidTypeCode);
            }
            i = i + 1;
        }
        assert(ChunkType::of_bytes(b@) == t);
        Ok(t)
    }

    /// The code as text: the four letters when valid, a fixed notice otherwise.
    pub fn to_string(&self) -> (r: String)
        ensures
            r@ == self.text(),
    {
        if self.is_valid() {
            let b = self.bytes();
            let ghost chars = Seq::new(4, |i: int| self.spec_bytes()[i] as char);
            proof {
                assert(is_ascii_chars(chars));
                is_ascii_chars_encode_utf8(chars);
                assert(encode_utf8(chars) =~= b@);
                encode_utf8_valid_utf8(chars);
                encode_utf8_decode_utf8(chars);
            }
            let mut v: Vec<u8> = Vec::new();
            v.push(b[0]);
            v.push(b[1]);
            v.push(b[2]);
            v.push(b[3]);
            assert(v@ =~= b@);
            match utf8_to_string(v) {
                Some(s) => s,
                None => String::new(),
            }
        } else {
            String::from_str("ChunkType is invalid")
        }
    }
}

impl std::convert::TryFrom<[u8; 4]> for ChunkType {
    type Error = ChunkError;

    fn try_from(value: [u8; 4]) -> Result<Self, Self::Error> {
        ChunkType::from_bytes(value)
    }
}

impl vstd::std_specs::convert::TryFromSpecImpl<[u8; 4]> for ChunkType {
    open spec fn obeys_try_from_spec() -> bool {
        true
    }

    open spec fn try_from_spec(v: [u8; 4]) -> Result<Self, Self::Error> {
        ChunkType::parse_bytes(v@)
    }
}

impl std::str::FromStr for ChunkType {
    type Err = ChunkError;

    fn from_str(s: &str) -> Result<Self, Self::Err> {
        ChunkType::from_text(s)
    }
}

} // verus!
