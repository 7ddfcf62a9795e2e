use crate::error::PngError;
use crate::text::string_from_utf8;
use vstd::prelude::*;
use vstd::string::StringSliceAdditionalSpecFns;
use vstd::utf8::{decode_utf8, encode_utf8, valid_utf8};

verus! {

/// `b` is an upper-case ASCII letter.
pub open spec fn is_upper(b: u8) -> bool {
    65 <= b <= 90
}

/// `b` is a lower-case ASCII letter.
pub open spec fn is_lower(b: u8) -> bool {
    97 <= b <= 122
}

/// `b` is an ASCII letter of either case.
pub open spec fn is_letter(b: u8) -> bool {
    is_upper(b) || is_lower(b)
}

/// `s` can be a chunk type code: four bytes, each an ASCII letter.
pub open spec fn type_code_accepts(s: Seq<u8>) -> bool {
    &&& s.len() == 4
    &&& forall|i: int| 0 <= i < 4 ==> #[trigger] is_letter(s[i])
}

/// The four-letter type code of a chunk. The case of each letter carries one
/// property: critical, public, reserved bit, safe to copy.
#[derive(Debug, Clone, Copy, PartialEq, Eq, Structural)]
pub struct ChunkType {
    critical: u8,
    public: u8,
    reserved: u8,
    safe_to_copy: u8,
}

impl View for ChunkType {
    type V = Seq<u8>;

    closed spec fn view(&self) -> Seq<u8> {
        seq![self.critical, self.public, self.reserved, self.safe_to_copy]
    }
}

impl ChunkType {
    /// Every type code consists of four ASCII letters.
    #[verifier::type_invariant]
    spec fn letters(self) -> bool {
        type_code_accepts(self@)
    }
}

/// Returns whether `byte` is an upper-case ASCII letter.
pub fn is_uppercase(byte: &u8) -> (r: bool)
    ensures
        r == is_upper(*byte),
{
    if *byte > 64u8 && *byte < 91u8 {
        return true;
    }
    false
}

/// Returns whether `byte` is a lower-case ASCII letter.
pub fn is_lowercase(byte: &u8) -> (r: bool)
    ensures
        r == is_lower(*byte),
{
    if *byte > 96u8 && *byte < 123u8 {
        return true;
    }
    false
}

/// Four ASCII letters form valid UTF-8 text.
proof fn lemma_letters_valid_utf8(s: Seq<u8>)
    requires
        type_code_accepts(s),
    ensures
        valid_utf8(s),
{
    assert(is_letter(s[0]) && is_letter(s[1]) && is_letter(s[2]) && is_letter(s[3]));
    reveal_with_fuel(valid_utf8, 5);
}

impl ChunkType {
    /// Builds a type code from four bytes, each of which must be an ASCII
    /// letter.
    pub fn try_from(bytes: [u8; 4]) -> (r: Result<ChunkType, PngError>)
        ensures
            r is Ok <==> type_code_accepts(bytes@),
            r is Ok ==> r->Ok_0@ == bytes@,
            r is Err ==> r->Err_0 == PngError::InvalidTypeCode,
    {
        let mut i: usize = 0;
        while i < 4
            invariant
                i <= 4,
                forall|k: int| 0 <= k < i ==> #[trigger] is_letter(bytes@[k]),
            decreases 4 - i,
        {
            if !(is_lowercase(&bytes[i]) || is_uppercase(&bytes[i])) {
                assert(!is_letter(bytes@[i as int]));
                return Err(PngError::InvalidTypeCode);
            }
            i += 1;
        }
        let t = ChunkType {
            critical: bytes[0],
            public: bytes[1],
            reserved: bytes[2],
            safe_to_copy: bytes[3],
        };
        assert(t@ =~= bytes@);
        Ok(t)
    }

    /// Builds a type code from text, which must be exactly four ASCII
    /// letters.
    pub fn from_str(s: &str) -> (r: Result<ChunkType, PngError>)
        ensures
            r is Ok <==> type_code_accepts(s.spec_bytes()),
            r is Ok ==> r->Ok_0@ == s.spec_bytes(),
            r is Err ==> r->Err_0 == PngError::InvalidTypeCode,
    {
        let bytes = s.as_bytes();
        if bytes.len() != 4 {
            return Err(PngError::InvalidTypeCode);
        }
        let mut i: usize = 0;
        while i < 4
            invariant
                i <= 4,
                bytes@ == s.spec_bytes(),
                bytes@.len() == 4,
                forall|k: int| 0 <= k < i ==> #[trigger] is_letter(bytes@[k]),
            decreases 4 - i,
        {
            if !(is_lowercase(&bytes[i]) || is_uppercase(&bytes[i])) {
                assert(!is_letter(bytes@[i as int]));
                return Err(PngError::InvalidTypeCode);
            }
            i += 1;
        }
        let t = ChunkType {
            critical: bytes[0],
            public: bytes[1],
            reserved: bytes[2],
            safe_to_copy: bytes[3],
        };
        assert(t@ =~= bytes@);
        Ok(t)
    }

    /// The four bytes of the code.
    pub fn bytes(&self) -> (r: [u8; 4])
        ensures
            r@ == self@,
            type_code_accepts(r@),
    {
        proof {
            use_type_invariant(self);
        }
        let r = [self.critical, self.public, self.reserved, self.safe_to_copy];
        assert(r@ =~= self@);
        r
    }

    /// A code is valid exactly when its reserved bit is valid.
    pub fn is_valid(&self) -> (r: bool)
        ensures
            r == is_upper(self@[2]),
    {
        self.is_reserved_bit_valid()
    }

    /// The first letter is upper case.
    pub fn is_critical(&self) -> (r: bool)
        ensures
            r == is_upper(self@[0]),
    {
        is_uppercase(&self.critical)
    }

    /// The second letter is upper case.
    pub fn is_public(&self) -> (r: bool)
        ensures
            r == is_upper(self@[1]),
    {
        is_uppercase(&self.public)
    }

    /// The third letter is upper case.
    pub fn is_reserved_bit_valid(&self) -> (r: bool)
        ensures
            r == is_upper(self@[2]),
    {
        is_uppercase(&self.reserved)
    }

    /// The fourth letter is lower case.
    pub fn is_safe_to_copy(&self) -> (r: bool)
        ensures
            r == is_lower(self@[3]),
    {
        is_lowercase(&self.safe_to_copy)
    }

    /// The code as text: its four letters.
    pub fn to_string(&self) -> (r: String)
        ensures
            r@ == decode_utf8(self@),
    {
        proof {
            use_type_invariant(self);
        }
        let mut v: Vec<u8> = Vec::new();
        v.push(self.critical);
        v.push(self.public);
        v.push(self.reserved);
        v.push(self.safe_to_copy);
        assert(v@ =~= self@);
        proof {
            lemma_letters_valid_utf8(v@);
        }
        match string_from_utf8(v) {
            Some(s) => s,
            None => String::new(),
        }
    }
}

/// A type code built from text gives that text back: for every text whose
/// bytes form an acceptable type code, decoding those bytes yields the text.
pub proof fn lemma_type_code_text_round_trip(s: Seq<char>)
    requires
        type_code_accepts(encode_utf8(s)),
    ensures
        decode_utf8(encode_utf8(s)) == s,
{
    vstd::utf8::encode_utf8_decode_utf8(s);
}

impl core::str::FromStr for ChunkType {
    type Err = PngError;

    fn from_str(s: &str) -> Result<ChunkType, PngError> {
        ChunkType::from_str(s)
    }
}

} // verus!
