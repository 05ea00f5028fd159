//! The content hash that identifies a node of the board.

use vstd::prelude::*;
use vstd::std_specs::cmp::PartialEqSpecImpl;
use crate::error::BoardError;
use crate::hex_text::{
    hex_bytes, hex_decode, hex_encode, hex_text, is_hash_text, is_hex_char, lemma_hex_round_trip,
    lemma_hex_text_is_hex,
};

verus! {

/// A 32-byte digest. Two hashes are the same when their bytes are; the text
/// of a hash is its 64 lowercase hexadecimal digits, as `sha256sum` prints
/// them.
#[derive(Clone, Copy, Debug, Eq, Hash)]
pub struct HashValue(pub [u8; 32]);

impl PartialEq for HashValue {
    fn eq(&self, other: &Self) -> (same: bool) {
        let mut i: usize = 0;
        while i < 32
            invariant
                i <= 32,
                forall|j: int| 0 <= j < i ==> self.0@[j] == other.0@[j],
            decreases 32 - i,
        {
            if self.0[i] != other.0[i] {
                return false;
            }
            i += 1;
        }
        assert(self.0 =~= other.0);
        true
    }
}

impl PartialEqSpecImpl for HashValue {
    open spec fn obeys_eq_spec() -> bool {
        true
    }

    open spec fn eq_spec(&self, other: &Self) -> bool {
        *self == *other
    }
}

impl HashValue {
    /// The canonical text of the hash.
    pub fn to_string(&self) -> (text: String)
        ensures
            text@ == hex_text(self.0@),
    {
        hex_encode(&self.0)
    }

    /// Reads a hash from its text. Digits of either case are read; anything
    /// but 64 hexadecimal digits is refused.
    pub fn from_hex(text: &str) -> (parsed: Result<HashValue, BoardError>)
        ensures
            parsed is Ok <==> is_hash_text(text@),
            parsed matches Ok(hash) ==> hash.0@ == hex_bytes(text@),
            parsed matches Err(e) ==> e == BoardError::InvalidEncoding,
    {
        if text.len() == 64 {
            match hex_decode(text) {
                Ok(bytes) => Ok(HashValue(bytes)),
                Err(_) => Err(BoardError::InvalidEncoding),
            }
        } else {
            proof {
                if is_hash_text(text@) {
                    assert(vstd::utf8::is_ascii_chars(text@)) by {
                        assert forall|i: int| 0 <= i < text@.len() implies '\0'
                            <= #[trigger] text@[i] <= '\u{7f}' by {
                            assert(is_hex_char(text@[i]));
                        }
                    }
                    vstd::utf8::is_ascii_chars_encode_utf8(text@);
                }
            }
            Err(BoardError::InvalidEncoding)
        }
    }
}

/// Two hashes with the same bytes are the same hash.
pub proof fn lemma_hash_by_bytes(a: HashValue, b: HashValue)
    ensures
        (a == b) <==> (a.0@ == b.0@),
{
    if a.0@ == b.0@ {
        assert(a.0 =~= b.0);
    }
}

/// The text of a hash reads back as the same hash.
pub proof fn lemma_text_round_trip(hash: HashValue)
    ensures
        is_hash_text(hex_text(hash.0@)),
        hex_bytes(hex_text(hash.0@)) == hash.0@,
{
    lemma_hex_text_is_hex(hash.0@);
    lemma_hex_round_trip(hash.0@);
}

} // verus!
