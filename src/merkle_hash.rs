use sha3::{Digest, Sha3_256};
use vstd::prelude::*;
use vstd::string::{StringExecFns, StringSliceAdditionalSpecFns};

verus! {

/// A hash value: the 32 bytes of a SHA3-256 digest.
pub type MerkleHash = [u8; 32];

/// The SHA3-256 digest of a byte sequence.
pub uninterp spec fn sha3_256_of(data: Seq<u8>) -> MerkleHash;

/// The hash of an inner node: the digest of the raw bytes of its left child
/// followed by the raw bytes of its right child.
pub open spec fn combine_spec(left: MerkleHash, right: MerkleHash) -> MerkleHash {
    sha3_256_of(left@ + right@)
}

/// Relies on `sha3::Sha3_256::digest`: the 32-byte SHA3-256 digest of the
/// input, which depends on the input bytes alone.
#[verifier::external_body]
pub(crate) fn sha3_256(data: &[u8]) -> (r: MerkleHash)
    ensures
        r == sha3_256_of(data@),
{
    Sha3_256::digest(data).into()
}

/// Whether two hashes hold the same bytes.
pub fn same_hash(a: &MerkleHash, b: &MerkleHash) -> (r: bool)
    ensures
        r == (*a == *b),
{
    let mut i: usize = 0;
    while i < 32
        invariant
            0 <= i <= 32,
            forall|j: int| 0 <= j < i ==> a@[j] == b@[j],
        decreases 32 - i,
    {
        if a[i] != b[i] {
            proof {
                assert(a@[i as int] != b@[i as int]);
            }
            return false;
        }
        i = i + 1;
    }
    proof {
        assert(*a =~= *b);
    }
    true
}

/// The lowercase hexadecimal digits, by value.
pub open spec fn hex_chars() -> Seq<char> {
    seq!['0', '1', '2', '3', '4', '5', '6', '7', '8', '9', 'a', 'b', 'c', 'd', 'e', 'f']
}

/// The two lowercase hexadecimal digits of a byte, high digit first.
pub open spec fn byte_hex(b: u8) -> Seq<char> {
    seq![hex_chars()[(b / 16) as int], hex_chars()[(b % 16) as int]]
}

/// The canonical text of a byte sequence: two lowercase hexadecimal digits
/// per byte.
pub open spec fn hex_of(bytes: Seq<u8>) -> Seq<char>
    decreases bytes.len(),
{
    if bytes.len() == 0 {
        seq![]
    } else {
        hex_of(bytes.drop_last()) + byte_hex(bytes.last())
    }
}

/// Relies on std's `format!` with `{:02x}`: a byte as exactly two lowercase
/// hexadecimal digits.
#[verifier::external_body]
fn format_byte_hex(b: u8) -> (r: String)
    ensures
        r@ == byte_hex(b),
{
    format!("{:02x}", b)
}

/// The canonical text of a byte sequence.
pub fn bytes_to_hex(bytes: &[u8]) -> (r: String)
    ensures
        r@ == hex_of(bytes@),
{
    let mut text = String::new();
    let mut i: usize = 0;
    while i < bytes.len()
        invariant
            0 <= i <= bytes@.len(),
            text@ == hex_of(bytes@.take(i as int)),
        decreases bytes@.len() - i,
    {
        let pair = format_byte_hex(bytes[i]);
        text.append(pair.as_str());
        proof {
            assert(bytes@.take(i + 1).drop_last() =~= bytes@.take(i as int));
        }
        i = i + 1;
    }
    proof {
        assert(bytes@.take(bytes@.len() as int) =~= bytes@);
    }
    text
}

/// Whether a byte is the ASCII code of a hexadecimal digit, in either case.
pub open spec fn is_hex_digit(c: u8) -> bool {
    (48 <= c <= 57) || (97 <= c <= 102) || (65 <= c <= 70)
}

/// The value of a hexadecimal digit.
pub open spec fn hex_value(c: u8) -> int {
    if 48 <= c <= 57 {
        c - 48
    } else if 97 <= c <= 102 {
        c - 87
    } else {
        c - 55
    }
}

/// Whether `text` spells a hash: 64 hexadecimal digits.
pub open spec fn is_hash_text(text: Seq<u8>) -> bool {
    &&& text.len() == 64
    &&& forall|i: int| 0 <= i < 64 ==> is_hex_digit(#[trigger] text[i])
}

/// The hash that the text of 64 hexadecimal digits spells, high digit first.
pub open spec fn hash_of_text(text: Seq<u8>) -> Seq<u8> {
    Seq::new(32, |j: int| (hex_value(text[2 * j]) * 16 + hex_value(text[2 * j + 1])) as u8)
}

fn digit_value(c: u8) -> (r: Option<u8>)
    ensures
        r is Some <==> is_hex_digit(c),
        r is Some ==> r->0 as int == hex_value(c) && r->0 < 16,
{
    if 48 <= c && c <= 57 {
        Some(c - 48)
    } else if 97 <= c && c <= 102 {
        Some(c - 87)
    } else if 65 <= c && c <= 70 {
        Some(c - 55)
    } else {
        None
    }
}

/// Reads a hash from its text, 64 hexadecimal digits in either case.
pub fn hash_from_hex(text: &str) -> (r: Option<MerkleHash>)
    ensures
        r is Some <==> is_hash_text(text.spec_bytes()),
        r is Some ==> r->0@ == hash_of_text(text.spec_bytes()),
{
    let bytes = text.as_bytes();
    if bytes.len() != 64 {
        return None;
    }
    let mut hash: MerkleHash = [0u8; 32];
    let mut j: usize = 0;
    while j < 32
        invariant
            bytes@ == text.spec_bytes(),
            bytes@.len() == 64,
            0 <= j <= 32,
            forall|i: int| 0 <= i < 2 * j ==> is_hex_digit(#[trigger] bytes@[i]),
            forall|k: int| 0 <= k < j ==> hash@[k] == hash_of_text(bytes@)[k],
        decreases 32 - j,
    {
        let high = digit_value(bytes[2 * j]);
        let low = digit_value(bytes[2 * j + 1]);
        match (high, low) {
            (Some(h), Some(l)) => {
                hash[j] = h * 16 + l;
            },
            _ => {
                return None;
            },
        }
        j = j + 1;
    }
    proof {
        assert(hash@ =~= hash_of_text(bytes@));
    }
    Some(hash)
}

} // verus!
