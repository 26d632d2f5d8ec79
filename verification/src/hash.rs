use vstd::prelude::*;
use crate::bytes::{append, copy_range};
use sha1::Digest;

verus! {

/// The SHA-1 digest of `data`.
pub uninterp spec fn sha1_digest(data: Seq<u8>) -> Seq<u8>;

/// The lower-case hex digit of a value below 16.
pub open spec fn hex_digit(n: u8) -> u8 {
    if n < 10 {
        (48 + n) as u8
    } else {
        (87 + n) as u8
    }
}

/// Two lower-case hex digits for each byte, the high half first.
pub open spec fn hex_lower(bytes: Seq<u8>) -> Seq<u8> {
    Seq::new(
        2 * bytes.len(),
        |i: int|
            if i % 2 == 0 {
                hex_digit(bytes[i / 2] / 16)
            } else {
                hex_digit(bytes[i / 2] % 16)
            },
    )
}

/// `0` to `9` or `a` to `f`.
pub open spec fn is_hex_char(c: u8) -> bool {
    (48 <= c <= 57) || (97 <= c <= 102)
}

/// Forty lower-case hex digits.
pub open spec fn is_object_id(hash: Seq<u8>) -> bool {
    &&& hash.len() == 40
    &&& forall|i: int| 0 <= i < 40 ==> is_hex_char(#[trigger] hash[i])
}

/// `objects/`, the first two digits, `/`, the other thirty-eight.
pub open spec fn object_path_spec(hash: Seq<u8>) -> Seq<u8> {
    seq![111u8, 98u8, 106u8, 101u8, 99u8, 116u8, 115u8, 47u8] + hash.subrange(0, 2) + seq![47u8]
        + hash.subrange(2, 40)
}

/// The content hash of a record, as text.
pub open spec fn object_id_spec(record: Seq<u8>) -> Seq<u8> {
    hex_lower(sha1_digest(record))
}

/// Calls `sha1::Sha1::digest`. Trusted: the result is the SHA-1 digest of
/// `data`, which is twenty bytes long.
#[verifier::external_body]
pub(crate) fn sha1_of(data: &[u8]) -> (r: Vec<u8>)
    ensures
        r@ == sha1_digest(data@),
        r@.len() == 20,
{
    sha1::Sha1::digest(data).to_vec()
}

/// Calls `hex::encode`. Trusted: each byte becomes two lower-case hex digits,
/// the high half first.
#[verifier::external_body]
pub(crate) fn hex_encode(bytes: &[u8]) -> (r: Vec<u8>)
    ensures
        r@ == hex_lower(bytes@),
{
    hex::encode(bytes).into_bytes()
}

/// The hex text of twenty bytes is an object id.
pub proof fn lemma_hex_is_object_id(bytes: Seq<u8>)
    requires
        bytes.len() == 20,
    ensures
        is_object_id(hex_lower(bytes)),
{
    let h = hex_lower(bytes);
    assert forall|i: int| 0 <= i < 40 implies is_hex_char(#[trigger] h[i]) by {
        let b = bytes[i / 2];
        assert(b / 16 < 16);
        assert(b % 16 < 16);
    }
}

/// The content hash of a record: its SHA-1 digest in hex.
pub fn object_id(record: &[u8]) -> (r: Vec<u8>)
    ensures
        r@ == object_id_spec(record@),
        is_object_id(r@),
{
    let digest = sha1_of(record);
    proof {
        lemma_hex_is_object_id(digest@);
    }
    hex_encode(digest.as_slice())
}

/// Whether `hash` is forty lower-case hex digits. Shorter, abbreviated hashes
/// are not.
pub fn is_valid_object_id(hash: &[u8]) -> (r: bool)
    ensures
        r == is_object_id(hash@),
{
    if hash.len() != 40 {
        return false;
    }
    let mut i: usize = 0;
    while i < 40
        invariant
            hash@.len() == 40,
            i <= 40,
            forall|j: int| 0 <= j < i ==> is_hex_char(#[trigger] hash@[j]),
        decreases 40 - i,
    {
        let c: u8 = hash[i];
        if !((48 <= c && c <= 57) || (97 <= c && c <= 102)) {
            assert(!is_hex_char(hash@[i as int]));
            return false;
        }
        i += 1;
    }
    true
}

/// Where the object named `hash` lives, below the store's root.
pub fn object_path(hash: &[u8]) -> (r: Vec<u8>)
    requires
        is_object_id(hash@),
    ensures
        r@ == object_path_spec(hash@),
{
    let mut out: Vec<u8> = vec![111u8, 98u8, 106u8, 101u8, 99u8, 116u8, 115u8, 47u8];
    let ghost prefix = out@;
    assert(prefix =~= seq![111u8, 98u8, 106u8, 101u8, 99u8, 116u8, 115u8, 47u8]);
    let shard = copy_range(hash, 0, 2);
    let file = copy_range(hash, 2, 40);
    append(&mut out, shard.as_slice());
    out.push(47u8);
    append(&mut out, file.as_slice());
    assert(out@ =~= object_path_spec(hash@));
    out
}

} // verus!
