//! Digests and signatures: Keccak-256 over a byte string, and a recoverable
//! secp256k1 signature over the digest.

use crate::encoding::{hex_encode, hex_lower};
use vstd::prelude::*;

verus! {

/// The Keccak-256 digest of `data`.
pub uninterp spec fn keccak256(data: Seq<u8>) -> Seq<u8>;

/// The deterministic recoverable secp256k1 signature that the key with the
/// raw bytes `key` gives for `prehash`: the 64 bytes of `r` and `s` and the
/// recovery id; `None` where the bytes are no key or the prehash is refused.
pub uninterp spec fn ecdsa_signature(key: Seq<u8>, prehash: Seq<u8>) -> Option<(Seq<u8>, u8)>;

/// The number that bytes stand for, the most significant first.
pub open spec fn be_value(bytes: Seq<u8>) -> nat
    decreases bytes.len(),
{
    if bytes.len() == 0 {
        0
    } else {
        be_value(bytes.drop_last()) * 256 + bytes.last() as nat
    }
}

/// The order of the group of secp256k1.
pub open spec fn group_order() -> nat {
    0xFFFFFFFFFFFFFFFFFFFFFFFFFFFFFFFEBAAEDCE6AF48A03BBFD25E8CD0364141nat
}

/// Whether the raw bytes `key` are a secp256k1 signing key: 24 to 32 bytes
/// that stand for a number above zero and below the order of the group.
pub open spec fn is_signing_key(key: Seq<u8>) -> bool {
    24 <= key.len() <= 32 && 0 < be_value(key) < group_order()
}

/// Asks `k256::ecdsa::SigningKey::from_slice` whether the bytes are a key. It
/// takes 24 to 32 bytes, fills shorter ones up with zeros in front, and
/// refuses zero and every number from the order of the group on.
#[verifier::external_body]
pub(crate) fn signing_key_valid(key: &[u8]) -> (valid: bool)
    ensures
        valid == is_signing_key(key@),
{
    k256::ecdsa::SigningKey::from_slice(key).is_ok()
}

/// Signing failed: the key bytes are no key, or the signer refused the digest.
#[derive(Debug, Clone, Copy, PartialEq, Eq, Structural)]
pub struct SigningError;

/// Runs `tiny_keccak::Keccak::v256` over `data` and reads 32 bytes out. The
/// result is named, not stated: it is the Keccak-256 digest.
#[verifier::external_body]
pub(crate) fn keccak256_digest(data: &[u8]) -> (digest: Vec<u8>)
    ensures
        digest@ == keccak256(data@),
        digest@.len() == 32,
{
    let mut hasher = tiny_keccak::Keccak::v256();
    tiny_keccak::Hasher::update(&mut hasher, data);
    let mut hash = [0u8; 32];
    tiny_keccak::Hasher::finalize(hasher, &mut hash);
    hash.to_vec()
}

/// Reads the key with `k256::ecdsa::SigningKey::from_slice` and signs with
/// `sign_prehash_recoverable`, which derives its nonce from key and digest
/// alone. The result is named, not stated. What is stated is its shape: `r`
/// and `s` fill 64 bytes, and a recovery id is one of 0 to 3.
#[verifier::external_body]
pub(crate) fn sign_prehash(key: &[u8], prehash: &[u8]) -> (res: Option<(Vec<u8>, u8)>)
    ensures
        match res {
            Some((rs, v)) => ecdsa_signature(key@, prehash@) == Some((rs@, v)) && rs@.len() == 64
                && v <= 3,
            None => ecdsa_signature(key@, prehash@) is None,
        },
{
    let signer = k256::ecdsa::SigningKey::from_slice(key).ok()?;
    let (rs, v) = signer.sign_prehash_recoverable(prehash).ok()?;
    Some((rs.to_bytes().to_vec(), v.to_byte()))
}

/// The wire form of a signature: `r`, `s`, then 27 plus the recovery id.
pub open spec fn signature_wire(rs: Seq<u8>, v: u8) -> Seq<u8> {
    rs.push((27 + v) as u8)
}

/// The number of hexadecimal digits of a signature in its wire form: 32 bytes
/// each for `r` and `s`, and one for the recovery id.
pub const SIGNATURE_DIGITS: usize = 130;

/// Writes a signature in its wire form, as lowercase hexadecimal.
pub fn serialize_signature(rs: &[u8], v: u8) -> (text: String)
    requires
        v <= 228,
    ensures
        text@ == hex_lower(signature_wire(rs@, v)),
        text@.len() == 2 * (rs@.len() + 1),
{
    let mut wire: Vec<u8> = Vec::new();
    crate::bytes::append(&mut wire, rs);
    wire.push(27 + v);
    assert(wire@ =~= signature_wire(rs@, v));
    hex_encode(wire.as_slice())
}

/// The hexadecimal signature over the Keccak-256 digest of `data`, or `None`
/// where signing fails.
pub open spec fn signed_hex(key: Seq<u8>, data: Seq<u8>) -> Option<Seq<char>> {
    match ecdsa_signature(key, keccak256(data)) {
        Some((rs, v)) => Some(hex_lower(signature_wire(rs, v))),
        None => None,
    }
}

/// Signs `data`: the Keccak-256 digest of the bytes as they are, signed with
/// `key`, in wire form and hexadecimal.
pub fn sign_data(data: &[u8], key: &[u8]) -> (res: Result<String, SigningError>)
    ensures
        match signed_hex(key@, data@) {
            Some(text) => res is Ok && res->Ok_0@ == text,
            None => res == Err::<String, SigningError>(SigningError),
        },
        res is Ok ==> res->Ok_0@.len() == SIGNATURE_DIGITS,
{
    let hash = keccak256_digest(data);
    match sign_prehash(key, hash.as_slice()) {
        Some((rs, v)) => Ok(serialize_signature(rs.as_slice(), v)),
        None => Err(SigningError),
    }
}

/// The `width` low bytes of `x`, the most significant first.
pub open spec fn be_bytes(x: nat, width: nat) -> Seq<u8>
    decreases width,
{
    if width == 0 {
        Seq::empty()
    } else {
        be_bytes(x / 256, (width - 1) as nat).push((x % 256) as u8)
    }
}

/// Writes the `width` low bytes of `x`, the most significant first.
pub fn to_be_bytes(x: u128, width: usize) -> (out: Vec<u8>)
    ensures
        out@ == be_bytes(x as nat, width as nat),
        out@.len() == width,
    decreases width,
{
    if width == 0 {
        Vec::new()
    } else {
        let mut out = to_be_bytes(x / 256, width - 1);
        out.push((x % 256) as u8);
        out
    }
}

} // verus!
