//! BLS signatures over BLS12-381 (public keys in G1, signatures in G2), held
//! as their compressed encodings.

use vstd::prelude::*;
use blst::min_pk::{AggregatePublicKey, AggregateSignature, PublicKey, Signature};
use blst::BLST_ERROR;

verus! {

/// The message that every client signs to acknowledge a batch.
pub const SETTLEMENT_ROOT: [u8; 32] = [
    200, 117, 111, 57, 59, 197, 34, 95, 163, 98, 125, 151, 19, 45, 52, 158, 129, 137, 95, 68, 115,
    72, 118, 235, 175, 93, 230, 204, 31, 175, 122, 223,
];

/// The domain separation tag of the signature scheme, the ASCII bytes of
/// `BLS_SIG_BLS12381G2_XMD:SHA-256_SSWU_RO_NUL_`.
pub const DOMAIN_TAG: [u8; 43] = [
    66, 76, 83, 95, 83, 73, 71, 95, 66, 76, 83, 49, 50, 51, 56, 49, 71, 50, 95, 88, 77, 68, 58, 83,
    72, 65, 45, 50, 53, 54, 95, 83, 83, 87, 85, 95, 82, 79, 95, 78, 85, 76, 95,
];

/// The compressed encoding of the sum of the two signatures that `a` and `b`
/// encode, or `None` where `blst` decodes no signature from one of them.
///
/// The value is computed by the `blst` crate; nothing is known of it here
/// beyond being a function of the two encodings.
pub uninterp spec fn bls_signature_sum(a: Seq<u8>, b: Seq<u8>) -> Option<Seq<u8>>;

/// The compressed encoding of the sum of the two public keys that `a` and `b`
/// encode, or `None` where `blst` decodes no key from one of them.
///
/// The value is computed by the `blst` crate; nothing is known of it here
/// beyond being a function of the two encodings.
pub uninterp spec fn bls_public_key_sum(a: Seq<u8>, b: Seq<u8>) -> Option<Seq<u8>>;

/// Whether `blst` accepts the signature that `sig` encodes as one of the key
/// that `pk` encodes on `msg` under the tag `dst`, with both points checked
/// for membership of their groups. False where no signature or no key is
/// decoded.
///
/// The value is computed by the `blst` crate; nothing is known of it here
/// beyond being a function of the four byte strings.
pub uninterp spec fn bls_verifies(sig: Seq<u8>, pk: Seq<u8>, msg: Seq<u8>, dst: Seq<u8>) -> bool;

/// What an optional array holds, as an optional sequence.
pub open spec fn bytes_of<const N: usize>(value: Option<[u8; N]>) -> Option<Seq<u8>> {
    match value {
        Some(bytes) => Some(bytes@),
        None => None,
    }
}

/// Decodes both signatures with `Signature::from_bytes`, adds them as
/// `AggregateSignature`s with `add_aggregate`, and encodes the sum with
/// `to_signature` and `to_bytes`. Trusted: the result depends on the two
/// encodings alone.
#[verifier::external_body]
pub(crate) fn add_signatures(a: &[u8; 96], b: &[u8; 96]) -> (sum: Option<[u8; 96]>)
    ensures
        bytes_of(sum) == bls_signature_sum(a@, b@),
{
    let x = Signature::from_bytes(a).ok()?;
    let y = Signature::from_bytes(b).ok()?;
    let mut total = AggregateSignature::from_signature(&x);
    total.add_aggregate(&AggregateSignature::from_signature(&y));
    Some(total.to_signature().to_bytes())
}

/// Decodes both keys with `PublicKey::from_bytes`, adds them as
/// `AggregatePublicKey`s with `add_aggregate`, and encodes the sum with
/// `to_public_key` and `to_bytes`. Trusted: the result depends on the two
/// encodings alone.
#[verifier::external_body]
pub(crate) fn add_public_keys(a: &[u8; 48], b: &[u8; 48]) -> (sum: Option<[u8; 48]>)
    ensures
        bytes_of(sum) == bls_public_key_sum(a@, b@),
{
    let x = PublicKey::from_bytes(a).ok()?;
    let y = PublicKey::from_bytes(b).ok()?;
    let mut total = AggregatePublicKey::from_public_key(&x);
    total.add_aggregate(&AggregatePublicKey::from_public_key(&y));
    Some(total.to_public_key().to_bytes())
}

/// Decodes the signature and the key and calls `Signature::verify` with group
/// checks of both and no augmentation. Trusted: the result depends on the four
/// byte strings alone; it is true only for `BLST_SUCCESS`.
#[verifier::external_body]
pub(crate) fn verify_signature(sig: &[u8; 96], pk: &[u8; 48], msg: &[u8], dst: &[u8]) -> (ok: bool)
    ensures
        ok == bls_verifies(sig@, pk@, msg@, dst@),
{
    match (Signature::from_bytes(sig), PublicKey::from_bytes(pk)) {
        (Ok(s), Ok(p)) => s.verify(true, msg, dst, &[], &p, true) == BLST_ERROR::BLST_SUCCESS,
        _ => false,
    }
}

} // verus!
