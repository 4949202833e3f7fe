//! What a collator signs when it declares itself, and the check of that signature.
use vstd::prelude::*;
use crate::{CollatorId, CollatorSignature};

verus! {

/// Whether `signature` is a valid sr25519 signature of `message` by the key `signer`.
pub uninterp spec fn sr25519_valid(signature: Seq<u8>, message: Seq<u8>, signer: Seq<u8>) -> bool;

/// Relies on `sp_runtime::traits::Verify::verify` for `sp_core::sr25519::Signature`, which
/// checks the signature with schnorrkel in substrate's signing context: the outcome is a
/// function of the three byte strings.
#[verifier::external_body]
fn sr25519_verify(signature: &CollatorSignature, message: &Vec<u8>, signer: &CollatorId) -> (r: bool)
    ensures
        r == sr25519_valid(signature@, message@, signer@),
{
    let signature = sp_core::sr25519::Signature::from_raw(*signature);
    let signer = sp_core::sr25519::Public::from_raw(*signer);
    sp_runtime::traits::Verify::verify(&signature, &message[..], &signer)
}

/// The bytes of a peer's network identity followed by the tag `COLL`.
pub open spec fn declare_payload(identity: Seq<u8>) -> Seq<u8> {
    identity + seq![67u8, 79u8, 76u8, 76u8]
}

/// The payload that a collator signs to bind its key to the network identity it connects
/// with.
pub fn declare_signature_payload(identity: &Vec<u8>) -> (r: Vec<u8>)
    ensures
        r@ == declare_payload(identity@),
{
    let mut out: Vec<u8> = Vec::new();
    let mut i: usize = 0;
    while i < identity.len()
        invariant
            0 <= i <= identity@.len(),
            out@ == identity@.subrange(0, i as int),
        decreases identity@.len() - i,
    {
        out.push(identity[i]);
        proof { assert(out@ =~= identity@.subrange(0, i as int + 1)); }
        i += 1;
    }
    proof { assert(out@ =~= identity@); }
    out.push(67u8);
    out.push(79u8);
    out.push(76u8);
    out.push(76u8);
    proof {
        assert(out@ =~= declare_payload(identity@));
    }
    out
}

/// Checks that `signature` is `collator`'s signature of the payload bound to the network
/// identity `identity`.
pub fn verify_declaration(identity: &Vec<u8>, collator: &CollatorId, signature: &CollatorSignature) -> (r: bool)
    ensures
        r == sr25519_valid(signature@, declare_payload(identity@), collator@),
{
    let payload = declare_signature_payload(identity);
    sr25519_verify(signature, &payload, collator)
}

} // verus!
