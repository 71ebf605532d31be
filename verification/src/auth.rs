//! Heartbeat authentication: each heartbeat carries the sender's public key
//! and a signature over its canonical body, so nobody can register under
//! someone else's peer id.

use vstd::prelude::*;

use crate::crypto::{
    base64_decoding, base64_encoding, decode_signature, ed25519_signature, ed25519_valid,
    encode_signature, export_pubkey, import_pubkey, lemma_base64_trim, peer_id_text_valid,
    peer_text_of, public_key, public_of, pubkey_bytes_valid, sign, verify, CryptoError, Identity,
};
use crate::text::trim;
use crate::types::Heartbeat;

verus! {

/// The heartbeat's credentials are well formed: a base64 public key, a base64
/// signature, and a real peer id.
pub open spec fn credentials_well_formed(hb: Heartbeat) -> bool {
    &&& base64_decoding(trim(hb.pubkey@)) matches Some(b) && pubkey_bytes_valid(b)
    &&& base64_decoding(hb.sig@) is Some
    &&& peer_id_text_valid(hb.peer_id@)
}

/// The heartbeat is authentic for `body`: its public key decodes, hashes to
/// its claimed peer id, and its signature over `body` verifies under that key.
pub open spec fn heartbeat_authentic(hb: Heartbeat, body: Seq<u8>) -> bool {
    match (base64_decoding(trim(hb.pubkey@)), base64_decoding(hb.sig@)) {
        (Some(b), Some(s)) => pubkey_bytes_valid(b) && hb.peer_id@ == peer_text_of(b)
            && ed25519_valid(b, body, s),
        _ => false,
    }
}

/// Sign a heartbeat in place: attach the peer's public key and a signature
/// over `body`, the canonical bytes of the heartbeat's signed portion. A
/// heartbeat signed by the key of the peer id it carries is authentic.
pub fn sign_heartbeat(kp: &Identity, hb: &mut Heartbeat, body: &[u8]) -> (r: Result<(), CryptoError>)
    ensures
        final(hb).peer_id == old(hb).peer_id,
        final(hb).multiaddrs == old(hb).multiaddrs,
        final(hb).offers == old(hb).offers,
        final(hb).capacity == old(hb).capacity,
        final(hb).in_flight == old(hb).in_flight,
        r is Ok,
        final(hb).pubkey@ == base64_encoding(public_of(kp@)),
        base64_decoding(final(hb).pubkey@) == Some(public_of(kp@)),
        final(hb).sig@ == base64_encoding(ed25519_signature(kp@, body@)),
        base64_decoding(final(hb).sig@) == Some(ed25519_signature(kp@, body@)),
        old(hb).peer_id@ == peer_text_of(public_of(kp@)) ==> heartbeat_authentic(*final(hb), body@),
{
    let pk = public_key(kp);
    hb.pubkey = match export_pubkey(&pk) {
        Ok(s) => s,
        Err(e) => return Err(e),
    };
    let sig = match sign(kp, body) {
        Ok(s) => s,
        Err(e) => return Err(e),
    };
    hb.sig = match encode_signature(sig.as_slice()) {
        Ok(s) => s,
        Err(e) => return Err(e),
    };
    proof {
        lemma_base64_trim(pk@);
    }
    Ok(())
}

/// Verify a heartbeat's signature over `body` (its canonical bytes) and that
/// the presented key hashes to the claimed peer id. False on any malformed
/// field.
pub fn verify_heartbeat(hb: &Heartbeat, body: &[u8]) -> (r: bool)
    ensures
        r == heartbeat_authentic(*hb, body@),
        r ==> credentials_well_formed(*hb),
{
    let pk = match import_pubkey(hb.pubkey.as_str()) {
        Ok(pk) => pk,
        Err(_) => return false,
    };
    let sig = match decode_signature(hb.sig.as_str()) {
        Some(s) => s,
        None => return false,
    };
    verify(hb.peer_id.as_str(), &pk, body, sig.as_slice())
}

} // verus!
