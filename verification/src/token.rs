//! Opaque request tokens: 128 random bits rendered as URL-safe base64,
//! handed to the presentation layer for state/CSRF protection.

use vstd::prelude::*;

verus! {

/// A name for what URL-safe, unpadded base64 returns on a byte string; the
/// encoding is a function of the input bytes alone.
pub uninterp spec fn b64url_of(bytes: Seq<u8>) -> Seq<char>;

/// Relies on `base64::encode_config` with `URL_SAFE_NO_PAD`: a deterministic
/// encoding of the bytes, four characters for every three bytes, rounded up,
/// without padding.
#[verifier::external_body]
fn base64_url_nopad(bytes: &[u8]) -> (r: String)
    requires
        bytes@.len() <= 0x1000_0000,
    ensures
        r@ == b64url_of(bytes@),
        r@.len() == (bytes@.len() * 4 + 2) / 3,
{
    base64::encode_config(bytes, base64::URL_SAFE_NO_PAD)
}

/// Relies on `rand::rngs::ThreadRng::try_fill_bytes` (`rand::RngCore`): fills
/// the buffer with random bytes, keeping its length; nothing is assumed
/// about the values, and the fill may report failure.
#[verifier::external_body]
fn fill_random_bytes(buf: &mut Vec<u8>) -> (ok: bool)
    ensures
        final(buf)@.len() == old(buf)@.len(),
{
    rand::RngCore::try_fill_bytes(&mut rand::thread_rng(), buf.as_mut_slice()).is_ok()
}

/// Generates an unguessable 22-character state token from 128 random bits,
/// or reports that no random data could be drawn.
pub fn generate_state() -> (r: Result<String, String>)
    ensures
        r is Ok ==> r->Ok_0@.len() == 22,
{
    let mut buf: Vec<u8> = Vec::new();
    let mut i: usize = 0;
    while i < 16
        invariant
            buf@.len() == i,
            0 <= i <= 16,
        decreases 16 - i,
    {
        buf.push(0);
        i = i + 1;
    }
    if !fill_random_bytes(&mut buf) {
        return Err("Failed to generate random data".to_owned());
    }
    Ok(base64_url_nopad(buf.as_slice()))
}

} // verus!
