//! Request authentication: an Ed25519 signature over the timestamp header
//! followed by the raw body, checked before anything in the body is read.
use vstd::prelude::*;
use ed25519_dalek::Verifier;

verus! {

/// Why a request was refused.
#[derive(Debug, Clone, Copy, PartialEq, Eq, Structural)]
pub enum AuthError {
    /// A header is missing, is not hex, or has the wrong length.
    Malformed,
    /// The signature does not hold for this key and message.
    InvalidSignature,
}

pub const PUBLIC_KEY_LEN: usize = 32;

pub const SIGNATURE_LEN: usize = 64;

/// The value of one hex digit (either case).
pub open spec fn hex_value(c: u8) -> Option<u8> {
    if 0x30 <= c <= 0x39 {
        Some((c - 0x30) as u8)
    } else if 0x41 <= c <= 0x46 {
        Some((c - 0x41 + 10) as u8)
    } else if 0x61 <= c <= 0x66 {
        Some((c - 0x61 + 10) as u8)
    } else {
        None
    }
}

/// The bytes that hex text denotes, two digits each: `None` for an odd
/// length or a byte that is not a hex digit.
pub open spec fn hex_bytes(s: Seq<u8>) -> Option<Seq<u8>>
    decreases s.len(),
{
    if s.len() == 0 {
        Some(Seq::empty())
    } else if s.len() == 1 {
        None
    } else {
        match (hex_value(s[0]), hex_value(s[1]), hex_bytes(s.skip(2))) {
            (Some(h), Some(l), Some(rest)) => Some(seq![(h * 16 + l) as u8] + rest),
            _ => None,
        }
    }
}

/// Whether Ed25519 accepts `signature` over `message` under the encoded
/// public key `key`.
pub uninterp spec fn ed25519_accepts(key: Seq<u8>, message: Seq<u8>, signature: Seq<u8>) -> bool;

/// Relies on `hex::decode`: two digits of either case per byte; an odd length
/// or any other byte is an error.
#[verifier::external_body]
fn decode_hex(text: &[u8]) -> (r: Option<Vec<u8>>)
    ensures
        match r {
            Some(b) => hex_bytes(text@) == Some(b@),
            None => hex_bytes(text@) is None,
        },
{
    hex::decode(text).ok()
}

/// Relies on ed25519_dalek 1.0: `PublicKey::from_bytes` and
/// `Signature::from_bytes` read the key and the signature (an error counts as
/// rejection), and `Verifier::verify` checks the signature over `message`.
#[verifier::external_body]
fn verify_ed25519(key: &[u8], message: &[u8], signature: &[u8]) -> (r: bool)
    ensures
        r == ed25519_accepts(key@, message@, signature@),
{
    let key = match ed25519_dalek::PublicKey::from_bytes(key) {
        Ok(k) => k,
        Err(_) => return false,
    };
    match ed25519_dalek::Signature::from_bytes(signature) {
        Ok(s) => key.verify(message, &s).is_ok(),
        Err(_) => false,
    }
}

/// The signed message: the timestamp's bytes, then the body's.
pub fn signed_message(timestamp: &[u8], body: &[u8]) -> (r: Vec<u8>)
    ensures
        r@ == timestamp@ + body@,
{
    let mut out: Vec<u8> = Vec::new();
    let mut i: usize = 0;
    while i < timestamp.len()
        invariant
            i <= timestamp@.len(),
            out@ == timestamp@.take(i as int),
        decreases timestamp@.len() - i,
    {
        out.push(timestamp[i]);
        i = i + 1;
        assert(out@ =~= timestamp@.take(i as int));
    }
    let mut j: usize = 0;
    while j < body.len()
        invariant
            j <= body@.len(),
            out@ == timestamp@ + body@.take(j as int),
        decreases body@.len() - j,
    {
        out.push(body[j]);
        j = j + 1;
        assert(out@ =~= timestamp@ + body@.take(j as int));
    }
    assert(body@.take(body@.len() as int) =~= body@);
    assert(timestamp@.take(timestamp@.len() as int) =~= timestamp@);
    out
}

/// Every header is there and decodes to bytes of the right length.
pub open spec fn well_formed(key_hex: Seq<u8>, signature_hex: Option<Seq<u8>>, timestamp: Option<Seq<u8>>) -> bool {
    &&& hex_bytes(key_hex) matches Some(k) && k.len() == PUBLIC_KEY_LEN
    &&& signature_hex matches Some(sh) && hex_bytes(sh) matches Some(sig) && sig.len() == SIGNATURE_LEN
    &&& timestamp is Some
}

/// Checks a request: `key_hex` is the configured public key in hex,
/// `signature_hex` and `timestamp` the two signature headers (`None` where
/// missing), `body` the raw body as received.
pub fn authenticate(key_hex: &[u8], signature_hex: Option<&[u8]>, timestamp: Option<&[u8]>, body: &[u8]) -> (r: Result<(), AuthError>)
    ensures
        ({
            let sh = match signature_hex {
                Some(s) => Some(s@),
                None => None,
            };
            let ts = match timestamp {
                Some(t) => Some(t@),
                None => None,
            };
            match r {
                Err(AuthError::Malformed) => !well_formed(key_hex@, sh, ts),
                Err(AuthError::InvalidSignature) => well_formed(key_hex@, sh, ts) && !ed25519_accepts(
                    hex_bytes(key_hex@)->Some_0,
                    ts->Some_0 + body@,
                    hex_bytes(sh->Some_0)->Some_0,
                ),
                Ok(()) => well_formed(key_hex@, sh, ts) && ed25519_accepts(
                    hex_bytes(key_hex@)->Some_0,
                    ts->Some_0 + body@,
                    hex_bytes(sh->Some_0)->Some_0,
                ),
            }
        }),
{
    let key = match decode_hex(key_hex) {
        Some(k) => k,
        None => return Err(AuthError::Malformed),
    };
    if key.len() != PUBLIC_KEY_LEN {
        return Err(AuthError::Malformed);
    }
    let sig_text = match signature_hex {
        Some(s) => s,
        None => return Err(AuthError::Malformed),
    };
    let signature = match decode_hex(sig_text) {
        Some(s) => s,
        None => return Err(AuthError::Malformed),
    };
    if signature.len() != SIGNATURE_LEN {
        return Err(AuthError::Malformed);
    }
    let ts = match timestamp {
        Some(t) => t,
        None => return Err(AuthError::Malformed),
    };
    let message = signed_message(ts, body);
    if verify_ed25519(key.as_slice(), message.as_slice(), signature.as_slice()) {
        Ok(())
    } else {
        Err(AuthError::InvalidSignature)
    }
}

} // verus!
