use vstd::prelude::*;
use vstd::string::{StrSliceExecFns, StringExecFns};
use vstd::utf8::encode_utf8;
use sha1::Digest;

verus! {

/// The fixed GUID of the WebSocket handshake, appended to the nonce
/// before hashing.
pub open spec fn handshake_guid() -> Seq<char> {
    "258EAFA5-E914-47DA-95CA-C5AB0DC85B11"@
}

/// The SHA-1 digest of a byte sequence. A function of the bytes alone;
/// its value is not written out here, only relied on through the
/// hashing wrapper.
pub uninterp spec fn sha1_of(b: Seq<u8>) -> Seq<u8>;

/// The standard, padded Base64 rendering of a byte sequence. A
/// function of the bytes alone.
pub uninterp spec fn base64_of(b: Seq<u8>) -> Seq<char>;

/// The accept token a handshake derives from a nonce: Base64 of the
/// SHA-1 digest of the nonce's text followed by the fixed GUID.
pub open spec fn accept_token(key: Seq<char>) -> Seq<char> {
    base64_of(sha1_of(encode_utf8(key + handshake_guid())))
}

/// Relies on `sha1::Sha1` through the `Digest` trait: the digest
/// depends on the input bytes alone and is 20 bytes long.
#[verifier::external_body]
fn sha1_digest(input: &[u8]) -> (r: Vec<u8>)
    ensures
        r@ == sha1_of(input@),
        r@.len() == 20,
{
    let mut hasher = sha1::Sha1::new();
    hasher.update(input);
    hasher.finalize().to_vec()
}

/// Relies on `base64::engine::general_purpose::STANDARD`, the padded
/// standard alphabet: the encoding depends on the input bytes alone.
#[verifier::external_body]
fn base64_encode(input: &[u8]) -> (r: String)
    ensures
        r@ == base64_of(input@),
{
    base64::Engine::encode(&base64::engine::general_purpose::STANDARD, input)
}

/// Relies on `rand::fill`: it fills the buffer from the thread's
/// generator. Nothing is assumed of the drawn values beyond their
/// count.
#[verifier::external_body]
pub(crate) fn random_bytes(n: usize) -> (r: Vec<u8>)
    ensures
        r@.len() == n,
{
    let mut buf = vec![0u8; n];
    rand::fill(&mut buf[..]);
    buf
}

/// Derive the accept token for a nonce: append the fixed GUID, hash
/// with SHA-1, render the digest in Base64. Deterministic: the result
/// is a function of `key` alone.
pub fn process_key(key: &str) -> (r: String)
    ensures
        r@ == accept_token(key@),
{
    let mut joined = key.to_owned();
    joined.append("258EAFA5-E914-47DA-95CA-C5AB0DC85B11");
    let bytes = joined.as_str().as_bytes_vec();
    let digest = sha1_digest(bytes.as_slice());
    base64_encode(digest.as_slice())
}

/// Draw a fresh 16-byte nonce and render it in Base64, as a client
/// sends it in `Sec-WebSocket-Key`.
pub fn generate_key() -> (r: String)
    ensures
        exists|nonce: Seq<u8>| nonce.len() == 16 && r@ == base64_of(nonce),
{
    let nonce = random_bytes(16);
    let r = base64_encode(nonce.as_slice());
    proof {
        assert(nonce@.len() == 16 && r@ == base64_of(nonce@));
    }
    r
}

} // verus!
