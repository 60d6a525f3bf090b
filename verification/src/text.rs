use vstd::prelude::*;
use vstd::utf8::{decode_utf8, valid_utf8};

verus! {

/// Relies on `String::from_utf8`: it returns `Ok` exactly when the
/// bytes are valid UTF-8, and the string then reads back as those
/// bytes decoded.
#[verifier::external_body]
pub(crate) fn string_from_utf8(v: Vec<u8>) -> (r: Option<String>)
    ensures
        r is Some <==> valid_utf8(v@),
        r matches Some(s) ==> s@ == decode_utf8(v@),
{
    String::from_utf8(v).ok()
}

/// What `String::from_utf8_lossy` makes of a byte sequence: the bytes
/// decoded, with each ill-formed run replaced. A function of the bytes
/// alone.
pub uninterp spec fn utf8_lossy_of(b: Seq<u8>) -> Seq<char>;

/// Relies on `String::from_utf8_lossy`: the result depends on the
/// bytes alone.
#[verifier::external_body]
pub(crate) fn bytes_to_string_lossy(b: &[u8]) -> (r: String)
    ensures
        r@ == utf8_lossy_of(b@),
{
    String::from_utf8_lossy(b).to_string()
}

} // verus!
