use vstd::prelude::*;
use vstd::utf8::{decode_utf8, encode_utf8, valid_utf8};

verus! {

/// Relies on `bytestring::ByteString::try_from(Vec<u8>)`, which accepts exactly the byte
/// sequences that are valid UTF-8 and keeps them unchanged, and on `String::from(ByteString)`,
/// which hands those bytes back as text.
#[verifier::external_body]
fn checked_utf8(bytes: Vec<u8>) -> (r: Option<String>)
    ensures
        r.is_some() == valid_utf8(bytes@),
        r.is_some() ==> r.unwrap()@ == decode_utf8(bytes@),
{
    match bytestring::ByteString::try_from(bytes) {
        Ok(s) => Some(String::from(s)),
        Err(_) => None,
    }
}

/// The text that `bytes` encode in UTF-8, or `None` where they are not valid UTF-8.
pub fn text_from_utf8(bytes: Vec<u8>) -> (r: Option<String>)
    ensures
        r.is_some() == valid_utf8(bytes@),
        r.is_some() ==> r.unwrap()@ == decode_utf8(bytes@),
{
    checked_utf8(bytes)
}

/// The UTF-8 bytes of `s`.
pub fn text_to_utf8(s: &String) -> (r: Vec<u8>)
    ensures
        r@ == encode_utf8(s@),
        valid_utf8(r@),
        decode_utf8(r@) == s@,
{
    proof {
        vstd::utf8::encode_utf8_valid_utf8(s@);
        vstd::utf8::encode_utf8_decode_utf8(s@);
    }
    vstd::slice::slice_to_vec(s.as_str().as_bytes())
}

} // verus!
