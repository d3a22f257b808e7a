//! Contracts assumed about functions this crate calls but does not verify:
//! std functions that vstd leaves unspecified, and the outside crates that
//! decode payloads and mint identifiers.

use vstd::prelude::*;

verus! {

/// Relies on String::push: appends exactly the given character.
pub assume_specification[ String::push ](s: &mut String, ch: char)
    ensures
        final(s)@ == old(s)@.push(ch),
;

/// What decoding a text as standard base64 yields: the decoded bytes, or
/// nothing when the text is not valid base64.
pub uninterp spec fn base64_decode_of(s: Seq<char>) -> Option<Seq<u8>>;

/// Relies on base64's `Engine::decode` with the `STANDARD` engine: decoding
/// is a pure function of the input text, and malformed input is reported as
/// an error rather than a panic.
#[verifier::external_body]
pub(crate) fn decode_base64(s: &str) -> (r: Result<Vec<u8>, String>)
    ensures
        match r {
            Ok(v) => base64_decode_of(s@) == Some(v@),
            Err(_) => base64_decode_of(s@) is None,
        },
{
    match base64::Engine::decode(&base64::engine::general_purpose::STANDARD, s) {
        Ok(v) => Ok(v),
        Err(e) => Err(e.to_string()),
    }
}

/// Relies on uuid's `Uuid::new_v4` and its display form: a freshly drawn
/// random identifier rendered in the 36-character hyphenated format. The
/// value is random; nothing relates one call to another.
#[verifier::external_body]
pub(crate) fn fresh_id() -> (r: String)
    ensures
        r@.len() == 36,
{
    uuid::Uuid::new_v4().to_string()
}

} // verus!
