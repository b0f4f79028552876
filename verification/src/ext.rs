//! Trusted bindings to the outside functions the upload logic calls. Each
//! wrapper's contract states what the outside source shows of the call; the
//! named results (`b64_decode_of`, `utf8_ok`, `sanitized_of`) stand for
//! outcomes that are functions of the input alone but too intricate to spell
//! out, and the verified callers speak of those names exactly.

use vstd::prelude::*;

use crate::paths::{dot_seg, dotdot_seg};

verus! {

/// What standard base64 decoding yields on given bytes: `Some` of the
/// decoded bytes exactly when the input is valid padded standard base64.
pub uninterp spec fn b64_decode_of(s: Seq<u8>) -> Option<Seq<u8>>;

/// Relies on base64's `Engine::decode` with the standard padded alphabet:
/// the result is a function of the input bytes alone — `Ok` of the decoded
/// bytes on valid input, an error otherwise.
#[verifier::external_body]
pub(crate) fn b64_decode(input: &[u8]) -> (r: Option<Vec<u8>>)
    ensures
        match r {
            Some(v) => b64_decode_of(input@) == Some(v@),
            None => b64_decode_of(input@) == Option::<Seq<u8>>::None,
        },
{
    match base64::Engine::decode(&base64::engine::general_purpose::STANDARD, input) {
        Ok(v) => Some(v),
        Err(_) => None,
    }
}

/// Whether the bytes are valid UTF-8.
pub uninterp spec fn utf8_ok(s: Seq<u8>) -> bool;

/// Relies on `core::str::from_utf8`: it accepts exactly the valid UTF-8
/// byte strings, a property of the bytes alone.
#[verifier::external_body]
pub(crate) fn check_utf8(b: &[u8]) -> (r: bool)
    ensures
        r == utf8_ok(b@),
{
    core::str::from_utf8(b).is_ok()
}

/// What filename sanitization yields on a given valid-UTF-8 name.
pub uninterp spec fn sanitized_of(s: Seq<u8>) -> Seq<u8>;

/// Relies on sanitize_filename's `sanitize` with its default options: the
/// result depends on the name alone; every `/`, `\`, `"`, control and other
/// illegal character is removed, a dots-only name becomes empty — so the
/// result is never `.` or `..` — and the result is truncated to at most 255
/// bytes. `core::str::from_utf8` only converts the argument, and cannot
/// fail on a valid-UTF-8 name.
#[verifier::external_body]
pub(crate) fn sanitize_name(name: &[u8]) -> (r: Vec<u8>)
    requires
        utf8_ok(name@),
    ensures
        r@ == sanitized_of(name@),
        r@.len() <= 255,
        forall|i: int| 0 <= i < r@.len() ==> r@[i] != 47u8 && r@[i] != 92u8,
        r@ != dot_seg(),
        r@ != dotdot_seg(),
{
    let s = core::str::from_utf8(name).unwrap();
    sanitize_filename::sanitize(s).into_bytes()
}

} // verus!
