//! What this library takes from the standard library's handling of text
//! without proof. Each item below states what the documentation of the
//! standard library says of one of its functions.
use vstd::prelude::*;
use vstd::string::StringSliceAdditionalSpecFns;
use vstd::utf8::valid_utf8;

verus! {

/// The Unicode scalar values: the code points but the surrogates.
pub open spec fn is_scalar_value(code: u32) -> bool {
    code <= 0xD7FF || (0xE000 <= code && code <= 0x10FFFF)
}

/// `char::from_u32` of the standard library: the character with the given
/// code if the code is a Unicode scalar value, and `None` if it is not.
pub assume_specification[ char::from_u32 ](code: u32) -> (c: Option<char>)
    ensures
        c == (if is_scalar_value(code) {
            Some(code as char)
        } else {
            None::<char>
        }),
;

/// `String::push` of the standard library: the character is appended to the
/// end of the string.
pub assume_specification[ std::string::String::push ](text: &mut std::string::String, c: char)
    ensures
        final(text)@ == old(text)@.push(c),
;

/// `core::str::from_utf8` of the standard library: the bytes as a string
/// slice if they are valid UTF-8, and `None`, in place of its error, if they
/// are not. The string slice is made of the very bytes that were given.
#[verifier::external_body]
pub(crate) fn utf8_text(bytes: &[u8]) -> (text: Option<&str>)
    ensures
        text is Some <==> valid_utf8(bytes@),
        text matches Some(s) ==> s.spec_bytes() == bytes@,
{
    core::str::from_utf8(bytes).ok()
}

} // verus!
