//! The boundary between bytes and text: decoding a line of UTF-8.

use vstd::prelude::*;
use vstd::utf8::*;

verus! {

/// `core::str::Utf8Error`, the error of a failed decoding. Only its presence
/// is used.
#[verifier::external_type_specification]
#[verifier::external_body]
pub struct ExUtf8Error(core::str::Utf8Error);

/// `core::str::from_utf8` checks that the bytes are valid UTF-8 and, if they
/// are, hands the same bytes back as a string slice; otherwise it returns an
/// error. Validity is taken to be `vstd::utf8::valid_utf8`.
pub assume_specification[ core::str::from_utf8 ](bytes: &[u8]) -> (decoded: Result<
    &str,
    core::str::Utf8Error,
>)
    ensures
        decoded is Ok <==> valid_utf8(bytes@),
        decoded matches Ok(text) ==> encode_utf8(text@) == bytes@,
;

/// Encoding distributes over concatenation.
pub proof fn lemma_encode_concat(a: Seq<char>, b: Seq<char>)
    ensures
        encode_utf8(a + b) == encode_utf8(a) + encode_utf8(b),
    decreases a.len(),
{
    if a.len() == 0 {
        assert(a + b =~= b);
    } else {
        assert((a + b).drop_first() =~= a.drop_first() + b);
        lemma_encode_concat(a.drop_first(), b);
    }
}

} // verus!
