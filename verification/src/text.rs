//! Conversions between ASCII byte strings and text.
use vstd::prelude::*;

verus! {

/// The characters spelled by ASCII bytes.
pub open spec fn ascii_view(bytes: Seq<u8>) -> Seq<char> {
    bytes.map_values(|byte: u8| byte as char)
}

/// Whether every byte is ASCII.
pub open spec fn all_ascii(bytes: Seq<u8>) -> bool {
    forall|i: int| 0 <= i < bytes.len() ==> #[trigger] bytes[i] < 0x80
}

/// Text from ASCII bytes, through `String::from_utf8_lossy`.
///
/// Trusted: ASCII bytes are valid UTF-8 and each decodes to the character with
/// the same code point, so the lossy conversion replaces nothing.
#[verifier::external_body]
pub(crate) fn ascii_string(bytes: &[u8]) -> (text: String)
    requires
        all_ascii(bytes@),
    ensures
        text@ == ascii_view(bytes@),
{
    String::from_utf8_lossy(bytes).into_owned()
}

} // verus!
