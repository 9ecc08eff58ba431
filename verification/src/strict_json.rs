//! Strict v0 JSON decoding support.
//!
//! The strict parse itself (duplicate keys, integer-only numbers, a top-level
//! object) is done by the adapter with the JSON library; this module holds the
//! byte-level checks and the diagnostic type the parse reports.
use vstd::prelude::*;

verus! {

/// Strict logical-message parsing failure.
#[derive(Clone, Debug, PartialEq, Eq)]
pub struct JsonError(pub String);

impl JsonError {
    /// Stable diagnostic text.
    pub fn detail(&self) -> (detail: &str)
        ensures
            detail@ == self.0@,
    {
        self.0.as_str()
    }
}

/// Whether a byte ends a number token: a delimiter, white space, or the start of
/// a fraction or exponent.
pub open spec fn ends_number(byte: u8) -> bool {
    byte == 0x2c || byte == 0x7d || byte == 0x5d || byte == 0x20 || byte == 0x0a || byte == 0x0d
        || byte == 0x09 || byte == 0x2e || byte == 0x65 || byte == 0x45
}

/// Whether a `-0` number starts at `index`: a minus sign, a zero, and then the
/// end of the text or a byte that ends the number.
pub open spec fn negative_zero_at(bytes: Seq<u8>, index: int) -> bool {
    &&& bytes[index] == 0x2d
    &&& bytes[index + 1] == 0x30
    &&& (index + 2 >= bytes.len() || ends_number(bytes[index + 2]))
}

/// Scan from `index` outside or inside a string literal (`in_string`), after an
/// escaping backslash (`escaped`): whether a negative zero occurs outside every
/// string literal.
pub open spec fn scan_negative_zero(bytes: Seq<u8>, index: int, in_string: bool, escaped: bool) -> bool
    decreases bytes.len() - index,
{
    if index < 0 || index + 1 >= bytes.len() {
        false
    } else if in_string {
        let byte = bytes[index];
        if escaped {
            scan_negative_zero(bytes, index + 1, true, false)
        } else if byte == 0x5c {
            scan_negative_zero(bytes, index + 1, true, true)
        } else if byte == 0x22 {
            scan_negative_zero(bytes, index + 1, false, false)
        } else {
            scan_negative_zero(bytes, index + 1, true, false)
        }
    } else if bytes[index] == 0x22 {
        scan_negative_zero(bytes, index + 1, true, false)
    } else if negative_zero_at(bytes, index) {
        true
    } else {
        scan_negative_zero(bytes, index + 1, false, false)
    }
}

/// Whether JSON text holds a negative zero (`-0`, `-0.0`, `-0e1`, ...) outside
/// its string literals; the strict parse rejects such a number.
pub fn contains_negative_zero(bytes: &[u8]) -> (found: bool)
    ensures
        found == scan_negative_zero(bytes@, 0, false, false),
{
    let len = bytes.len();
    let mut index: usize = 0;
    let mut in_string = false;
    let mut escaped = false;
    while len > 0 && index < len - 1
        invariant
            len == bytes@.len(),
            !in_string ==> !escaped,
            0 <= index <= len,
            scan_negative_zero(bytes@, index as int, in_string, escaped) == scan_negative_zero(
                bytes@,
                0,
                false,
                false,
            ),
        decreases len - index,
    {
        let byte = bytes[index];
        if in_string {
            if escaped {
                escaped = false;
            } else if byte == 0x5c {
                escaped = true;
            } else if byte == 0x22 {
                in_string = false;
            }
            index = index + 1;
            continue;
        }
        if byte == 0x22 {
            in_string = true;
        } else if byte == 0x2d && bytes[index + 1] == 0x30 {
            if index + 2 >= len {
                return true;
            }
            let following = bytes[index + 2];
            if following == 0x2c || following == 0x7d || following == 0x5d || following == 0x20
                || following == 0x0a || following == 0x0d || following == 0x09 || following == 0x2e
                || following == 0x65 || following == 0x45 {
                return true;
            }
        }
        index = index + 1;
    }
    false
}

} // verus!
