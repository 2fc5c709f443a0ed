//! Writing text into growable strings: the string counterpart of the byte
//! sinks, validating incoming bytes and accepting exactly their valid UTF-8
//! prefix.

use vstd::prelude::*;
use vstd::slice::slice_to_vec;
use vstd::utf8::decode_utf8;
use vstd::utf8::encode_scalar;
use vstd::utf8::encode_utf8;
use vstd::utf8::encode_utf8_decode_utf8;
use vstd::utf8::encode_utf8_valid_utf8;
use vstd::string::StringExecFns;

use crate::error::Error;
use crate::error::Utf8Error;
use crate::error::Utf8ErrorKind;
use crate::slice::subrange_vec;
use crate::utf8::encode_char_vec;
use crate::utf8::lemma_scan_prefix_valid_utf8;
use crate::utf8::lemma_scan_split;
use crate::utf8::lemma_scan_valid_iff;
use crate::utf8::scan_utf8;
use crate::utf8::scan_valid_up_to;
use crate::utf8::string_from_utf8;
use crate::utf8::validate_utf8;
use crate::utf8::Utf8Validation;

verus! {

/// Writes the bytes of `buf` to the string as UTF-8 text: the decoded valid
/// prefix is appended; invalid or incomplete trailing bytes are rejected
/// with an error localizing the valid length.
pub fn string_write_bytes(dest: &mut String, buf: &[u8]) -> (r: Result<(), Error>)
    ensures
        final(dest)@ == old(dest)@ + decode_utf8(buf@.take(scan_valid_up_to(buf@))),
        match r {
            Ok(()) => scan_utf8(buf@) is Valid,
            Err(e) => {
                &&& !(scan_utf8(buf@) is Valid)
                &&& e matches Error::Utf8(u)
                &&& e matches Error::Utf8(u) ==> u.valid_up_to == scan_valid_up_to(buf@)
                    && u.kind == match scan_utf8(buf@) {
                    crate::utf8::Utf8Scan::Valid => u.kind,
                    crate::utf8::Utf8Scan::Incomplete { .. } => Utf8ErrorKind::IncompleteChar,
                    crate::utf8::Utf8Scan::Invalid { error_len, .. } => Utf8ErrorKind::InvalidBytes(
                        error_len as u8,
                    ),
                }
            },
        },
{
    let val = validate_utf8(buf);
    proof {
        lemma_scan_split(buf@);
        lemma_scan_prefix_valid_utf8(buf@);
    }
    match val {
        Utf8Validation::Valid => {
            proof {
                lemma_scan_valid_iff(buf@);
                assert(buf@.take(buf@.len() as int) =~= buf@);
            }
            let s = string_from_utf8(slice_to_vec(buf));
            dest.append(s.as_str());
            Ok(())
        },
        Utf8Validation::Partial { valid_up_to } => {
            let s = string_from_utf8(subrange_vec(buf, 0, valid_up_to));
            dest.append(s.as_str());
            Err(Error::Utf8(Utf8Error { valid_up_to, kind: Utf8ErrorKind::IncompleteChar }))
        },
        Utf8Validation::Rejected { valid_up_to, error_len } => {
            let s = string_from_utf8(subrange_vec(buf, 0, valid_up_to));
            dest.append(s.as_str());
            Err(
                Error::Utf8(
                    Utf8Error { valid_up_to, kind: Utf8ErrorKind::InvalidBytes(error_len) },
                ),
            )
        },
    }
}

/// Appends a UTF-8 string to the string; never fails.
pub fn string_write_utf8(dest: &mut String, value: &str)
    ensures
        final(dest)@ == old(dest)@ + value@,
{
    dest.append(value);
}

/// Appends a single codepoint to the string; never fails.
pub fn string_write_utf8_codepoint(dest: &mut String, value: char)
    ensures
        final(dest)@ == old(dest)@.push(value),
{
    let b = encode_char_vec(value);
    proof {
        encode_utf8_valid_utf8(seq![value]);
        encode_utf8_decode_utf8(seq![value]);
        reveal_with_fuel(encode_utf8, 2);
        assert(seq![value].drop_first() =~= Seq::<char>::empty());
        assert(encode_utf8(seq![value]) =~= encode_scalar(value as u32) + Seq::<u8>::empty());
        assert(encode_scalar(value as u32) + Seq::<u8>::empty() =~= b@);
        assert(encode_utf8(seq![value]) =~= b@);
    }
    let s = string_from_utf8(b);
    dest.append(s.as_str());
    proof {
        assert(old(dest)@ + seq![value] =~= old(dest)@.push(value));
    }
}

} // verus!
