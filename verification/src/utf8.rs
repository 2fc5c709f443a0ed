//! Incremental UTF-8 and ASCII validation.
//!
//! The specification side classifies a byte sequence the way
//! [`core::str::from_utf8`] reports it: [`scan_utf8`] yields either "all
//! valid", or the length of the longest valid prefix together with a
//! classification of what follows it — ill-formed bytes, or a sequence cut
//! off by the end of the input. The bulk validator itself is pluggable and
//! supplied by an outside crate; [`validate_utf8`] states its behaviour over
//! [`scan_utf8`].

use vstd::prelude::*;
use vstd::utf8::decode_utf8;
use vstd::utf8::encode_scalar;
use vstd::utf8::is_continuation_byte;
use vstd::utf8::is_scalar;
use vstd::utf8::char_is_scalar;
use vstd::utf8::char_u32_cast;
use vstd::utf8::decode_first_scalar;
use vstd::utf8::length_of_first_scalar;
use vstd::utf8::pop_first_scalar;
use vstd::utf8::valid_first_scalar;
use vstd::utf8::valid_utf8;

verus! {

/// The width, 1 to 4, of the character encoding that starts with the given
/// lead byte, or 0 when no well-formed encoding starts with it (continuation
/// bytes, the overlong leads `0xC0` and `0xC1`, and bytes above `0xF4`).
pub open spec fn spec_utf8_char_width(b: u8) -> int {
    if b < 0x80 {
        1
    } else if b < 0xC2 {
        0
    } else if b < 0xE0 {
        2
    } else if b < 0xF0 {
        3
    } else if b < 0xF5 {
        4
    } else {
        0
    }
}

/// Returns the expected width of the character whose encoding starts with the
/// given byte, or 0 if the byte can start no well-formed character.
pub fn utf8_char_width(b: u8) -> (w: usize)
    ensures
        w == spec_utf8_char_width(b),
{
    if b < 0x80 {
        1
    } else if b < 0xC2 {
        0
    } else if b < 0xE0 {
        2
    } else if b < 0xF0 {
        3
    } else if b < 0xF5 {
        4
    } else {
        0
    }
}

/// The range a second byte must fall in, given its lead byte. For most leads
/// this is the plain continuation range; the borderline leads narrow it to
/// rule out overlong encodings, surrogates, and values beyond the Unicode
/// maximum.
pub open spec fn second_byte_ok(lead: u8, b: u8) -> bool {
    if lead == 0xE0 {
        0xA0 <= b <= 0xBF
    } else if lead == 0xED {
        0x80 <= b <= 0x9F
    } else if lead == 0xF0 {
        0x90 <= b <= 0xBF
    } else if lead == 0xF4 {
        0x80 <= b <= 0x8F
    } else {
        0x80 <= b <= 0xBF
    }
}

/// How a byte sequence starts: with a complete well-formed character encoding
/// of the given width; with a proper prefix of one, cut off by the end of the
/// sequence; or with ill-formed bytes, of which `len` (1 to 3) form the
/// longest prefix of any well-formed encoding.
pub enum CharScan {
    /// The sequence starts with a complete character encoding.
    Complete { width: int },
    /// The sequence is a proper prefix of a character encoding.
    Incomplete,
    /// The first `len` bytes are the longest prefix of any well-formed
    /// encoding; reading may continue after skipping them.
    Invalid { len: int },
}

/// Classifies the start of a byte sequence, checking the bytes of the first
/// character encoding one position at a time, exactly as
/// [`core::str::from_utf8`] does.
pub open spec fn scan_first_char(s: Seq<u8>) -> CharScan
    recommends
        s.len() > 0,
{
    let w = spec_utf8_char_width(s[0]);
    if w == 0 {
        CharScan::Invalid { len: 1 }
    } else if w == 1 {
        CharScan::Complete { width: 1 }
    } else if s.len() < 2 {
        CharScan::Incomplete
    } else if !second_byte_ok(s[0], s[1]) {
        CharScan::Invalid { len: 1 }
    } else if w == 2 {
        CharScan::Complete { width: 2 }
    } else if s.len() < 3 {
        CharScan::Incomplete
    } else if !is_continuation_byte(s[2]) {
        CharScan::Invalid { len: 2 }
    } else if w == 3 {
        CharScan::Complete { width: 3 }
    } else if s.len() < 4 {
        CharScan::Incomplete
    } else if !is_continuation_byte(s[3]) {
        CharScan::Invalid { len: 3 }
    } else {
        CharScan::Complete { width: 4 }
    }
}

/// The outcome of validating a whole byte sequence: entirely valid, or the
/// length of the longest valid prefix together with the classification of
/// what follows it.
pub enum Utf8Scan {
    /// The whole sequence is valid UTF-8.
    Valid,
    /// The bytes after the valid prefix are a proper prefix of a character
    /// encoding, cut off by the end of the sequence.
    Incomplete { valid_up_to: int },
    /// The bytes after the valid prefix are ill-formed; `error_len` of them
    /// (1 to 3) should be skipped before validation can continue.
    Invalid { valid_up_to: int, error_len: int },
}

/// Moves a scan outcome's offsets forward by `n` bytes, for re-stating the
/// scan of a suffix in terms of the whole sequence.
pub open spec fn shift_scan(r: Utf8Scan, n: int) -> Utf8Scan {
    match r {
        Utf8Scan::Valid => Utf8Scan::Valid,
        Utf8Scan::Incomplete { valid_up_to } => Utf8Scan::Incomplete {
            valid_up_to: valid_up_to + n,
        },
        Utf8Scan::Invalid { valid_up_to, error_len } => Utf8Scan::Invalid {
            valid_up_to: valid_up_to + n,
            error_len,
        },
    }
}

/// Validates a byte sequence one character at a time, reporting the outcome
/// exactly as [`core::str::from_utf8`] does.
pub open spec fn scan_utf8(s: Seq<u8>) -> Utf8Scan
    decreases s.len(),
    via scan_utf8_dec
{
    if s.len() == 0 {
        Utf8Scan::Valid
    } else {
        match scan_first_char(s) {
            CharScan::Complete { width } => shift_scan(scan_utf8(s.skip(width)), width),
            CharScan::Incomplete => Utf8Scan::Incomplete { valid_up_to: 0 },
            CharScan::Invalid { len } => Utf8Scan::Invalid { valid_up_to: 0, error_len: len },
        }
    }
}

#[via_fn]
proof fn scan_utf8_dec(s: Seq<u8>) {
    if s.len() > 0 {
        match scan_first_char(s) {
            CharScan::Complete { width } => {
                assert(1 <= width <= s.len());
            },
            _ => {},
        }
    }
}

/// The number of bytes, from the start of the sequence, that form complete
/// well-formed character encodings: the whole sequence when it is valid.
pub open spec fn scan_valid_up_to(s: Seq<u8>) -> int {
    match scan_utf8(s) {
        Utf8Scan::Valid => s.len() as int,
        Utf8Scan::Incomplete { valid_up_to } => valid_up_to,
        Utf8Scan::Invalid { valid_up_to, .. } => valid_up_to,
    }
}

/// The outcome of a bulk validation call, mirroring [`Utf8Scan`] with
/// executable types.
pub enum Utf8Validation {
    /// The whole input is valid UTF-8.
    Valid,
    /// The input ends in a proper prefix of a character encoding.
    Partial { valid_up_to: usize },
    /// The input holds ill-formed bytes after its valid prefix.
    Rejected { valid_up_to: usize, error_len: u8 },
}

/// The scan outcome a validation value stands for.
pub open spec fn validation_view(v: Utf8Validation) -> Utf8Scan {
    match v {
        Utf8Validation::Valid => Utf8Scan::Valid,
        Utf8Validation::Partial { valid_up_to } => Utf8Scan::Incomplete {
            valid_up_to: valid_up_to as int,
        },
        Utf8Validation::Rejected { valid_up_to, error_len } => Utf8Scan::Invalid {
            valid_up_to: valid_up_to as int,
            error_len: error_len as int,
        },
    }
}

/// Relies on `simdutf8::compat::from_utf8`, the bulk validator, whose error
/// reporting is documented to be identical to `core::str::from_utf8`:
/// `valid_up_to` is the length of the longest prefix of complete well-formed
/// characters, and `error_len` is `None` when the input ends in a proper
/// prefix of a well-formed character, or `Some` of the 1 to 3 ill-formed
/// bytes to skip otherwise.
#[verifier::external_body]
pub fn validate_utf8(bytes: &[u8]) -> (r: Utf8Validation)
    ensures
        validation_view(r) == scan_utf8(bytes@),
{
    match simdutf8::compat::from_utf8(bytes) {
        Ok(_) => Utf8Validation::Valid,
        Err(e) => match e.error_len() {
            None => Utf8Validation::Partial { valid_up_to: e.valid_up_to() },
            Some(n) => Utf8Validation::Rejected {
                valid_up_to: e.valid_up_to(),
                error_len: n as u8,
            },
        },
    }
}

/// Relies on `String::from_utf8`: for input that is valid UTF-8 it returns
/// the string holding exactly those bytes.
#[verifier::external_body]
pub fn string_from_utf8(bytes: Vec<u8>) -> (r: String)
    requires
        valid_utf8(bytes@),
    ensures
        r@ == decode_utf8(bytes@),
{
    String::from_utf8(bytes).unwrap_or_default()
}

/// Relies on `char::from_u32`: it returns `Some` exactly for the Unicode
/// scalar values, those no greater than `0x10FFFF` and outside the surrogate
/// range.
#[verifier::external_body]
pub fn char_from_u32(v: u32) -> (r: Option<char>)
    ensures
        r matches Some(c) ==> c as u32 == v && is_scalar(v),
        r is None ==> !is_scalar(v),
{
    char::from_u32(v)
}

/// Encodes a single character as 1 to 4 UTF-8 bytes.
pub fn encode_char_vec(c: char) -> (r: Vec<u8>)
    ensures
        r@ == encode_scalar(c as u32),
        1 <= r@.len() <= 4,
{
    let v = c as u32;
    proof {
        char_is_scalar(c);
    }
    let mut r: Vec<u8> = Vec::new();
    if v <= 0x7F {
        r.push((v & 0x7F) as u8);
    } else if v <= 0x7FF {
        r.push(0xC0 | ((v >> 6) & 0x1F) as u8);
        r.push(0x80 | (v & 0x3F) as u8);
    } else if v <= 0xFFFF {
        r.push(0xE0 | ((v >> 12) & 0x0F) as u8);
        r.push(0x80 | ((v >> 6) & 0x3F) as u8);
        r.push(0x80 | (v & 0x3F) as u8);
    } else {
        r.push(0xF0 | ((v >> 18) & 0x7) as u8);
        r.push(0x80 | ((v >> 12) & 0x3F) as u8);
        r.push(0x80 | ((v >> 6) & 0x3F) as u8);
        r.push(0x80 | (v & 0x3F) as u8);
    }
    proof {
        assert(r@ =~= encode_scalar(c as u32));
    }
    r
}

/// The length of the longest all-ASCII prefix of the sequence: the index of
/// the first byte outside the ASCII range, or the whole length when every
/// byte is ASCII.
pub open spec fn ascii_prefix_len(s: Seq<u8>) -> int
    decreases s.len(),
{
    if s.len() == 0 {
        0
    } else if s[0] >= 0x80 {
        0
    } else {
        1 + ascii_prefix_len(s.drop_first())
    }
}

/// The longest all-ASCII prefix is bounded by the sequence, every byte in it
/// is ASCII, and the byte after it — when there is one — is not.
pub proof fn lemma_ascii_prefix_len(s: Seq<u8>)
    ensures
        0 <= ascii_prefix_len(s) <= s.len(),
        forall|i: int| 0 <= i < ascii_prefix_len(s) ==> s[i] < 0x80,
        ascii_prefix_len(s) < s.len() ==> s[ascii_prefix_len(s)] >= 0x80,
    decreases s.len(),
{
    if s.len() == 0 {
    } else if s[0] >= 0x80 {
    } else {
        lemma_ascii_prefix_len(s.drop_first());
        assert forall|i: int| 0 <= i < ascii_prefix_len(s) implies s[i] < 0x80 by {
            if i > 0 {
                assert(s.drop_first()[i - 1] == s[i]);
            }
        }
        if ascii_prefix_len(s) < s.len() {
            assert(s.drop_first()[ascii_prefix_len(s) - 1] == s[ascii_prefix_len(s)]);
        }
    }
}

/// A position below the length where every earlier byte is ASCII and the
/// byte there is not — or the length itself, with every byte ASCII — is the
/// longest all-ASCII prefix.
pub proof fn lemma_ascii_prefix_len_is(s: Seq<u8>, n: int)
    requires
        0 <= n <= s.len(),
        forall|i: int| 0 <= i < n ==> s[i] < 0x80,
        n < s.len() ==> s[n] >= 0x80,
    ensures
        ascii_prefix_len(s) == n,
    decreases s.len(),
{
    if s.len() == 0 {
    } else if n == 0 {
    } else {
        assert(s[0] < 0x80);
        assert forall|i: int| 0 <= i < n - 1 implies s.drop_first()[i] < 0x80 by {
            assert(s.drop_first()[i] == s[i + 1]);
        }
        if n - 1 < s.drop_first().len() {
            assert(s.drop_first()[n - 1] == s[n]);
        }
        lemma_ascii_prefix_len_is(s.drop_first(), n - 1);
    }
}

/// Returns the length of the longest all-ASCII prefix of the slice.
pub fn count_ascii(slice: &[u8]) -> (r: usize)
    ensures
        r == ascii_prefix_len(slice@),
{
    let len = slice.len();
    let mut i: usize = 0;
    while i < len
        invariant
            0 <= i <= len,
            len == slice@.len(),
            forall|j: int| 0 <= j < i ==> slice@[j] < 0x80,
        decreases len - i,
    {
        if slice[i] >= 0x80 {
            proof {
                lemma_ascii_prefix_len_is(slice@, i as int);
            }
            return i;
        }
        i = i + 1;
    }
    proof {
        lemma_ascii_prefix_len_is(slice@, len as int);
    }
    len
}

/// A complete first character has its full width present and the width of its
/// lead byte; invalid prefixes are 1 to 3 bytes that all lie in the sequence;
/// an incomplete start is shorter than the width its lead byte announces.
pub proof fn lemma_scan_first_facts(s: Seq<u8>)
    requires
        s.len() > 0,
    ensures
        scan_first_char(s) matches CharScan::Complete { width } ==> 1 <= width <= s.len()
            && width == spec_utf8_char_width(s[0]),
        scan_first_char(s) matches CharScan::Invalid { len } ==> 1 <= len <= 3 && len <= s.len(),
        scan_first_char(s) is Incomplete ==> spec_utf8_char_width(s[0]) >= 2 && s.len()
            < spec_utf8_char_width(s[0]),
{
}

/// Appending bytes cannot change a first-character classification that is
/// already decided, complete or invalid; only an incomplete start can change.
pub proof fn lemma_scan_first_append(a: Seq<u8>, b: Seq<u8>)
    requires
        a.len() > 0,
    ensures
        scan_first_char(a) is Complete ==> scan_first_char(a + b) == scan_first_char(a),
        scan_first_char(a) is Invalid ==> scan_first_char(a + b) == scan_first_char(a),
{
    assert((a + b)[0] == a[0]);
    if a.len() >= 2 {
        assert((a + b)[1] == a[1]);
    }
    if a.len() >= 3 {
        assert((a + b)[2] == a[2]);
    }
    if a.len() >= 4 {
        assert((a + b)[3] == a[3]);
    }
}

/// Truncating a sequence after its complete first character leaves that
/// character's classification unchanged.
pub proof fn lemma_scan_first_prefix(s: Seq<u8>, k: int)
    requires
        scan_first_char(s) is Complete,
        scan_first_char(s) matches CharScan::Complete { width } ==> width <= k,
        0 < k <= s.len(),
    ensures
        scan_first_char(s.take(k)) == scan_first_char(s),
{
    lemma_scan_first_facts(s);
    assert(s.take(k)[0] == s[0]);
    if k >= 2 {
        assert(s.take(k)[1] == s[1]);
    }
    if k >= 3 {
        assert(s.take(k)[2] == s[2]);
    }
    if k >= 4 {
        assert(s.take(k)[3] == s[3]);
    }
}

/// Scanning past a fully valid prefix: the outcome for the whole sequence is
/// the outcome for the rest, shifted by the prefix's length.
pub proof fn lemma_scan_concat_valid(a: Seq<u8>, b: Seq<u8>)
    requires
        scan_utf8(a) is Valid,
    ensures
        scan_utf8(a + b) == shift_scan(scan_utf8(b), a.len() as int),
    decreases a.len(),
{
    if a.len() == 0 {
        assert(a + b =~= b);
    } else {
        match scan_first_char(a) {
            CharScan::Complete { width } => {
                lemma_scan_first_facts(a);
                lemma_scan_first_append(a, b);
                assert((a + b).skip(width) =~= a.skip(width) + b);
                lemma_scan_concat_valid(a.skip(width), b);
            },
            CharScan::Incomplete => {
                assert(false);
            },
            CharScan::Invalid { .. } => {
                assert(false);
            },
        }
    }
}

/// Bytes appended after an ill-formed sequence change nothing: the scan still
/// reports the same valid prefix and the same ill-formed bytes.
pub proof fn lemma_scan_concat_invalid(a: Seq<u8>, b: Seq<u8>)
    requires
        scan_utf8(a) is Invalid,
    ensures
        scan_utf8(a + b) == scan_utf8(a),
    decreases a.len(),
{
    if a.len() == 0 {
    } else {
        match scan_first_char(a) {
            CharScan::Complete { width } => {
                lemma_scan_first_facts(a);
                lemma_scan_first_append(a, b);
                assert((a + b).skip(width) =~= a.skip(width) + b);
                lemma_scan_concat_invalid(a.skip(width), b);
            },
            CharScan::Incomplete => {
                assert(false);
            },
            CharScan::Invalid { .. } => {
                lemma_scan_first_append(a, b);
            },
        }
    }
}

/// Every scan outcome splits the sequence at its valid prefix: the prefix
/// scans as valid, the outcome of the rest starts at offset zero, and
/// shifting it by the prefix length gives the outcome of the whole.
pub proof fn lemma_scan_split(s: Seq<u8>)
    ensures
        0 <= scan_valid_up_to(s) <= s.len(),
        scan_utf8(s.take(scan_valid_up_to(s))) is Valid,
        scan_utf8(s) == shift_scan(scan_utf8(s.skip(scan_valid_up_to(s))), scan_valid_up_to(s)),
        s.len() > scan_valid_up_to(s) ==> scan_valid_up_to(s.skip(scan_valid_up_to(s))) == 0,
    decreases s.len(),
{
    let v = scan_valid_up_to(s);
    if s.len() == 0 {
        assert(s.take(0) =~= s);
        assert(s.skip(0) =~= s);
    } else {
        match scan_first_char(s) {
            CharScan::Complete { width } => {
                lemma_scan_first_facts(s);
                lemma_scan_split(s.skip(width));
                let v2 = scan_valid_up_to(s.skip(width));
                assert(v == width + v2);
                lemma_scan_first_prefix(s, v);
                assert(s.take(v).skip(width) =~= s.skip(width).take(v2));
                assert(scan_utf8(s.take(v)) == shift_scan(scan_utf8(s.take(v).skip(width)), width));
                assert(s.skip(width).skip(v2) =~= s.skip(v));
            },
            CharScan::Incomplete => {
                assert(v == 0);
                assert(s.take(0) =~= Seq::<u8>::empty());
                assert(s.skip(0) =~= s);
            },
            CharScan::Invalid { .. } => {
                assert(v == 0);
                assert(s.take(0) =~= Seq::<u8>::empty());
                assert(s.skip(0) =~= s);
            },
        }
    }
}


/// Bit-level bounds for the codepoint held by a two-byte encoding.
proof fn lemma_bv_cp2(b0: u8, b1: u8)
    by (bit_vector)
    requires
        0xC0 <= b0 <= 0xDF,
        0x80 <= b1 <= 0xBF,
    ensures
        ({
            let cp = ((((b0 & 0x1F) as u32)) << 6) | ((b1 & 0x3F) as u32);
            &&& cp <= 0x7FF
            &&& (b0 >= 0xC2 ==> cp >= 0x80)
            &&& (b0 <= 0xC1 ==> cp < 0x80)
        }),
{
}

/// Bit-level bounds for the codepoint held by a three-byte encoding: the
/// narrowed second-byte ranges say exactly that the value is neither overlong
/// nor a surrogate.
proof fn lemma_bv_cp3(b0: u8, b1: u8, b2: u8)
    by (bit_vector)
    requires
        0xE0 <= b0 <= 0xEF,
        0x80 <= b1 <= 0xBF,
        0x80 <= b2 <= 0xBF,
    ensures
        ({
            let cp = ((((b0 & 0x0F) as u32)) << 12) | ((((b1 & 0x3F) as u32)) << 6) | ((b2
                & 0x3F) as u32);
            &&& cp <= 0xFFFF
            &&& ((if b0 == 0xE0 {
                0xA0 <= b1
            } else if b0 == 0xED {
                b1 <= 0x9F
            } else {
                true
            }) <==> (0x800 <= cp && !(0xD800 <= cp <= 0xDFFF)))
        }),
{
}

/// Bit-level bounds for the codepoint held by a four-byte encoding: the
/// narrowed second-byte ranges say exactly that the value is neither overlong
/// nor beyond the Unicode maximum.
proof fn lemma_bv_cp4(b0: u8, b1: u8, b2: u8, b3: u8)
    by (bit_vector)
    requires
        0xF0 <= b0 <= 0xF7,
        0x80 <= b1 <= 0xBF,
        0x80 <= b2 <= 0xBF,
        0x80 <= b3 <= 0xBF,
    ensures
        ({
            let cp = ((((b0 & 0x07) as u32)) << 18) | ((((b1 & 0x3F) as u32)) << 12) | ((((b2
                & 0x3F) as u32)) << 6) | ((b3 & 0x3F) as u32);
            &&& ((b0 <= 0xF4 && (b0 != 0xF0 || b1 >= 0x90) && (b0 != 0xF4 || b1 <= 0x8F)) <==> (
            0x10000 <= cp <= 0x10FFFF))
        }),
{
}

/// A one-byte lead encodes itself.
proof fn lemma_bv_cp1(b0: u8)
    by (bit_vector)
    requires
        b0 <= 0x7F,
    ensures
        ((b0 & 0x7F) as u32) == b0 as u32,
{
}

/// The byte-at-a-time classification agrees with the scalar-level account of
/// a well-formed first character: a sequence starts with a complete character
/// exactly when it starts with a valid scalar encoding, of the same length.
pub proof fn lemma_scan_first_scalar(s: Seq<u8>)
    requires
        s.len() > 0,
    ensures
        scan_first_char(s) is Complete <==> valid_first_scalar(s),
        scan_first_char(s) matches CharScan::Complete { width } ==> width
            == length_of_first_scalar(s),
{
    let b0 = s[0];
    if b0 < 0x80 {
        lemma_bv_cp1(b0);
    } else if b0 < 0xC2 {
        if 0xC0 <= b0 && s.len() >= 2 && is_continuation_byte(s[1]) {
            lemma_bv_cp2(b0, s[1]);
        }
    } else if b0 < 0xE0 {
        if s.len() >= 2 && is_continuation_byte(s[1]) {
            lemma_bv_cp2(b0, s[1]);
        }
    } else if b0 < 0xF0 {
        if s.len() >= 3 && is_continuation_byte(s[1]) && is_continuation_byte(s[2]) {
            lemma_bv_cp3(b0, s[1], s[2]);
        }
    } else if b0 < 0xF5 {
        if s.len() >= 4 && is_continuation_byte(s[1]) && is_continuation_byte(s[2])
            && is_continuation_byte(s[3]) {
            lemma_bv_cp4(b0, s[1], s[2], s[3]);
        }
    } else if b0 < 0xF8 {
        if s.len() >= 4 && is_continuation_byte(s[1]) && is_continuation_byte(s[2])
            && is_continuation_byte(s[3]) {
            lemma_bv_cp4(b0, s[1], s[2], s[3]);
        }
    } else {
    }
}

/// The byte-at-a-time scan accepts a sequence exactly when it is valid UTF-8.
pub proof fn lemma_scan_valid_iff(s: Seq<u8>)
    ensures
        scan_utf8(s) is Valid <==> valid_utf8(s),
    decreases s.len(),
{
    if s.len() == 0 {
    } else {
        lemma_scan_first_scalar(s);
        if valid_first_scalar(s) {
            let w = length_of_first_scalar(s);
            lemma_scan_first_facts(s);
            assert(pop_first_scalar(s) =~= s.skip(w));
            lemma_scan_valid_iff(s.skip(w));
        }
    }
}

/// The valid prefix a scan reports is valid UTF-8.
pub proof fn lemma_scan_prefix_valid_utf8(s: Seq<u8>)
    ensures
        0 <= scan_valid_up_to(s) <= s.len(),
        valid_utf8(s.take(scan_valid_up_to(s))),
        scan_utf8(s) is Valid ==> scan_valid_up_to(s) == s.len(),
    decreases s.len(),
{
    lemma_scan_split(s);
    lemma_scan_valid_iff(s.take(scan_valid_up_to(s)));
}


/// A scan that stops incomplete at the very start of the sequence has an
/// incomplete first character.
pub proof fn lemma_scan_incomplete_head(s: Seq<u8>)
    requires
        scan_utf8(s) == (Utf8Scan::Incomplete { valid_up_to: 0int }),
    ensures
        s.len() > 0,
        scan_first_char(s) is Incomplete,
{
    if s.len() == 0 {
        assert(false);
    } else {
        match scan_first_char(s) {
            CharScan::Complete { width } => {
                lemma_scan_first_facts(s);
                lemma_scan_split(s.skip(width));
                assert(false);
            },
            CharScan::Incomplete => {
            },
            CharScan::Invalid { .. } => {
                assert(false);
            },
        }
    }
}


/// Decodes the single character whose complete, well-formed encoding is
/// exactly the given bytes.
pub fn decode_char(bytes: &Vec<u8>) -> (c: char)
    requires
        bytes@.len() > 0,
        scan_first_char(bytes@) matches CharScan::Complete { width } && width == bytes@.len(),
    ensures
        c as u32 == decode_first_scalar(bytes@),
        seq![c] == decode_utf8(bytes@),
{
    proof {
        lemma_scan_first_facts(bytes@);
        lemma_scan_first_scalar(bytes@);
        lemma_scan_valid_iff(bytes@);
        assert(bytes@.skip(bytes@.len() as int) =~= Seq::<u8>::empty());
    }
    let b0 = bytes[0];
    let w = utf8_char_width(b0);
    let cp: u32;
    if w == 1 {
        cp = (b0 & 0x7F) as u32;
        proof {
            lemma_bv_cp1(b0);
        }
    } else if w == 2 {
        let b1 = bytes[1];
        cp = (((b0 & 0x1F) as u32) << 6) | ((b1 & 0x3F) as u32);
        proof {
            lemma_bv_cp2(b0, b1);
        }
    } else if w == 3 {
        let b1 = bytes[1];
        let b2 = bytes[2];
        cp = (((b0 & 0x0F) as u32) << 12) | (((b1 & 0x3F) as u32) << 6) | ((b2 & 0x3F) as u32);
        proof {
            lemma_bv_cp3(b0, b1, b2);
        }
    } else {
        let b1 = bytes[1];
        let b2 = bytes[2];
        let b3 = bytes[3];
        cp = (((b0 & 0x07) as u32) << 18) | (((b1 & 0x3F) as u32) << 12) | (((b2
            & 0x3F) as u32) << 6) | ((b3 & 0x3F) as u32);
        proof {
            lemma_bv_cp4(b0, b1, b2, b3);
        }
    }
    proof {
        assert(is_scalar(cp));
        assert(cp == decode_first_scalar(bytes@));
    }
    match char_from_u32(cp) {
        Some(c) => {
            proof {
                char_u32_cast(c, cp);
                reveal_with_fuel(scan_utf8, 2);
                assert(scan_utf8(bytes@) is Valid);
                assert(valid_utf8(bytes@));
                assert(pop_first_scalar(bytes@) =~= Seq::<u8>::empty());
                assert(valid_utf8(Seq::<u8>::empty()));
                reveal_with_fuel(decode_utf8, 2);
                assert(decode_utf8(bytes@) =~= seq![decode_first_scalar(bytes@) as char]);
                assert(seq![c] =~= decode_utf8(bytes@));
            }
            c
        },
        None => vstd::pervasive::unreached(),
    }
}


} // verus!
