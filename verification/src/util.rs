//! Fixed-size, NUL-padded UTF-8 string fields (256 bytes) as they travel on
//! the wire, and the byte-to-text decodings that the protocol relies on.
use vstd::prelude::*;
use vstd::string::*;
use vstd::utf8::*;

verus! {

broadcast use vstd::utf8::group_utf8_lib;

/// Size in bytes of a string field on the wire.
pub const FIELD_LEN: usize = 256;

/// The length of the longest prefix of `bytes` that ends on a character
/// boundary and holds at most `cap` bytes: the largest such boundary.
pub open spec fn is_fitting_prefix_len(bytes: Seq<u8>, cap: int, k: int) -> bool {
    &&& 0 <= k <= cap
    &&& k <= bytes.len()
    &&& is_char_boundary(bytes, k)
    &&& forall|j: int| k < j <= cap && j <= bytes.len() ==> !is_char_boundary(bytes, j)
}

/// The field holding the first `len` bytes of `bytes`, padded with zeros.
pub open spec fn padded_field(bytes: Seq<u8>, len: int) -> Seq<u8> {
    bytes.subrange(0, len) + Seq::new((FIELD_LEN - len) as nat, |i: int| 0u8)
}

/// Writes the longest whole-character prefix of `s` that fits into `buf`,
/// zero-fills the rest of `buf`, and returns the number of bytes written.
pub fn write_str_utf8(buf: &mut [u8; 256], s: &str) -> (len: usize)
    ensures
        is_fitting_prefix_len(s.spec_bytes(), 256, len as int),
        final(buf)@ == padded_field(s.spec_bytes(), len as int),
{
    let bytes = s.as_bytes();
    proof {
        encode_utf8_valid_utf8(s@);
    }
    let total = bytes.len();
    let cap: usize = if total < FIELD_LEN {
        total
    } else {
        FIELD_LEN
    };
    let mut len: usize = cap;
    while len > 0 && !s.is_char_boundary(len)
        invariant
            len <= cap,
            cap <= 256,
            cap <= total,
            total == s.spec_bytes().len(),
            bytes@ == s.spec_bytes(),
            valid_utf8(s.spec_bytes()),
            forall|j: int| len < j <= cap ==> !is_char_boundary(s.spec_bytes(), j),
        decreases len,
    {
        len = len - 1;
    }
    proof {
        is_char_boundary_start_end_of_seq(s.spec_bytes());
    }
    let mut i: usize = 0;
    while i < len
        invariant
            i <= len,
            len <= total,
            len <= 256,
            bytes@ == s.spec_bytes(),
            total == bytes@.len(),
            buf@.len() == 256,
            forall|j: int| 0 <= j < i ==> buf@[j] == bytes@[j],
        decreases len - i,
    {
        buf[i] = bytes[i];
        i = i + 1;
    }
    let mut k: usize = len;
    while k < FIELD_LEN
        invariant
            len <= k <= 256,
            len <= total,
            bytes@ == s.spec_bytes(),
            total == bytes@.len(),
            buf@.len() == 256,
            forall|j: int| 0 <= j < len ==> buf@[j] == bytes@[j],
            forall|j: int| len <= j < k ==> buf@[j] == 0u8,
        decreases 256 - k,
    {
        buf[k] = 0u8;
        k = k + 1;
    }
    assert(buf@ =~= padded_field(s.spec_bytes(), len as int));
    len
}

/// The index of the first zero byte of `b`, or `b.len()` when there is none.
#[verifier::opaque]
pub open spec fn first_zero_or_len(b: Seq<u8>) -> int {
    if exists|i: int| 0 <= i < b.len() && b[i] == 0u8 {
        choose|i: int|
            0 <= i < b.len() && b[i] == 0u8 && forall|j: int| 0 <= j < i ==> b[j] != 0u8
    } else {
        b.len() as int
    }
}

/// `k` is the index of the first zero byte of `b`, or `b.len()` when there is none.
pub open spec fn is_first_zero_or_len(b: Seq<u8>, k: int) -> bool {
    &&& 0 <= k <= b.len()
    &&& forall|j: int| 0 <= j < k ==> b[j] != 0u8
    &&& k < b.len() ==> b[k] == 0u8
}

/// Wraps `std::str::from_utf8`. Its documentation states that it returns the
/// string slice when the bytes are valid UTF-8 and an error otherwise; the
/// contract says exactly that, with validity as `vstd::utf8::valid_utf8`.
#[verifier::external_body]
fn str_from_utf8<'a>(v: &'a [u8]) -> (res: Option<&'a str>)
    ensures
        res is Some <==> valid_utf8(v@),
        res matches Some(s) ==> s.spec_bytes() == v@,
{
    std::str::from_utf8(v).ok()
}

/// Reads a NUL-terminated (or full-length) UTF-8 field; a field whose text
/// is not valid UTF-8 reads as "Invalid UTF-8".
pub fn read_str_utf8(buf: &[u8; 256]) -> (res: &str)
    ensures
        ({
            let b = buf@;
            let text = b.subrange(0, first_zero_or_len(b));
            &&& valid_utf8(text) ==> res.spec_bytes() == text && res@ == decode_utf8(text)
            &&& !valid_utf8(text) ==> res@ == "Invalid UTF-8"@
        }),
{
    let slice = buf.as_slice();
    let mut len: usize = 0;
    while len < FIELD_LEN && slice[len] != 0u8
        invariant
            len <= 256,
            slice@ == buf@,
            slice@.len() == 256,
            forall|j: int| 0 <= j < len ==> slice@[j] != 0u8,
        decreases 256 - len,
    {
        len = len + 1;
    }
    proof {
        lemma_first_zero_unique(buf@, len as int);
    }
    let text = &slice[0..len];
    match str_from_utf8(text) {
        Some(s) => {
            proof {
                decode_utf8_encode_utf8(text@);
                encode_utf8_decode_utf8(s@);
            }
            s
        },
        None => "Invalid UTF-8",
    }
}

/// The first-zero index is determined by its defining property.
pub proof fn lemma_first_zero_unique(b: Seq<u8>, k: int)
    requires
        is_first_zero_or_len(b, k),
    ensures
        first_zero_or_len(b) == k,
{
    reveal(first_zero_or_len);
    if exists|i: int| 0 <= i < b.len() && b[i] == 0u8 {
        let w = choose|i: int| 0 <= i < b.len() && b[i] == 0u8;
        assert(k < b.len());
        assert(0 <= k < b.len() && b[k] == 0u8 && forall|j: int| 0 <= j < k ==> b[j] != 0u8);
        let c = choose|i: int|
            0 <= i < b.len() && b[i] == 0u8 && forall|j: int| 0 <= j < i ==> b[j] != 0u8;
        assert(c == k) by {
            if c < k {
                assert(b[c] != 0u8);
            } else if c > k {
                assert(b[k] != 0u8);
            }
        }
    } else {
        if k < b.len() {
            assert(b[k] == 0u8);
        }
    }
}

} // verus!

verus! {

/// A name for the text that `String::from_utf8_lossy` makes of `bytes`.
pub uninterp spec fn utf8_lossy(bytes: Seq<u8>) -> Seq<char>;

/// The text a lenient decoding gives: the decoding of valid UTF-8, and
/// `String::from_utf8_lossy`'s replacement text otherwise.
pub open spec fn lossy_text(bytes: Seq<u8>) -> Seq<char> {
    if valid_utf8(bytes) {
        decode_utf8(bytes)
    } else {
        utf8_lossy(bytes)
    }
}

/// Calls `String::from_utf8_lossy`. Its documentation states that valid
/// UTF-8 is decoded as is and invalid sequences become U+FFFD; the contract
/// names the result and states the first part: on valid UTF-8 the text is
/// the decoding. How invalid input is replaced is not stated.
#[verifier::external_body]
pub(crate) fn string_from_utf8_lossy(v: &[u8]) -> (res: String)
    ensures
        res@ == utf8_lossy(v@),
        valid_utf8(v@) ==> res@ == decode_utf8(v@),
{
    String::from_utf8_lossy(v).into_owned()
}

} // verus!

verus! {

/// A field written from the text `s` reads back as the whole characters
/// that were written, provided they hold no zero byte; and as all of `s`
/// when its UTF-8 form fits the field.
pub proof fn lemma_field_roundtrip(s: Seq<char>, k: int)
    requires
        is_fitting_prefix_len(encode_utf8(s), 256, k),
        !encode_utf8(s).subrange(0, k).contains(0u8),
    ensures
        ({
            let f = padded_field(encode_utf8(s), k);
            let text = f.subrange(0, first_zero_or_len(f));
            &&& text == encode_utf8(s).subrange(0, k)
            &&& valid_utf8(text)
            &&& encode_utf8(s).len() <= 256 ==> decode_utf8(text) == s
        }),
{
    let b = encode_utf8(s);
    let f = padded_field(b, k);
    encode_utf8_valid_utf8(s);
    assert forall|j: int| 0 <= j < k implies f[j] != 0u8 by {
        assert(f[j] == b.subrange(0, k)[j]);
        if f[j] == 0u8 {
            assert(b.subrange(0, k).contains(0u8));
        }
    }
    if k < 256 {
        assert(f[k] == 0u8);
    }
    lemma_first_zero_unique(f, k);
    assert(f.subrange(0, k) =~= b.subrange(0, k));
    valid_utf8_split(b, k);
    if b.len() <= 256 {
        is_char_boundary_start_end_of_seq(b);
        assert(k == b.len());
        assert(b.subrange(0, k) =~= b);
        encode_utf8_decode_utf8(s);
    }
}

} // verus!
