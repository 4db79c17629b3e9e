//! Percent-encoding (RFC 3986) of parameter values.
//!
//! Decoding is done by `percent_encoding_rfc3986`; its whole behaviour is stated here as
//! `percent_valid` and `percent_decoded`. Encoding picks, byte by byte, whether to escape and
//! asks the same crate for the escape sequence of a byte.

use vstd::prelude::*;
use vstd::string::StringSliceAdditionalSpecFns;
use crate::text::bytes_of;
use std::borrow::Cow;
use vstd::utf8::*;

verus! {

/// The ASCII code of `%`.
pub open spec fn percent_sign() -> u8 {
    37
}

/// `b` is an ASCII hexadecimal digit (either case).
pub open spec fn is_hex_digit(b: u8) -> bool {
    (48 <= b <= 57) || (65 <= b <= 70) || (97 <= b <= 102)
}

/// The value of a hexadecimal digit.
pub open spec fn hex_value(b: u8) -> int {
    if b <= 57 {
        b - 48
    } else if b <= 70 {
        b - 55
    } else {
        b - 87
    }
}

/// The upper-case hexadecimal digit of `n` (`0 <= n < 16`).
pub open spec fn hex_upper(n: u8) -> u8 {
    if n < 10 {
        (48 + n) as u8
    } else {
        (55 + n) as u8
    }
}

/// Every `%` in `b` is followed by two hexadecimal digits.
pub open spec fn percent_valid(b: Seq<u8>) -> bool
    decreases b.len(),
{
    if b.len() == 0 {
        true
    } else if b[0] == percent_sign() {
        b.len() >= 3 && is_hex_digit(b[1]) && is_hex_digit(b[2]) && percent_valid(
            b.subrange(3, b.len() as int),
        )
    } else {
        percent_valid(b.subrange(1, b.len() as int))
    }
}

/// The bytes that `b` stands for: each `%XY` replaced by the byte with hexadecimal value `XY`.
pub open spec fn percent_decoded(b: Seq<u8>) -> Seq<u8>
    decreases b.len(),
{
    if b.len() == 0 {
        Seq::empty()
    } else if b[0] == percent_sign() && b.len() >= 3 {
        seq![(hex_value(b[1]) * 16 + hex_value(b[2])) as u8] + percent_decoded(
            b.subrange(3, b.len() as int),
        )
    } else {
        seq![b[0]] + percent_decoded(b.subrange(1, b.len() as int))
    }
}

/// RFC 3986 unreserved characters: ASCII letters, digits, `-`, `.`, `_` and `~`.
/// These are written as they are; every other byte is escaped.
pub open spec fn is_unreserved(b: u8) -> bool {
    (65 <= b <= 90) || (97 <= b <= 122) || (48 <= b <= 57) || b == 45 || b == 46 || b == 95 || b
        == 126
}

/// The escape sequence `%XY` of a byte, with upper-case digits.
pub open spec fn escape_of(b: u8) -> Seq<u8> {
    seq![percent_sign(), hex_upper(b / 16), hex_upper(b % 16)]
}

/// How a single byte is written.
pub open spec fn encoded_byte(b: u8) -> Seq<u8> {
    if is_unreserved(b) {
        seq![b]
    } else {
        escape_of(b)
    }
}

/// The percent-encoding of `b`: unreserved bytes kept, every other byte escaped.
pub open spec fn percent_encoded(b: Seq<u8>) -> Seq<u8>
    decreases b.len(),
{
    if b.len() == 0 {
        Seq::empty()
    } else {
        encoded_byte(b[0]) + percent_encoded(b.subrange(1, b.len() as int))
    }
}

/// Encoding distributes over concatenation.
pub proof fn lemma_encoded_concat(x: Seq<u8>, y: Seq<u8>)
    ensures
        percent_encoded(x + y) == percent_encoded(x) + percent_encoded(y),
    decreases x.len(),
{
    if x.len() == 0 {
        assert(x + y =~= y);
        assert(percent_encoded(x) + percent_encoded(y) =~= percent_encoded(y));
    } else {
        let xt = x.subrange(1, x.len() as int);
        lemma_encoded_concat(xt, y);
        assert((x + y).subrange(1, (x + y).len() as int) =~= xt + y);
        assert((x + y)[0] == x[0]);
        assert(percent_encoded(x + y) =~= encoded_byte(x[0]) + (percent_encoded(xt)
            + percent_encoded(y)));
    }
}

/// The escape of a byte decodes back to the byte.
proof fn lemma_escape_digits(b: u8)
    ensures
        is_hex_digit(hex_upper(b / 16)),
        is_hex_digit(hex_upper(b % 16)),
        hex_value(hex_upper(b / 16)) * 16 + hex_value(hex_upper(b % 16)) == b,
{
    assert(b / 16 < 16);
    assert(b == (b / 16) * 16 + b % 16);
}

/// What the library writes is valid percent-encoding and decodes to what was written.
pub proof fn lemma_encode_decode(b: Seq<u8>)
    ensures
        percent_valid(percent_encoded(b)),
        percent_decoded(percent_encoded(b)) == b,
    decreases b.len(),
{
    if b.len() > 0 {
        let t = b.subrange(1, b.len() as int);
        lemma_encode_decode(t);
        let e = percent_encoded(b);
        let et = percent_encoded(t);
        if is_unreserved(b[0]) {
            assert(e =~= seq![b[0]] + et);
            assert(e.subrange(1, e.len() as int) =~= et);
            assert(b =~= seq![b[0]] + t);
        } else {
            lemma_escape_digits(b[0]);
            assert(e =~= escape_of(b[0]) + et);
            assert(e.subrange(3, e.len() as int) =~= et);
            assert(b =~= seq![b[0]] + t);
        }
    }
}

/// Every byte of an encoding is an ASCII byte other than `&`, `=`, `?` and `#`.
pub open spec fn safe_in_query(b: Seq<u8>) -> bool {
    forall|i: int|
        0 <= i < b.len() ==> #[trigger] b[i] < 128 && b[i] != 38 && b[i] != 61 && b[i] != 63
            && b[i] != 35
}

/// Encodings are made of ASCII bytes that never act as URI delimiters.
pub proof fn lemma_encoded_safe(b: Seq<u8>)
    ensures
        safe_in_query(percent_encoded(b)),
    decreases b.len(),
{
    if b.len() > 0 {
        let t = b.subrange(1, b.len() as int);
        lemma_encoded_safe(t);
        assert(b[0] / 16 < 16);
        assert(percent_encoded(b) == encoded_byte(b[0]) + percent_encoded(t));
        let e = percent_encoded(b);
        let h = encoded_byte(b[0]);
        assert forall|i: int| 0 <= i < e.len() implies #[trigger] e[i] < 128 && e[i] != 38
            && e[i] != 61 && e[i] != 63 && e[i] != 35 by {
            if i >= h.len() {
                assert(e[i] == percent_encoded(t)[i - h.len()]);
            }
        }
    }
}

/// RFC 3986 percent-encoding of a single byte: the unreserved characters `A`-`Z`, `a`-`z`,
/// `0`-`9`, `-`, `.`, `_` and `~` are written as they are, and every other byte is written as
/// `%` and two upper-case hexadecimal digits whose value is the byte.
pub proof fn law_unreserved_bytes_alone_are_written_raw(b: u8)
    ensures
        percent_encoded(seq![b]) == seq![b] <==> (('A' as u8) <= b <= ('Z' as u8) || ('a' as u8) <= b
            <= ('z' as u8) || ('0' as u8) <= b <= ('9' as u8) || b == ('-' as u8) || b == ('.' as u8)
            || b == ('_' as u8) || b == ('~' as u8)),
        percent_encoded(seq![b]) != seq![b] ==> {
            let e = percent_encoded(seq![b]);
            &&& e.len() == 3
            &&& e[0] == ('%' as u8)
            &&& forall|j: int|
                1 <= j < 3 ==> ('0' as u8) <= #[trigger] e[j] <= ('9' as u8) || ('A' as u8) <= e[j]
                    <= ('F' as u8)
            &&& hex_value(e[1]) * 16 + hex_value(e[2]) == b
        },
{
    let one = seq![b];
    assert(one.subrange(1, 1) =~= Seq::<u8>::empty());
    assert(percent_encoded(one.subrange(1, 1)) =~= Seq::<u8>::empty());
    assert(one[0] == b);
    assert(percent_encoded(one) =~= encoded_byte(b));
}

/// Every byte of a percent-encoded value is an RFC 3986 unreserved character (`A`-`Z`, `a`-`z`,
/// `0`-`9`, `-`, `.`, `_`, `~`), a `%`, or one of the two upper-case hexadecimal digits after a
/// `%`: no other character is ever left in a written URI.
pub proof fn law_encoded_bytes_are_unreserved_or_escapes(s: Seq<u8>)
    ensures
        forall|i: int|
            0 <= i < percent_encoded(s).len() ==> ('A' as u8) <= #[trigger] percent_encoded(s)[i]
                <= ('Z' as u8) || ('a' as u8) <= percent_encoded(s)[i] <= ('z' as u8) || ('0' as u8)
                <= percent_encoded(s)[i] <= ('9' as u8) || percent_encoded(s)[i] == ('-' as u8)
                || percent_encoded(s)[i] == ('.' as u8) || percent_encoded(s)[i] == ('_' as u8)
                || percent_encoded(s)[i] == ('~' as u8) || percent_encoded(s)[i] == ('%' as u8),
    decreases s.len(),
{
    if s.len() > 0 {
        let t = s.subrange(1, s.len() as int);
        law_encoded_bytes_are_unreserved_or_escapes(t);
        law_unreserved_bytes_alone_are_written_raw(s[0]);
        let h = encoded_byte(s[0]);
        assert forall|i: int| 0 <= i < percent_encoded(s).len() implies ('A' as u8) <= #[trigger] percent_encoded(s)[i]
            <= ('Z' as u8) || ('a' as u8) <= percent_encoded(s)[i] <= ('z' as u8) || ('0' as u8)
            <= percent_encoded(s)[i] <= ('9' as u8) || percent_encoded(s)[i] == ('-' as u8)
            || percent_encoded(s)[i] == ('.' as u8) || percent_encoded(s)[i] == ('_' as u8)
            || percent_encoded(s)[i] == ('~' as u8) || percent_encoded(s)[i] == ('%' as u8) by {
            if i < h.len() {
                assert(percent_encoded(s)[i] == h[i]);
            } else {
                assert(percent_encoded(s)[i] == percent_encoded(t)[i - h.len()]);
            }
        }
    }
}

#[verifier::external_type_specification]
#[verifier::external_body]
pub struct ExPercentDecodeError(percent_encoding_rfc3986::PercentDecodeError);

/// Calls `percent_encoding_rfc3986::percent_decode_str` and collects the decoded bytes.
///
/// Per that crate's source (`validate_input` and the `PercentDecode` iterator): the input is
/// rejected exactly when some `%` is not followed by two hexadecimal digits, and otherwise each
/// `%XY` is replaced by the byte `XY` and every other byte is kept.
#[verifier::external_body]
pub(crate) fn percent_decode_text(text: &str) -> (r: Result<
    Vec<u8>,
    percent_encoding_rfc3986::PercentDecodeError,
>)
    ensures
        r is Ok <==> percent_valid(bytes_of(text)),
        r matches Ok(v) ==> v@ == percent_decoded(bytes_of(text)),
{
    match percent_encoding_rfc3986::percent_decode_str(text) {
        Ok(decoder) => Ok(decoder.collect()),
        Err(e) => Err(e),
    }
}

#[verifier::external_type_specification]
#[verifier::external_body]
pub struct ExPercentDecode<'a>(percent_encoding_rfc3986::PercentDecode<'a>);

/// The bytes that a `percent_encoding_rfc3986::PercentDecode` has yet to yield.
pub uninterp spec fn decoder_rest(d: percent_encoding_rfc3986::PercentDecode<'_>) -> Seq<u8>;

/// Calls `percent_encoding_rfc3986::percent_decode_str`, keeping the decoder. Per that crate's
/// source, it fails exactly when some `%` is not followed by two hexadecimal digits; the decoder
/// then yields the decoded bytes, one at a time, as it is advanced.
#[verifier::external_body]
pub(crate) fn percent_decoder<'a>(text: &'a str) -> (r: Result<
    percent_encoding_rfc3986::PercentDecode<'a>,
    percent_encoding_rfc3986::PercentDecodeError,
>)
    ensures
        r is Ok <==> percent_valid(bytes_of(text)),
        r matches Ok(d) ==> decoder_rest(d) == percent_decoded(bytes_of(text)),
{
    percent_encoding_rfc3986::percent_decode_str(text)
}

/// Calls `Iterator::next` on a `percent_encoding_rfc3986::PercentDecode`. Per that crate's
/// source, it yields the next decoded byte (an escape `%XY` decoded to one byte), and `None`
/// once the input is used up, after which it stays used up.
#[verifier::external_body]
pub(crate) fn decoder_next(d: &mut percent_encoding_rfc3986::PercentDecode<'_>) -> (r: Option<u8>)
    ensures
        match r {
            Some(b) => decoder_rest(*old(d)) == seq![b] + decoder_rest(*final(d)),
            None => decoder_rest(*old(d)).len() == 0 && decoder_rest(*final(d)).len() == 0,
        },
{
    d.next()
}

/// Whether the text holds a `%`, that is, an escape to decode.
pub open spec fn has_escape(b: Seq<u8>) -> bool {
    b.contains(percent_sign())
}

/// Calls `percent_encoding_rfc3986::percent_decode_str` to check the text, keeping nothing of
/// the decoder. Per that crate's `validate_input`, it fails exactly when some `%` is not
/// followed by two hexadecimal digits.
#[verifier::external_body]
pub(crate) fn percent_check(text: &str) -> (r: Result<(), percent_encoding_rfc3986::PercentDecodeError>)
    ensures
        r is Ok <==> percent_valid(bytes_of(text)),
{
    match percent_encoding_rfc3986::percent_decode_str(text) {
        Ok(_) => Ok(()),
        Err(e) => Err(e),
    }
}

/// Calls `percent_encoding_rfc3986::percent_decode_str` and converts the decoder into a
/// `Cow<[u8]>` by that crate's `From<PercentDecode>`. Per its source, the input is rejected
/// exactly when some `%` is not followed by two hexadecimal digits; otherwise the result holds
/// the decoded bytes, and it borrows the input exactly when the input holds no `%`.
#[verifier::external_body]
pub(crate) fn percent_decode_cow<'a>(text: &'a str) -> (r: Result<
    Cow<'a, [u8]>,
    percent_encoding_rfc3986::PercentDecodeError,
>)
    ensures
        r is Ok <==> percent_valid(bytes_of(text)),
        r matches Ok(c) ==> c@ == percent_decoded(bytes_of(text)) && ((c matches Cow::Borrowed(
            _,
        )) <==> !has_escape(bytes_of(text))),
{
    match percent_encoding_rfc3986::percent_decode_str(text) {
        Ok(decoder) => Ok(decoder.into()),
        Err(e) => Err(e),
    }
}

/// Calls `percent_encoding_rfc3986::percent_decode_str`, then `PercentDecode::decode_utf8`.
/// Per that crate's source, the first fails exactly when some `%` is not followed by two
/// hexadecimal digits; `decode_utf8` fails exactly when the decoded bytes are not UTF-8, and
/// otherwise gives the text of those bytes, borrowing the input exactly when it holds no `%`.
#[verifier::external_body]
pub(crate) fn percent_decode_utf8<'a>(text: &'a str) -> (r: Result<
    Result<Cow<'a, str>, core::str::Utf8Error>,
    percent_encoding_rfc3986::PercentDecodeError,
>)
    ensures
        r is Ok <==> percent_valid(bytes_of(text)),
        r matches Ok(u) ==> (u is Ok <==> valid_utf8(percent_decoded(bytes_of(text)))),
        r matches Ok(Ok(t)) ==> encode_utf8(t@) == percent_decoded(bytes_of(text)) && ((t matches Cow::Borrowed(
            _,
        )) <==> !has_escape(bytes_of(text))),
{
    match percent_encoding_rfc3986::percent_decode_str(text) {
        Ok(decoder) => Ok(decoder.decode_utf8()),
        Err(e) => Err(e),
    }
}

/// Calls `percent_encoding_rfc3986::percent_encode_byte`, which returns the three bytes `%XY`
/// where `XY` are the upper-case hexadecimal digits of `byte`.
#[verifier::external_body]
pub(crate) fn escape_byte(byte: u8) -> (r: &'static str)
    ensures
        bytes_of(r) == escape_of(byte),
{
    percent_encoding_rfc3986::percent_encode_byte(byte)
}

/// Whether a byte is written as it is.
pub fn unreserved(b: u8) -> (r: bool)
    ensures
        r == is_unreserved(b),
{
    (65 <= b && b <= 90) || (97 <= b && b <= 122) || (48 <= b && b <= 57) || b == 45 || b == 46
        || b == 95 || b == 126
}

/// Appends the percent-encoding of `input` to `out`.
pub fn push_percent_encoded(out: &mut Vec<u8>, input: &[u8])
    ensures
        final(out)@ == old(out)@ + percent_encoded(input@),
{
    let n = input.len();
    let mut i: usize = 0;
    while i < n
        invariant
            n == input@.len(),
            i <= n,
            out@ == old(out)@ + percent_encoded(input@.subrange(0, i as int)),
        decreases n - i,
    {
        let b = input[i];
        let ghost before = out@;
        if unreserved(b) {
            out.push(b);
        } else {
            let esc = escape_byte(b).as_bytes();
            out.push(esc[0]);
            out.push(esc[1]);
            out.push(esc[2]);
        }
        proof {
            assert(out@ =~= before + encoded_byte(b));
            let one = seq![b];
            assert(percent_encoded(one) =~= encoded_byte(b)) by {
                assert(one.subrange(1, 1) =~= Seq::<u8>::empty());
                assert(percent_encoded(one.subrange(1, 1)) =~= Seq::<u8>::empty());
                assert(one[0] == b);
            }
            lemma_encoded_concat(input@.subrange(0, i as int), one);
            assert(input@.subrange(0, i as int) + one =~= input@.subrange(0, i + 1));
        }
        i = i + 1;
    }
    proof {
        assert(input@.subrange(0, n as int) =~= input@);
    }
}

} // verus!
