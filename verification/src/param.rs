//! Stringly parameters of a URI (`label`, `message` and the extras).

use std::borrow::Cow;
use vstd::prelude::*;
use vstd::slice::slice_to_vec;
use vstd::string::StringSliceAdditionalSpecFns;
use vstd::utf8::*;
use crate::percent::{
    decoder_next, decoder_rest, has_escape, percent_check, percent_decode_cow, percent_decode_text,
    percent_decode_utf8, percent_decoded, percent_decoder, percent_valid,
};
use percent_encoding_rfc3986::PercentDecode;
use crate::text::{bytes_of, string_bytes};

verus! {

broadcast use vstd::utf8::group_utf8_lib;

#[verifier::external_type_specification]
#[verifier::external_body]
pub struct ExUtf8Error(core::str::Utf8Error);

/// Calls `core::str::from_utf8`, which, as documented, succeeds exactly when the bytes are
/// well-formed UTF-8 and then returns the string made of those bytes.
#[verifier::external_body]
fn str_from_utf8(b: &[u8]) -> (r: Result<&str, core::str::Utf8Error>)
    ensures
        r is Ok <==> valid_utf8(b@),
        r matches Ok(s) ==> bytes_of(s) == b@,
{
    core::str::from_utf8(b)
}

/// Calls `String::from_utf8`, which, as documented, succeeds exactly when the bytes are
/// well-formed UTF-8 and then returns the string made of those bytes (the error is reduced to
/// its `Utf8Error`).
#[verifier::external_body]
pub(crate) fn string_from_utf8(v: Vec<u8>) -> (r: Result<String, core::str::Utf8Error>)
    ensures
        r is Ok <==> valid_utf8(v@),
        r matches Ok(s) ==> string_bytes(s) == v@,
{
    match String::from_utf8(v) {
        Ok(s) => Ok(s),
        Err(e) => Err(e.utf8_error()),
    }
}

/// Calls `String::into_bytes`, which, as documented, gives the bytes of the string, taking its
/// buffer without copying it.
#[verifier::external_body]
fn string_into_bytes(s: String) -> (r: Vec<u8>)
    ensures
        r@ == string_bytes(s),
{
    s.into_bytes()
}

/// Abstracted stringly parameter in the URI.
///
/// This type abstracts the parameter that may be encoded allowing lazy decoding, possibly even
/// without allocation.
/// When constructing [`crate::Uri`] to be displayed you may use `From<S>` where `S` is one of
/// various stringly types. The conversion is always cheap.
///
/// Its view is the sequence of bytes that it stands for, after percent-decoding.
#[derive(Debug)]
pub struct Param<'a>(ParamInner<'a>);

#[derive(Debug)]
enum ParamInner<'a> {
    /// Percent-encoded text as it stood in the URI; decoded on demand.
    EncodedBorrowed(&'a str),
    UnencodedBytes(Cow<'a, [u8]>),
    UnencodedString(Cow<'a, str>),
}

impl<'a> Param<'a> {
    /// Encoded text is always valid percent-encoding.
    #[verifier::type_invariant]
    closed spec fn well_formed(self) -> bool {
        match self.0 {
            ParamInner::EncodedBorrowed(s) => percent_valid(bytes_of(s)),
            _ => true,
        }
    }

    /// The bytes the parameter stands for.
    pub closed spec fn decoded(self) -> Seq<u8> {
        match self.0 {
            ParamInner::EncodedBorrowed(s) => percent_decoded(bytes_of(s)),
            ParamInner::UnencodedBytes(b) => b@,
            ParamInner::UnencodedString(s) => encode_utf8(s@),
        }
    }

    /// Whether the parameter still holds text that is decoded on demand.
    pub closed spec fn is_encoded(self) -> bool {
        self.0 is EncodedBorrowed
    }

    /// Whether the conversions that consume the parameter hand out the borrowed source itself
    /// rather than a new buffer: borrowed bytes or text, or encoded text with no escape in it.
    pub closed spec fn borrows_source(self) -> bool {
        match self.0 {
            ParamInner::EncodedBorrowed(s) => !has_escape(bytes_of(s)),
            ParamInner::UnencodedBytes(b) => b matches Cow::Borrowed(_),
            ParamInner::UnencodedString(s) => s matches Cow::Borrowed(_),
        }
    }

    /// The parameter made of a string, taken as it is.
    pub closed spec fn of_str(s: &'a str) -> Param<'a> {
        Param(ParamInner::UnencodedString(Cow::Borrowed(s)))
    }

    /// The parameter made of an owned string, taken as it is.
    pub closed spec fn of_string(s: String) -> Param<'a> {
        Param(ParamInner::UnencodedString(Cow::Owned(s)))
    }

    /// The parameter made of a byte slice, taken as it is.
    pub closed spec fn of_slice(b: &'a [u8]) -> Param<'a> {
        Param(ParamInner::UnencodedBytes(Cow::Borrowed(b)))
    }

    /// The parameter made of owned bytes, taken as they are.
    pub closed spec fn of_vec(b: Vec<u8>) -> Param<'a> {
        Param(ParamInner::UnencodedBytes(Cow::Owned(b)))
    }

    /// What each cheap conversion stands for.
    pub broadcast proof fn lemma_conversions(s: &'a str, st: String, b: &'a [u8], v: Vec<u8>)
        ensures
            #[trigger] Param::of_str(s).decoded() == bytes_of(s),
            #[trigger] Param::of_string(st).decoded() == string_bytes(st),
            #[trigger] Param::of_slice(b).decoded() == b@,
            #[trigger] Param::of_vec(v).decoded() == v@,
            !Param::of_str(s).is_encoded() && !Param::of_string(st).is_encoded()
                && !Param::of_slice(b).is_encoded() && !Param::of_vec(v).is_encoded(),
            Param::of_str(s).borrows_source() && !Param::of_string(st).borrows_source()
                && Param::of_slice(b).borrows_source() && !Param::of_vec(v).borrows_source(),
    {
    }

    /// Convenience constructor: takes percent-encoded text, which is checked now and decoded
    /// on demand.
    pub(crate) fn decode(s: &'a str) -> (r: Result<Self, percent_encoding_rfc3986::PercentDecodeError>)
        ensures
            r is Ok <==> percent_valid(bytes_of(s)),
            r matches Ok(p) ==> p.decoded() == percent_decoded(bytes_of(s)) && p.is_encoded(),
    {
        match percent_check(s) {
            Ok(()) => Ok(Param(ParamInner::EncodedBorrowed(s))),
            Err(e) => Err(e),
        }
    }

    /// Decodes encoded text; the type invariant rules out failure.
    fn decode_valid(s: &str) -> (r: Vec<u8>)
        requires
            percent_valid(bytes_of(s)),
        ensures
            r@ == percent_decoded(bytes_of(s)),
    {
        match percent_decode_text(s) {
            Ok(v) => v,
            Err(_) => {
                proof {
                    assert(false);
                }
                Vec::new()
            },
        }
    }

    /// Decodes encoded text into borrowed bytes where it holds no escape; the type invariant
    /// rules out failure.
    fn decode_valid_cow(s: &'a str) -> (r: Cow<'a, [u8]>)
        requires
            percent_valid(bytes_of(s)),
        ensures
            r@ == percent_decoded(bytes_of(s)),
            (r matches Cow::Borrowed(_)) <==> !has_escape(bytes_of(s)),
    {
        match percent_decode_cow(s) {
            Ok(c) => c,
            Err(_) => {
                proof {
                    assert(false);
                }
                Cow::Borrowed(s.as_bytes())
            },
        }
    }

    /// The decoded bytes, borrowed unless escapes had to be decoded.
    pub fn to_cow_bytes(&self) -> (r: Cow<'_, [u8]>)
        ensures
            r@ == self.decoded(),
            (r matches Cow::Borrowed(_)) <==> !(self.is_encoded() && !self.borrows_source()),
    {
        proof {
            use_type_invariant(self);
        }
        match &self.0 {
            ParamInner::EncodedBorrowed(s) => Self::decode_valid_cow(s),
            ParamInner::UnencodedBytes(Cow::Borrowed(b)) => Cow::Borrowed(b),
            ParamInner::UnencodedBytes(Cow::Owned(v)) => Cow::Borrowed(v.as_slice()),
            ParamInner::UnencodedString(Cow::Borrowed(s)) => Cow::Borrowed(s.as_bytes()),
            ParamInner::UnencodedString(Cow::Owned(s)) => Cow::Borrowed(s.as_str().as_bytes()),
        }
    }

    /// Creates a byte iterator yielding decoded bytes.
    pub fn bytes(&self) -> (r: ParamBytes<'_>)
        ensures
            r.remaining() == self.decoded(),
    {
        proof {
            use_type_invariant(self);
        }
        match &self.0 {
            ParamInner::EncodedBorrowed(s) => match percent_decoder(s) {
                Ok(d) => ParamBytes(BytesSource::Decoding(d)),
                Err(_) => {
                    proof {
                        assert(false);
                    }
                    ParamBytes(BytesSource::Plain(s.as_bytes(), 0))
                },
            },
            ParamInner::UnencodedBytes(Cow::Borrowed(b)) => ParamBytes(BytesSource::Plain(b, 0)),
            ParamInner::UnencodedBytes(Cow::Owned(v)) => ParamBytes(
                BytesSource::Plain(v.as_slice(), 0),
            ),
            ParamInner::UnencodedString(Cow::Borrowed(s)) => ParamBytes(
                BytesSource::Plain(s.as_bytes(), 0),
            ),
            ParamInner::UnencodedString(Cow::Owned(s)) => ParamBytes(
                BytesSource::Plain(s.as_str().as_bytes(), 0),
            ),
        }
    }

    /// Converts the parameter into iterator yielding decoded bytes.
    pub fn into_bytes(self) -> (r: ParamBytesOwned<'a>)
        ensures
            r.remaining() == self.decoded(),
    {
        proof {
            use_type_invariant(&self);
        }
        match self.0 {
            ParamInner::EncodedBorrowed(s) => match percent_decoder(s) {
                Ok(d) => ParamBytesOwned(OwnedBytesSource::Decoding(d)),
                Err(_) => {
                    proof {
                        assert(false);
                    }
                    ParamBytesOwned(OwnedBytesSource::Plain(Cow::Borrowed(s.as_bytes()), 0))
                },
            },
            ParamInner::UnencodedBytes(b) => ParamBytesOwned(OwnedBytesSource::Plain(b, 0)),
            ParamInner::UnencodedString(Cow::Borrowed(s)) => ParamBytesOwned(
                OwnedBytesSource::Plain(Cow::Borrowed(s.as_bytes()), 0),
            ),
            ParamInner::UnencodedString(Cow::Owned(s)) => ParamBytesOwned(
                OwnedBytesSource::Plain(Cow::Owned(string_into_bytes(s)), 0),
            ),
        }
    }

    /// Converts the parameter into its decoded bytes, borrowing the source where it can.
    pub fn into_cow_bytes(self) -> (r: Cow<'a, [u8]>)
        ensures
            r@ == self.decoded(),
            (r matches Cow::Borrowed(_)) <==> self.borrows_source(),
    {
        proof {
            use_type_invariant(&self);
        }
        match self.0 {
            ParamInner::EncodedBorrowed(s) => Self::decode_valid_cow(s),
            ParamInner::UnencodedBytes(b) => b,
            ParamInner::UnencodedString(Cow::Borrowed(s)) => Cow::Borrowed(s.as_bytes()),
            ParamInner::UnencodedString(Cow::Owned(s)) => Cow::Owned(string_into_bytes(s)),
        }
    }

    /// Converts the parameter into its decoded bytes.
    pub fn into_vec(self) -> (r: Vec<u8>)
        ensures
            r@ == self.decoded(),
    {
        match self.into_cow_bytes() {
            Cow::Borrowed(b) => slice_to_vec(b),
            Cow::Owned(v) => v,
        }
    }

    /// Converts the parameter into text: fails exactly when the decoded bytes are not UTF-8.
    pub fn into_cow_str(self) -> (r: Result<Cow<'a, str>, core::str::Utf8Error>)
        ensures
            r is Ok <==> valid_utf8(self.decoded()),
            r matches Ok(s) ==> encode_utf8(s@) == self.decoded(),
            r matches Ok(s) ==> ((s matches Cow::Borrowed(_)) <==> self.borrows_source()),
    {
        proof {
            use_type_invariant(&self);
        }
        match self.0 {
            ParamInner::EncodedBorrowed(s) => match percent_decode_utf8(s) {
                Ok(text) => text,
                Err(_) => {
                    proof {
                        assert(false);
                    }
                    Ok(Cow::Borrowed(s))
                },
            },
            ParamInner::UnencodedString(s) => Ok(s),
            ParamInner::UnencodedBytes(Cow::Borrowed(b)) => match str_from_utf8(b) {
                Ok(text) => Ok(Cow::Borrowed(text)),
                Err(e) => Err(e),
            },
            ParamInner::UnencodedBytes(Cow::Owned(v)) => match string_from_utf8(v) {
                Ok(text) => Ok(Cow::Owned(text)),
                Err(e) => Err(e),
            },
        }
    }

    /// Converts the parameter into an owned string: fails exactly when the decoded bytes are
    /// not UTF-8.
    pub fn into_string(self) -> (r: Result<String, core::str::Utf8Error>)
        ensures
            r is Ok <==> valid_utf8(self.decoded()),
            r matches Ok(s) ==> string_bytes(s) == self.decoded(),
    {
        match self.into_cow_str() {
            Ok(Cow::Borrowed(s)) => Ok(s.to_owned()),
            Ok(Cow::Owned(s)) => Ok(s),
            Err(e) => Err(e),
        }
    }

    /// Decodes the param if encoded making the lifetime static.
    pub fn decode_into_owned<'b>(self) -> (r: Param<'b>)
        ensures
            r.decoded() == self.decoded(),
            !r.is_encoded(),
            !r.borrows_source(),
    {
        proof {
            use_type_invariant(&self);
        }
        let owned = match self.0 {
            ParamInner::EncodedBorrowed(s) => ParamInner::UnencodedBytes(
                Cow::Owned(Self::decode_valid(s)),
            ),
            ParamInner::UnencodedString(Cow::Borrowed(value)) => ParamInner::UnencodedString(
                Cow::Owned(value.to_owned()),
            ),
            ParamInner::UnencodedString(Cow::Owned(value)) => ParamInner::UnencodedString(
                Cow::Owned(value),
            ),
            ParamInner::UnencodedBytes(Cow::Borrowed(value)) => ParamInner::UnencodedBytes(
                Cow::Owned(slice_to_vec(value)),
            ),
            ParamInner::UnencodedBytes(Cow::Owned(value)) => ParamInner::UnencodedBytes(
                Cow::Owned(value),
            ),
        };
        Param(owned)
    }
}

impl<'a> Clone for Param<'a> {
    fn clone(&self) -> (r: Self)
        ensures
            r.decoded() == self.decoded(),
            r.is_encoded() == self.is_encoded(),
            r.borrows_source() == self.borrows_source(),
    {
        proof {
            use_type_invariant(self);
        }
        let inner = match &self.0 {
            ParamInner::EncodedBorrowed(s) => ParamInner::EncodedBorrowed(s),
            ParamInner::UnencodedBytes(Cow::Borrowed(b)) => ParamInner::UnencodedBytes(
                Cow::Borrowed(b),
            ),
            ParamInner::UnencodedBytes(Cow::Owned(v)) => ParamInner::UnencodedBytes(
                Cow::Owned(slice_to_vec(v.as_slice())),
            ),
            ParamInner::UnencodedString(Cow::Borrowed(s)) => ParamInner::UnencodedString(
                Cow::Borrowed(s),
            ),
            ParamInner::UnencodedString(Cow::Owned(s)) => ParamInner::UnencodedString(
                Cow::Owned(s.clone()),
            ),
        };
        Param(inner)
    }
}

/// Cheap conversion
impl<'a> From<&'a str> for Param<'a> {
    fn from(value: &'a str) -> (r: Self) {
        Param(ParamInner::UnencodedString(Cow::Borrowed(value)))
    }
}

impl<'a> vstd::std_specs::convert::FromSpecImpl<&'a str> for Param<'a> {
    open spec fn obeys_from_spec() -> bool {
        true
    }

    open spec fn from_spec(v: &'a str) -> Self {
        Param::of_str(v)
    }
}

/// Cheap conversion
impl<'a> From<String> for Param<'a> {
    fn from(value: String) -> (r: Self) {
        Param(ParamInner::UnencodedString(Cow::Owned(value)))
    }
}

impl<'a> vstd::std_specs::convert::FromSpecImpl<String> for Param<'a> {
    open spec fn obeys_from_spec() -> bool {
        true
    }

    open spec fn from_spec(v: String) -> Self {
        Param::of_string(v)
    }
}

/// Cheap conversion
impl<'a> From<&'a [u8]> for Param<'a> {
    fn from(value: &'a [u8]) -> (r: Self) {
        Param(ParamInner::UnencodedBytes(Cow::Borrowed(value)))
    }
}

impl<'a> vstd::std_specs::convert::FromSpecImpl<&'a [u8]> for Param<'a> {
    open spec fn obeys_from_spec() -> bool {
        true
    }

    open spec fn from_spec(v: &'a [u8]) -> Self {
        Param::of_slice(v)
    }
}

/// Cheap conversion
impl<'a> From<Vec<u8>> for Param<'a> {
    fn from(value: Vec<u8>) -> (r: Self) {
        Param(ParamInner::UnencodedBytes(Cow::Owned(value)))
    }
}

impl<'a> vstd::std_specs::convert::FromSpecImpl<Vec<u8>> for Param<'a> {
    open spec fn obeys_from_spec() -> bool {
        true
    }

    open spec fn from_spec(v: Vec<u8>) -> Self {
        Param::of_vec(v)
    }
}

/// Decoded bytes. This is [`Param::into_vec`].
impl<'a> From<Param<'a>> for Vec<u8> {
    fn from(value: Param<'a>) -> (r: Self)
        ensures
            r@ == value.decoded(),
    {
        value.into_vec()
    }
}

impl<'a> vstd::std_specs::convert::FromSpecImpl<Param<'a>> for Vec<u8> {
    /// A vector is not a value that a spec function can build from bytes, so the trait-level
    /// spec is not used; the `ensures` of `from` above states the result.
    open spec fn obeys_from_spec() -> bool {
        false
    }

    open spec fn from_spec(v: Param<'a>) -> Self {
        arbitrary()
    }
}

/// Decoded bytes, borrowing the source where it can. This is [`Param::into_cow_bytes`].
impl<'a> From<Param<'a>> for Cow<'a, [u8]> {
    fn from(value: Param<'a>) -> (r: Self)
        ensures
            r@ == value.decoded(),
            (r matches Cow::Borrowed(_)) <==> value.borrows_source(),
    {
        value.into_cow_bytes()
    }
}

impl<'a> vstd::std_specs::convert::FromSpecImpl<Param<'a>> for Cow<'a, [u8]> {
    /// Decoded bytes may be a new vector, which a spec function cannot build, so the trait-level
    /// spec is not used; the `ensures` of `from` above states the result.
    open spec fn obeys_from_spec() -> bool {
        false
    }

    open spec fn from_spec(v: Param<'a>) -> Self {
        arbitrary()
    }
}

/// Decoded text. This is [`Param::into_string`].
impl<'a> TryFrom<Param<'a>> for String {
    type Error = core::str::Utf8Error;

    fn try_from(value: Param<'a>) -> (r: Result<Self, Self::Error>)
        ensures
            r is Ok <==> valid_utf8(value.decoded()),
            r matches Ok(s) ==> string_bytes(s) == value.decoded(),
    {
        value.into_string()
    }
}

impl<'a> vstd::std_specs::convert::TryFromSpecImpl<Param<'a>> for String {
    /// Neither a string nor the error is a value that a spec function can build, so the
    /// trait-level spec is not used; the `ensures` of `try_from` above states the result.
    open spec fn obeys_try_from_spec() -> bool {
        false
    }

    open spec fn try_from_spec(v: Param<'a>) -> Result<Self, Self::Error> {
        arbitrary()
    }
}

/// Decoded text, borrowing the source where it can. This is [`Param::into_cow_str`].
impl<'a> TryFrom<Param<'a>> for Cow<'a, str> {
    type Error = core::str::Utf8Error;

    fn try_from(value: Param<'a>) -> (r: Result<Self, Self::Error>)
        ensures
            r is Ok <==> valid_utf8(value.decoded()),
            r matches Ok(s) ==> encode_utf8(s@) == value.decoded(),
            r matches Ok(s) ==> ((s matches Cow::Borrowed(_)) <==> value.borrows_source()),
    {
        value.into_cow_str()
    }
}

impl<'a> vstd::std_specs::convert::TryFromSpecImpl<Param<'a>> for Cow<'a, str> {
    /// Neither decoded text nor the error is a value that a spec function can build, so the
    /// trait-level spec is not used; the `ensures` of `try_from` above states the result.
    open spec fn obeys_try_from_spec() -> bool {
        false
    }

    open spec fn try_from_spec(v: Param<'a>) -> Result<Self, Self::Error> {
        arbitrary()
    }
}

/// Iterator over decoded bytes inside paramter.
///
/// The lifetime of this may be shorter than that of [`Param<'a>`].
pub struct ParamBytes<'a>(BytesSource<'a>);

/// Iterator over decoded bytes inside paramter.
///
/// The lifetime of this is same as that of [`Param<'a>`].
pub struct ParamBytesOwned<'a>(OwnedBytesSource<'a>);

/// Where borrowed decoded bytes come from: encoded text decoded as it is read, or plain bytes.
enum BytesSource<'a> {
    Decoding(PercentDecode<'a>),
    Plain(&'a [u8], usize),
}

/// Where owned decoded bytes come from: encoded text decoded as it is read, or plain bytes.
enum OwnedBytesSource<'a> {
    Decoding(PercentDecode<'a>),
    Plain(Cow<'a, [u8]>, usize),
}

/// The byte at `i` of a byte cow.
fn cow_byte(b: &Cow<'_, [u8]>, i: usize) -> (r: u8)
    requires
        i < b@.len(),
    ensures
        r == b@[i as int],
{
    match b {
        Cow::Borrowed(s) => s[i],
        Cow::Owned(v) => v[i],
    }
}

/// The length of a byte cow.
fn cow_len(b: &Cow<'_, [u8]>) -> (r: usize)
    ensures
        r == b@.len(),
{
    match b {
        Cow::Borrowed(s) => s.len(),
        Cow::Owned(v) => v.len(),
    }
}

impl<'a> ParamBytes<'a> {
    /// The bytes not yet yielded.
    pub closed spec fn remaining(self) -> Seq<u8> {
        match self.0 {
            BytesSource::Decoding(d) => decoder_rest(d),
            BytesSource::Plain(b, position) => if position <= b@.len() {
                b@.subrange(position as int, b@.len() as int)
            } else {
                Seq::empty()
            },
        }
    }

    /// Yields the next decoded byte.
    pub fn next(&mut self) -> (r: Option<u8>)
        ensures
            match r {
                Some(b) => old(self).remaining() == seq![b] + final(self).remaining(),
                None => old(self).remaining().len() == 0 && final(self).remaining().len() == 0,
            },
    {
        match &mut self.0 {
            BytesSource::Decoding(d) => decoder_next(d),
            BytesSource::Plain(b, position) => {
                if *position < b.len() {
                    let byte = b[*position];
                    *position = *position + 1;
                    proof {
                        assert(old(self).remaining() =~= seq![byte] + b@.subrange(
                            *position as int,
                            b@.len() as int,
                        ));
                    }
                    Some(byte)
                } else {
                    None
                }
            },
        }
    }
}

impl<'a> ParamBytesOwned<'a> {
    /// The bytes not yet yielded.
    pub closed spec fn remaining(self) -> Seq<u8> {
        match self.0 {
            OwnedBytesSource::Decoding(d) => decoder_rest(d),
            OwnedBytesSource::Plain(b, position) => if position <= b@.len() {
                b@.subrange(position as int, b@.len() as int)
            } else {
                Seq::empty()
            },
        }
    }

    /// Yields the next decoded byte.
    pub fn next(&mut self) -> (r: Option<u8>)
        ensures
            match r {
                Some(b) => old(self).remaining() == seq![b] + final(self).remaining(),
                None => old(self).remaining().len() == 0 && final(self).remaining().len() == 0,
            },
    {
        match &mut self.0 {
            OwnedBytesSource::Decoding(d) => decoder_next(d),
            OwnedBytesSource::Plain(b, position) => {
                if *position < cow_len(b) {
                    let byte = cow_byte(b, *position);
                    *position = *position + 1;
                    proof {
                        assert(old(self).remaining() =~= seq![byte] + b@.subrange(
                            *position as int,
                            b@.len() as int,
                        ));
                    }
                    Some(byte)
                } else {
                    None
                }
            },
        }
    }
}

} // verus!
