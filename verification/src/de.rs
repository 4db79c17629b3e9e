//! Deserialization of BIP21 URIs.
//!
//! The grammar is read on the UTF-8 bytes of the text: a case-insensitive `bitcoin:` scheme, the
//! address up to the first `?`, then parameters separated by `&`, each a key, `=` and a
//! percent-encoded value. `amount`, `label` and `message` are the URI's own; every other key is
//! offered to the extras, and a key starting with `req-` that the extras do not recognise makes
//! the URI invalid.

use vstd::prelude::*;
use vstd::string::StringSliceAdditionalSpecFns;
use vstd::utf8::*;
use crate::address::{btc_amount, canonical_address, parse_btc_amount, Address, AddressError, NetworkUnchecked};
use crate::param::Param;
use crate::percent::{percent_decoded, percent_valid};
use crate::text::{bytes_of, first_index, lemma_first_index, skip_ascii, split_once_byte, string_bytes, ascii_prefix};
use crate::Uri;

verus! {

broadcast use vstd::utf8::group_utf8_lib;

/// Type of the error that extras return when deserializing.
pub trait DeserializationError {
    /// The error returned when deserialization fails.
    type Error;
}

/// Types that can be deserialized from the extra parameters of a URI.
pub trait DeserializeParams<'de>: Sized + DeserializationError {
    /// The state that collects the parameters.
    type DeserializationState: DeserializationState<'de, Value = Self> + Default;
}

/// Whether deserialization recognised a parameter.
#[derive(Debug, Clone, Copy, PartialEq, Eq, Structural)]
pub enum ParamKind {
    /// The parameter was recognised and taken.
    Known,
    /// The parameter was not recognised.
    Unknown,
}

/// The state that collects extra parameters, one at a time, into a value.
///
/// Which keys a state recognises is a property of its type: `is_param_known` answers it, and
/// deserialization reports `Known` exactly for recognised keys.
///
/// Taking a lent parameter depends on the state, the key and the decoded bytes of the value
/// alone: `taken` names the answer and `after` the next state. A parameter that borrows from the
/// URI is handed whole, so that the state may keep it: `taken_borrowed` and `after_borrowed`
/// name what that gives.
pub trait DeserializationState<'de>: Sized {
    /// The value produced at the end.
    type Value: DeserializationError;

    /// The keys (as UTF-8 bytes) that this state recognises.
    spec fn recognises(key: Seq<u8>) -> bool;

    /// What `finalize` produces from this state.
    spec fn finalized(self) -> Result<Self::Value, <Self::Value as DeserializationError>::Error>;

    /// Checks whether the parameter is known.
    fn is_param_known(&self, key: &str) -> (known: bool)
        ensures
            known == Self::recognises(bytes_of(key)),
    ;

    /// What taking the parameter with `key` and the decoded bytes `value` answers.
    spec fn taken(self, key: Seq<u8>, value: Seq<u8>) -> Result<
        ParamKind,
        <Self::Value as DeserializationError>::Error,
    >;

    /// The state after taking the parameter with `key` and the decoded bytes `value`.
    spec fn after(self, key: Seq<u8>, value: Seq<u8>) -> Self;

    /// What taking the parameter with `key` and the value `value`, which borrows from the URI,
    /// answers. Unless a state says otherwise, that is what `taken` answers for the decoded bytes.
    open spec fn taken_borrowed(self, key: Seq<u8>, value: Param<'de>) -> Result<
        ParamKind,
        <Self::Value as DeserializationError>::Error,
    > {
        self.taken(key, value.decoded())
    }

    /// The state after taking the parameter with `key` and the value `value`, which borrows from
    /// the URI. Unless a state says otherwise (one that keeps `value` itself, for instance), that
    /// is `after` for the decoded bytes.
    open spec fn after_borrowed(self, key: Seq<u8>, value: Param<'de>) -> Self {
        self.after(key, value.decoded())
    }

    /// Deserializes a parameter whose value may borrow from the URI, so that the state may keep
    /// it without a copy. A state that does not keep values can call `deserialize_temp`.
    fn deserialize_borrowed(&mut self, key: &'de str, value: Param<'de>) -> (r: Result<
        ParamKind,
        <Self::Value as DeserializationError>::Error,
    >)
        ensures
            r == old(self).taken_borrowed(bytes_of(key), value),
            *final(self) == old(self).after_borrowed(bytes_of(key), value),
            r matches Ok(kind) ==> ((kind == ParamKind::Known) == Self::recognises(bytes_of(key))),
    ;

    /// Deserializes a parameter whose value is only lent for the call.
    fn deserialize_temp(&mut self, key: &str, value: Param<'_>) -> (r: Result<
        ParamKind,
        <Self::Value as DeserializationError>::Error,
    >)
        ensures
            r == old(self).taken(bytes_of(key), value.decoded()),
            *final(self) == old(self).after(bytes_of(key), value.decoded()),
            r matches Ok(kind) ==> ((kind == ParamKind::Known) == Self::recognises(bytes_of(key))),
    ;

    /// Produces the value out of the parameters seen.
    fn finalize(self) -> (r: Result<Self::Value, <Self::Value as DeserializationError>::Error>)
        ensures
            r == self.finalized(),
    ;
}

/// The reason a URI was refused, apart from errors of the extras.
#[derive(Debug, Clone, PartialEq, Eq)]
pub enum UriError {
    /// The text is shorter than the scheme.
    TooShort,
    /// The text does not start with `bitcoin:` (in any case).
    InvalidScheme,
    /// The address was refused.
    Address(AddressError),
    /// A parameter has no `=`; it holds the parameter.
    MissingEquals(String),
    /// `amount` occurs twice.
    DuplicateAmount,
    /// `amount` is not a valid amount of bitcoins.
    Amount,
    /// `label` occurs twice.
    DuplicateLabel,
    /// `message` occurs twice.
    DuplicateMessage,
    /// The value of a parameter is not valid percent-encoding; it holds the key.
    PercentDecode(String),
    /// A `req-` parameter that nothing recognised; it holds the key.
    UnknownRequiredParameter(String),
}

/// [`UriError`] with its texts as UTF-8 bytes.
pub ghost enum UriErrorView {
    TooShort,
    InvalidScheme,
    Address(AddressError),
    MissingEquals(Seq<u8>),
    DuplicateAmount,
    Amount,
    DuplicateLabel,
    DuplicateMessage,
    PercentDecode(Seq<u8>),
    UnknownRequiredParameter(Seq<u8>),
}

impl View for UriError {
    type V = UriErrorView;

    open spec fn view(&self) -> UriErrorView {
        match self {
            UriError::TooShort => UriErrorView::TooShort,
            UriError::InvalidScheme => UriErrorView::InvalidScheme,
            UriError::Address(e) => UriErrorView::Address(*e),
            UriError::MissingEquals(p) => UriErrorView::MissingEquals(string_bytes(*p)),
            UriError::DuplicateAmount => UriErrorView::DuplicateAmount,
            UriError::Amount => UriErrorView::Amount,
            UriError::DuplicateLabel => UriErrorView::DuplicateLabel,
            UriError::DuplicateMessage => UriErrorView::DuplicateMessage,
            UriError::PercentDecode(k) => UriErrorView::PercentDecode(string_bytes(*k)),
            UriError::UnknownRequiredParameter(k) => UriErrorView::UnknownRequiredParameter(
                string_bytes(*k),
            ),
        }
    }
}

/// Error of parsing: either the URI itself or the extras refused it.
#[derive(Debug, Clone)]
pub enum Error<T> {
    /// The URI is not valid.
    Uri(UriError),
    /// The extras refused a parameter or failed to finalize.
    Extras(T),
}

// ---------------------------------------------------------------------------------------------
// The grammar, on bytes.
/// `bitcoin:` in bytes.
pub open spec fn scheme_bytes() -> Seq<u8> {
    seq![98u8, 105u8, 116u8, 99u8, 111u8, 105u8, 110u8, 58u8]
}

/// `amount` in bytes.
pub open spec fn amount_key() -> Seq<u8> {
    seq![97u8, 109u8, 111u8, 117u8, 110u8, 116u8]
}

/// `label` in bytes.
pub open spec fn label_key() -> Seq<u8> {
    seq![108u8, 97u8, 98u8, 101u8, 108u8]
}

/// `message` in bytes.
pub open spec fn message_key() -> Seq<u8> {
    seq![109u8, 101u8, 115u8, 115u8, 97u8, 103u8, 101u8]
}

/// `req-` in bytes.
pub open spec fn required_prefix() -> Seq<u8> {
    seq![114u8, 101u8, 113u8, 45u8]
}

/// The lower-case form of an ASCII byte; other bytes are unchanged.
pub open spec fn ascii_lower(b: u8) -> u8 {
    if 65 <= b <= 90 {
        (b + 32) as u8
    } else {
        b
    }
}

/// The text starts with `bitcoin:`, in any case.
pub open spec fn has_scheme(b: Seq<u8>) -> bool {
    b.len() >= 8 && forall|i: int| 0 <= i < 8 ==> #[trigger] ascii_lower(b[i]) == scheme_bytes()[i]
}

/// The scheme is read without regard to ASCII case, as BIP21 and RFC 3986 say: a text has the
/// scheme exactly when its first eight bytes spell `bitcoin:`, each letter in lower or upper
/// case (so `bitcoin:`, `BITCOIN:` and `BitCoin:` all do), and nothing else does.
pub proof fn law_scheme_is_case_insensitive(b: Seq<u8>)
    ensures
        has_scheme(b) <==> (b.len() >= 8 && forall|i: int|
            0 <= i < 8 ==> #[trigger] b[i] == seq![
                'b' as u8,
                'i' as u8,
                't' as u8,
                'c' as u8,
                'o' as u8,
                'i' as u8,
                'n' as u8,
                ':' as u8,
            ][i] || b[i] == seq![
                'B' as u8,
                'I' as u8,
                'T' as u8,
                'C' as u8,
                'O' as u8,
                'I' as u8,
                'N' as u8,
                ':' as u8,
            ][i]),
{
    let lower = seq!['b' as u8, 'i' as u8, 't' as u8, 'c' as u8, 'o' as u8, 'i' as u8, 'n' as u8, ':' as u8];
    let upper = seq!['B' as u8, 'I' as u8, 'T' as u8, 'C' as u8, 'O' as u8, 'I' as u8, 'N' as u8, ':' as u8];
    assert(lower =~= scheme_bytes());
    if b.len() >= 8 {
        assert forall|i: int| 0 <= i < 8 implies (ascii_lower(#[trigger] b[i]) == scheme_bytes()[i]
            <==> (b[i] == lower[i] || b[i] == upper[i])) by {
            assert(0 <= i < 8);
        }
    }
}

/// A key of a parameter that must be understood.
pub open spec fn is_required_key(key: Seq<u8>) -> bool {
    key.len() >= 4 && key.subrange(0, 4) == required_prefix()
}

/// Cuts `b` at its first byte `c`: what precedes it, and what follows it if there is one.
pub open spec fn split_first(b: Seq<u8>, c: u8) -> (Seq<u8>, Option<Seq<u8>>) {
    match first_index(b, c) {
        Some(i) => (b.subrange(0, i), Some(b.subrange(i + 1, b.len() as int))),
        None => (b, None),
    }
}

/// The text after the scheme.
pub open spec fn uri_body(b: Seq<u8>) -> Seq<u8> {
    b.subrange(8, b.len() as int)
}

/// The address part: after the scheme, up to the first `?`.
pub open spec fn address_part(b: Seq<u8>) -> Seq<u8> {
    split_first(uri_body(b), 63).0
}

/// The query: after the first `?`, if there is one.
pub open spec fn query_part(b: Seq<u8>) -> Option<Seq<u8>> {
    split_first(uri_body(b), 63).1
}

/// The parameters of a query, split at every `&`.
pub open spec fn param_list(q: Seq<u8>) -> Seq<Seq<u8>>
    decreases q.len(),
{
    match split_first(q, 38) {
        (head, None) => seq![head],
        (head, Some(tail)) => {
            proof {
                lemma_first_index(q, 38);
            }
            seq![head] + param_list(tail)
        },
    }
}

/// The parameters of a URI.
pub open spec fn uri_params(b: Seq<u8>) -> Seq<Seq<u8>> {
    match query_part(b) {
        Some(q) => param_list(q),
        None => Seq::empty(),
    }
}

/// The fields that the parameters of a URI give.
pub ghost struct UriFields {
    pub amount: Option<u64>,
    pub label: Option<Seq<u8>>,
    pub message: Option<Seq<u8>>,
}

/// No parameter seen yet.
pub open spec fn no_fields() -> UriFields {
    UriFields { amount: None, label: None, message: None }
}

/// The effect of one parameter, `recognised` telling the keys the extras recognise.
pub open spec fn param_step(
    fields: UriFields,
    param: Seq<u8>,
    recognised: spec_fn(Seq<u8>) -> bool,
) -> Result<UriFields, UriErrorView> {
    match split_first(param, 61) {
        (_, None) => Err(UriErrorView::MissingEquals(param)),
        (key, Some(value)) => if key == amount_key() {
            if fields.amount is Some {
                Err(UriErrorView::DuplicateAmount)
            } else {
                match btc_amount(decode_utf8(value)) {
                    Some(sats) => Ok(UriFields { amount: Some(sats), ..fields }),
                    None => Err(UriErrorView::Amount),
                }
            }
        } else if key == label_key() {
            if fields.label is Some {
                Err(UriErrorView::DuplicateLabel)
            } else if !percent_valid(value) {
                Err(UriErrorView::PercentDecode(key))
            } else {
                Ok(UriFields { label: Some(percent_decoded(value)), ..fields })
            }
        } else if key == message_key() {
            if fields.message is Some {
                Err(UriErrorView::DuplicateMessage)
            } else if !percent_valid(value) {
                Err(UriErrorView::PercentDecode(key))
            } else {
                Ok(UriFields { message: Some(percent_decoded(value)), ..fields })
            }
        } else if !percent_valid(value) {
            Err(UriErrorView::PercentDecode(key))
        } else if is_required_key(key) && !recognised(key) {
            Err(UriErrorView::UnknownRequiredParameter(key))
        } else {
            Ok(fields)
        },
    }
}

/// The keys that a state of type `S` recognises.
pub open spec fn recognised_keys<'a, S: DeserializationState<'a>>() -> spec_fn(Seq<u8>) -> bool {
    |k: Seq<u8>| S::recognises(k)
}

/// The effect of a list of parameters, in order; the first refused one decides the error.
pub open spec fn params_check(ps: Seq<Seq<u8>>, recognised: spec_fn(Seq<u8>) -> bool) -> Result<
    UriFields,
    UriErrorView,
>
    decreases ps.len(),
{
    if ps.len() == 0 {
        Ok(no_fields())
    } else {
        match params_check(ps.drop_last(), recognised) {
            Err(e) => Err(e),
            Ok(fields) => param_step(fields, ps.last(), recognised),
        }
    }
}

/// What a URI text stands for, apart from its extras: the canonical address text and the
/// fields, or the first reason to refuse it.
pub open spec fn uri_check(b: Seq<u8>, recognised: spec_fn(Seq<u8>) -> bool) -> Result<
    (Seq<char>, UriFields),
    UriErrorView,
> {
    if b.len() < 8 {
        Err(UriErrorView::TooShort)
    } else if !has_scheme(b) {
        Err(UriErrorView::InvalidScheme)
    } else {
        match canonical_address(decode_utf8(address_part(b))) {
            None => Err(UriErrorView::Address(AddressError::Invalid)),
            Some(address) => match params_check(uri_params(b), recognised) {
                Err(e) => Err(e),
                Ok(fields) => Ok((address, fields)),
            },
        }
    }
}

/// An error among the first parameters stays the error of the whole list.
pub proof fn lemma_params_check_error_stays(
    a: Seq<Seq<u8>>,
    c: Seq<Seq<u8>>,
    recognised: spec_fn(Seq<u8>) -> bool,
)
    requires
        params_check(a, recognised) is Err,
    ensures
        params_check(a + c, recognised) == params_check(a, recognised),
    decreases c.len(),
{
    if c.len() == 0 {
        assert(a + c =~= a);
    } else {
        lemma_params_check_error_stays(a, c.drop_last(), recognised);
        assert((a + c).drop_last() =~= a + c.drop_last());
    }
}

/// One more parameter: its step applied to what the others gave.
pub proof fn lemma_params_check_push(
    done: Seq<Seq<u8>>,
    p: Seq<u8>,
    fields: UriFields,
    recognised: spec_fn(Seq<u8>) -> bool,
)
    requires
        params_check(done, recognised) == Ok::<UriFields, UriErrorView>(fields),
    ensures
        params_check(done.push(p), recognised) == param_step(fields, p, recognised),
{
    assert(done.push(p).drop_last() =~= done);
    assert(done.push(p).last() == p);
}

/// A key that the URI does not claim for itself.
pub open spec fn is_extra_key(key: Seq<u8>) -> bool {
    key != amount_key() && key != label_key() && key != message_key()
}

/// Why a URI was refused: by its own grammar, or by its extras.
pub ghost enum Refusal<E> {
    Uri(UriErrorView),
    Extras(E),
}

/// The key and the decoded value that a parameter hands to the extras: a parameter with a
/// value, whose key is not the URI's own and whose value is valid percent-encoding.
pub open spec fn extra_param(param: Seq<u8>) -> Option<(Seq<u8>, Seq<u8>)> {
    match split_first(param, 61) {
        (key, Some(value)) => if is_extra_key(key) && percent_valid(value) {
            Some((key, percent_decoded(value)))
        } else {
            None
        },
        (_, None) => None,
    }
}

/// One parameter, seen by the URI and by the extras in state `st`, `value` being the parameter
/// handed to the extras: they take it first; their error stops the parse, else the URI's own
/// step decides.
pub open spec fn full_step<'a, S: DeserializationState<'a>>(
    st: S,
    fields: UriFields,
    param: Seq<u8>,
    value: Param<'a>,
) -> Result<(UriFields, S), Refusal<<S::Value as DeserializationError>::Error>> {
    let recognised = recognised_keys::<S>();
    match extra_param(param) {
        Some((key, _)) => match st.taken_borrowed(key, value) {
            Err(e) => Err(Refusal::Extras(e)),
            Ok(_) => match param_step(fields, param, recognised) {
                Err(e) => Err(Refusal::Uri(e)),
                Ok(f) => Ok((f, st.after_borrowed(key, value))),
            },
        },
        None => match param_step(fields, param, recognised) {
            Err(e) => Err(Refusal::Uri(e)),
            Ok(f) => Ok((f, st)),
        },
    }
}

/// A list of parameters, in order, from the extras' state `init`, the `i`-th being handed as
/// `values[i]`; the first refusal decides.
pub open spec fn params_fold<'a, S: DeserializationState<'a>>(
    ps: Seq<Seq<u8>>,
    values: Seq<Param<'a>>,
    init: S,
) -> Result<(UriFields, S), Refusal<<S::Value as DeserializationError>::Error>>
    decreases ps.len(),
{
    if ps.len() == 0 {
        Ok((no_fields(), init))
    } else {
        match params_fold(ps.drop_last(), values, init) {
            Err(r) => Err(r),
            Ok((fields, st)) => full_step(st, fields, ps.last(), values[ps.len() - 1]),
        }
    }
}

/// The parameters handed to the extras, as far as parsing went: each extra parameter's value
/// is handed as its encoded text, which decodes to the value's bytes; parsing went through all
/// parameters, or stopped at a refusal at the last one handed.
pub open spec fn handed<'a, S: DeserializationState<'a>>(
    ps: Seq<Seq<u8>>,
    values: Seq<Param<'a>>,
    init: S,
) -> bool {
    &&& handed_so_far(ps, values)
    &&& values.len() == ps.len() || params_fold(ps.take(values.len() as int), values, init) is Err
}

/// The part of a URI before its parameters: the canonical address text, or the reason to refuse
/// the text.
pub open spec fn uri_head(b: Seq<u8>) -> Result<Seq<char>, UriErrorView> {
    if b.len() < 8 {
        Err(UriErrorView::TooShort)
    } else if !has_scheme(b) {
        Err(UriErrorView::InvalidScheme)
    } else {
        match canonical_address(decode_utf8(address_part(b))) {
            None => Err(UriErrorView::Address(AddressError::Invalid)),
            Some(address) => Ok(address),
        }
    }
}

/// What a URI text gives with extras starting in state `init` and the parameters handed as
/// `values`: the canonical address text, the fields and the extras' value, or the first refusal.
pub open spec fn parse_outcome<'a, S: DeserializationState<'a>>(
    b: Seq<u8>,
    init: S,
    values: Seq<Param<'a>>,
) -> Result<(Seq<char>, UriFields, S::Value), Refusal<<S::Value as DeserializationError>::Error>> {
    match uri_head(b) {
        Err(e) => Err(Refusal::Uri(e)),
        Ok(address) => match params_fold(uri_params(b), values, init) {
            Err(r) => Err(r),
            Ok((fields, st)) => match st.finalized() {
                Err(e) => Err(Refusal::Extras(e)),
                Ok(v) => Ok((address, fields, v)),
            },
        },
    }
}

/// The values handed to the extras while parsing `b`: none is owed when the text is refused
/// before its parameters.
pub open spec fn handed_while_parsing<'a, S: DeserializationState<'a>>(
    b: Seq<u8>,
    values: Seq<Param<'a>>,
    init: S,
) -> bool {
    uri_head(b) is Ok ==> handed(uri_params(b), values, init)
}

/// `r` is what parsing the bytes `b` gives, with extras starting in state `init` and the
/// parameters handed as `values`. Label and message stay encoded, decoded on demand.
pub open spec fn parse_result<'a, 'u, S: DeserializationState<'a>>(
    b: Seq<u8>,
    init: S,
    values: Seq<Param<'a>>,
    r: Result<Uri<'u, NetworkUnchecked, S::Value>, Error<<S::Value as DeserializationError>::Error>>,
) -> bool {
    match parse_outcome(b, init, values) {
        Ok((address, fields, v)) => r matches Ok(uri) && uri.address.text() == address
            && uri.amount == fields.amount && uri.extras == v && (match fields.label {
            Some(l) => uri.label matches Some(p) && p.decoded() == l,
            None => uri.label is None,
        }) && (match fields.message {
            Some(m) => uri.message matches Some(p) && p.decoded() == m,
            None => uri.message is None,
        }),
        Err(Refusal::Uri(e)) => r matches Err(Error::Uri(x)) && x@ == e,
        Err(Refusal::Extras(e)) => r == Err::<Uri<'u, NetworkUnchecked, S::Value>, _>(Error::Extras(e)),
    }
}

/// Label and message are kept as the encoded text of the URI, decoded on demand.
pub open spec fn kept_encoded<'u, T>(uri: Uri<'u, NetworkUnchecked, T>) -> bool {
    &&& uri.label matches Some(p) ==> p.is_encoded()
    &&& uri.message matches Some(p) ==> p.is_encoded()
}

/// `r` is what parsing the bytes `b` gives, with extras starting in the state that
/// `S::default()` returned and each extra parameter handed as its encoded text.
pub open spec fn parse_from_default<'a, 'u, S: DeserializationState<'a> + Default>(
    b: Seq<u8>,
    r: Result<Uri<'u, NetworkUnchecked, S::Value>, Error<<S::Value as DeserializationError>::Error>>,
) -> bool {
    exists|init: S, values: Seq<Param<'a>>|
        #![trigger call_ensures(S::default, (), init), handed_while_parsing(b, values, init)]
        call_ensures(S::default, (), init) && handed_while_parsing(b, values, init)
            && parse_result(b, init, values, r)
}

/// With no extras, the fold refuses exactly what the URI's own grammar refuses, and the state
/// stays empty.
pub proof fn lemma_empty_extras_fold<'a>(ps: Seq<Seq<u8>>, values: Seq<Param<'a>>)
    ensures
        params_fold::<crate::EmptyState>(ps, values, crate::EmptyState) == (match params_check(
            ps,
            recognised_keys::<crate::EmptyState>(),
        ) {
            Ok(f) => Ok((f, crate::EmptyState)),
            Err(e) => Err(Refusal::<core::convert::Infallible>::Uri(e)),
        }),
    decreases ps.len(),
{
    if ps.len() > 0 {
        lemma_empty_extras_fold(ps.drop_last(), values);
    }
}

/// The fold of a list reads the handed values only at the list's positions.
pub proof fn lemma_params_fold_values<'a, S: DeserializationState<'a>>(
    ps: Seq<Seq<u8>>,
    v1: Seq<Param<'a>>,
    v2: Seq<Param<'a>>,
    init: S,
)
    requires
        forall|i: int| 0 <= i < ps.len() ==> v1[i] == v2[i],
    ensures
        params_fold(ps, v1, init) == params_fold(ps, v2, init),
    decreases ps.len(),
{
    if ps.len() > 0 {
        lemma_params_fold_values(ps.drop_last(), v1, v2, init);
    }
}

/// A refusal among the first parameters stays the refusal of the whole list.
pub proof fn lemma_params_fold_error_stays<'a, S: DeserializationState<'a>>(
    a: Seq<Seq<u8>>,
    c: Seq<Seq<u8>>,
    values: Seq<Param<'a>>,
    init: S,
)
    requires
        params_fold(a, values, init) is Err,
    ensures
        params_fold(a + c, values, init) == params_fold(a, values, init),
    decreases c.len(),
{
    if c.len() == 0 {
        assert(a + c =~= a);
    } else {
        lemma_params_fold_error_stays(a, c.drop_last(), values, init);
        assert((a + c).drop_last() =~= a + c.drop_last());
    }
}

/// One more parameter, handed as `v`: its full step applied to what the others gave.
pub proof fn lemma_params_fold_push<'a, S: DeserializationState<'a>>(
    done: Seq<Seq<u8>>,
    values: Seq<Param<'a>>,
    p: Seq<u8>,
    v: Param<'a>,
    init: S,
)
    requires
        values.len() == done.len(),
        params_fold(done, values, init) is Ok,
    ensures
        params_fold(done, values.push(v), init) == params_fold(done, values, init),
        params_fold(done.push(p), values.push(v), init) == full_step(
            params_fold(done, values, init)->Ok_0.1,
            params_fold(done, values, init)->Ok_0.0,
            p,
            v,
        ),
{
    lemma_params_fold_values(done, values, values.push(v), init);
    assert(done.push(p).drop_last() =~= done);
    assert(done.push(p).last() == p);
}

/// Each of the first values is handed as its parameter's encoded text.
pub open spec fn handed_so_far<'a>(ps: Seq<Seq<u8>>, values: Seq<Param<'a>>) -> bool {
    &&& values.len() <= ps.len()
    &&& forall|i: int|
        0 <= i < values.len() ==> (extra_param(#[trigger] ps[i]) matches Some((_, d)) ==> values[i].decoded()
            == d && values[i].is_encoded())
}

/// One more parameter, handed as `v`, after parameters that were all accepted.
pub proof fn lemma_params_fold_step<'a, S: DeserializationState<'a>>(
    b: Seq<u8>,
    done: Seq<Seq<u8>>,
    p: Seq<u8>,
    later: Seq<Seq<u8>>,
    values: Seq<Param<'a>>,
    v: Param<'a>,
    init: S,
)
    requires
        uri_params(b) == done.push(p) + later,
        values.len() == done.len(),
        handed_so_far(done, values),
        extra_param(p) matches Some((_, d)) ==> v.decoded() == d && v.is_encoded(),
        params_fold(done, values, init) is Ok,
    ensures
        handed_so_far(done.push(p), values.push(v)),
        params_fold(done.push(p), values.push(v), init) == full_step(
            params_fold(done, values, init)->Ok_0.1,
            params_fold(done, values, init)->Ok_0.0,
            p,
            v,
        ),
        full_step(
            params_fold(done, values, init)->Ok_0.1,
            params_fold(done, values, init)->Ok_0.0,
            p,
            v,
        ) is Err ==> handed_while_parsing(b, values.push(v), init) && params_fold(
            uri_params(b),
            values.push(v),
            init,
        ) == params_fold(done.push(p), values.push(v), init),
{
    let all = uri_params(b);
    lemma_params_fold_push(done, values, p, v, init);
    let vs = values.push(v);
    assert forall|i: int| 0 <= i < vs.len() implies (extra_param(#[trigger] done.push(p)[i]) matches Some((_, d))
        ==> vs[i].decoded() == d && vs[i].is_encoded()) by {
        if i < values.len() {
            assert(done.push(p)[i] == done[i]);
            assert(vs[i] == values[i]);
        }
    }
    if params_fold(done.push(p), vs, init) is Err {
        lemma_params_fold_error_stays(done.push(p), later, vs, init);
        assert(all.take(vs.len() as int) =~= done.push(p));
        assert forall|i: int| 0 <= i < vs.len() implies (extra_param(#[trigger] all[i]) matches Some((_, d))
            ==> vs[i].decoded() == d && vs[i].is_encoded()) by {
            assert(all[i] == done.push(p)[i]);
        }
    }
}

/// A parameter that was accepted has a value, and its key, if required and not the URI's own,
/// is recognised.
pub open spec fn param_accepted(param: Seq<u8>, recognised: spec_fn(Seq<u8>) -> bool) -> bool {
    let (key, value) = split_first(param, 61);
    &&& value is Some
    &&& is_required_key(key) && is_extra_key(key) ==> recognised(key)
}

/// Every parameter of an accepted list was accepted.
pub proof fn lemma_params_accepted(ps: Seq<Seq<u8>>, recognised: spec_fn(Seq<u8>) -> bool)
    requires
        params_check(ps, recognised) is Ok,
    ensures
        forall|i: int| 0 <= i < ps.len() ==> param_accepted(#[trigger] ps[i], recognised),
    decreases ps.len(),
{
    if ps.len() > 0 {
        lemma_params_accepted(ps.drop_last(), recognised);
        assert forall|i: int| 0 <= i < ps.len() implies param_accepted(#[trigger] ps[i], recognised) by {
            if i < ps.len() - 1 {
                assert(ps[i] == ps.drop_last()[i]);
            }
        }
    }
}

/// BIP21's protection of required parameters: when parsing succeeds, every parameter of the URI
/// has a value, and every `req-` key that is not `amount`, `label` or `message` is one the
/// extras recognise. A URI with a required parameter that nothing understands is refused.
pub proof fn law_required_params_are_recognised<'a, S: DeserializationState<'a>, E>(
    string: &'a str,
    r: Result<Uri<'a, NetworkUnchecked, S::Value>, Error<E>>,
)
    requires
        parse_spec::<S, E>(string, r),
        r is Ok,
    ensures
        forall|i: int|
            0 <= i < uri_params(bytes_of(string)).len() ==> param_accepted(
                #[trigger] uri_params(bytes_of(string))[i],
                recognised_keys::<S>(),
            ),
{
    let b = bytes_of(string);
    assert(params_check(uri_params(b), recognised_keys::<S>()) is Ok);
    lemma_params_accepted(uri_params(b), recognised_keys::<S>());
}

// ---------------------------------------------------------------------------------------------
// Executable pieces.
/// Compares `k` with the word `w`.
fn is_word(k: &[u8], w: &[u8]) -> (r: bool)
    ensures
        r == (k@ == w@),
{
    if k.len() != w.len() {
        return false;
    }
    let mut i: usize = 0;
    while i < k.len()
        invariant
            i <= k@.len(),
            k@.len() == w@.len(),
            forall|j: int| 0 <= j < i ==> k@[j] == w@[j],
        decreases k@.len() - i,
    {
        if k[i] != w[i] {
            return false;
        }
        i += 1;
    }
    assert(k@ =~= w@);
    true
}

/// Whether `key` is `amount`.
fn is_amount_key(key: &[u8]) -> (r: bool)
    ensures
        r == (key@ == amount_key()),
{
    let w: [u8; 6] = [97, 109, 111, 117, 110, 116];
    proof {
        assert(w@ =~= amount_key());
    }
    is_word(key, &w)
}

/// Whether `key` is `label`.
fn is_label_key(key: &[u8]) -> (r: bool)
    ensures
        r == (key@ == label_key()),
{
    let w: [u8; 5] = [108, 97, 98, 101, 108];
    proof {
        assert(w@ =~= label_key());
    }
    is_word(key, &w)
}

/// Whether `key` is `message`.
fn is_message_key(key: &[u8]) -> (r: bool)
    ensures
        r == (key@ == message_key()),
{
    let w: [u8; 7] = [109, 101, 115, 115, 97, 103, 101];
    proof {
        assert(w@ =~= message_key());
    }
    is_word(key, &w)
}

/// Whether `key` starts with `req-`.
pub fn is_required(key: &str) -> (r: bool)
    ensures
        r == is_required_key(bytes_of(key)),
{
    let k = key.as_bytes();
    if k.len() < 4 {
        return false;
    }
    let r = k[0] == 114 && k[1] == 101 && k[2] == 113 && k[3] == 45;
    proof {
        if r {
            assert(k@.subrange(0, 4) =~= required_prefix());
        } else {
            if k@.subrange(0, 4) == required_prefix() {
                assert(k@.subrange(0, 4)[0] == k@[0]);
                assert(k@.subrange(0, 4)[1] == k@[1]);
                assert(k@.subrange(0, 4)[2] == k@[2]);
                assert(k@.subrange(0, 4)[3] == k@[3]);
            }
        }
    }
    r
}

/// Whether the text starts with `bitcoin:`, in any case.
fn check_scheme(b: &[u8]) -> (r: bool)
    requires
        b@.len() >= 8,
    ensures
        r == has_scheme(b@),
        r ==> ascii_prefix(b@, 8),
{
    let w: [u8; 8] = [98, 105, 116, 99, 111, 105, 110, 58];
    proof {
        assert(w@ =~= scheme_bytes());
    }
    let mut i: usize = 0;
    while i < 8
        invariant
            i <= 8,
            b@.len() >= 8,
            w@ == scheme_bytes(),
            forall|j: int| 0 <= j < i ==> #[trigger] ascii_lower(b@[j]) == scheme_bytes()[j],
        decreases 8 - i,
    {
        let c = b[i];
        let lower = if 65 <= c && c <= 90 {
            c + 32
        } else {
            c
        };
        if lower != w[i] {
            proof {
                assert(ascii_lower(b@[i as int]) != scheme_bytes()[i as int]);
            }
            return false;
        }
        i += 1;
    }
    proof {
        assert forall|j: int| 0 <= j < 8 implies #[trigger] b@[j] < 128 by {
            assert(ascii_lower(b@[j]) == scheme_bytes()[j]);
        }
    }
    true
}

/// An owned copy of `s`, for the errors that hold a key or a parameter.
fn owned_text(s: &str) -> (r: String)
    ensures
        string_bytes(r) == bytes_of(s),
{
    s.to_owned()
}

/// What parsing promises of `r`, the result of parsing `string` with extras collected by `S`.
pub open spec fn parse_spec<'a, S: DeserializationState<'a>, E>(
    string: &'a str,
    r: Result<Uri<'a, NetworkUnchecked, S::Value>, Error<E>>,
) -> bool {
    let spec = uri_check(bytes_of(string), recognised_keys::<S>());
    &&& spec is Err ==> r is Err
    &&& r matches Err(Error::Uri(e)) ==> spec == Err::<(Seq<char>, UriFields), UriErrorView>(e@)
    &&& r matches Ok(uri) ==> (spec matches Ok((address, fields)) && uri.address.text() == address
        && uri.amount == fields.amount && (match fields.label {
        Some(l) => uri.label matches Some(p) && p.decoded() == l,
        None => uri.label is None,
    }) && (match fields.message {
        Some(m) => uri.message matches Some(p) && p.decoded() == m,
        None => uri.message is None,
    }))
}

impl<'a, T: DeserializeParams<'a>> Uri<'a, NetworkUnchecked, T> {
    /// Parses a BIP21 URI, borrowing parameter values from `string`.
    ///
    /// The result is refused with [`Error::Uri`] exactly as `uri_check` says, with the keys
    /// that the extras recognise; the extras may refuse it too.
    pub fn parse(string: &'a str) -> (r: Result<Self, Error<<T as DeserializationError>::Error>>)
        ensures
            parse_spec::<T::DeserializationState, <T as DeserializationError>::Error>(string, r),
            parse_from_default::<T::DeserializationState>(bytes_of(string), r),
            r matches Ok(uri) ==> kept_encoded(uri),
    {
        parse_with_state::<T::DeserializationState>(string)
    }
}

/// Parses a BIP21 URI, collecting the extras with a state of type `S`.
pub fn parse_with_state<'a, S: DeserializationState<'a> + Default>(string: &'a str) -> (r: Result<
    Uri<'a, NetworkUnchecked, S::Value>,
    Error<<S::Value as DeserializationError>::Error>,
>)
    ensures
        parse_spec::<S, <S::Value as DeserializationError>::Error>(string, r),
        parse_from_default::<S>(bytes_of(string), r),
        r matches Ok(uri) ==> kept_encoded(uri),
{
    let ghost recognised = recognised_keys::<S>();
    let ghost all = bytes_of(string);
    let mut extras = S::default();
    let ghost init = extras;
    let b = string.as_bytes();
    if b.len() < 8 {
        proof {
            assert(handed_while_parsing(all, Seq::<Param<'a>>::empty(), init));
        }
        return Err(Error::Uri(UriError::TooShort));
    }
    if !check_scheme(b) {
        proof {
            assert(handed_while_parsing(all, Seq::<Param<'a>>::empty(), init));
        }
        return Err(Error::Uri(UriError::InvalidScheme));
    }
    let rest = skip_ascii(string, 8);
    proof {
        lemma_first_index(bytes_of(rest), 63);
    }
    let (address_text, query) = split_once_byte(rest, 63);
    proof {
        assert(bytes_of(address_text) == address_part(all));
        assert(address_text@ == decode_utf8(bytes_of(address_text)));
    }
    let address = match Address::parse(address_text) {
        Ok(a) => a,
        Err(e) => {
            proof {
                assert(handed_while_parsing(all, Seq::<Param<'a>>::empty(), init));
            }
            return Err(Error::Uri(UriError::Address(e)));
        },
    };
    let mut amount: Option<u64> = None;
    let mut label: Option<Param<'a>> = None;
    let mut message: Option<Param<'a>> = None;
    let ghost mut done: Seq<Seq<u8>> = Seq::empty();
    let ghost mut values: Seq<Param<'a>> = Seq::empty();
    let ghost mut fields = no_fields();
    match query {
        None => {
            proof {
                assert(query_part(all) is None);
            }
        },
        Some(q) => {
            let mut remaining: &'a str = q;
            proof {
                assert(uri_params(all) == param_list(bytes_of(q)));
                assert(done + param_list(bytes_of(q)) =~= param_list(bytes_of(q)));
            }
            loop
                invariant_except_break
                    uri_params(all) == done + param_list(bytes_of(remaining)),
                invariant
                    all == bytes_of(string),
                    recognised == recognised_keys::<S>(),
                    call_ensures(S::default, (), init),
                    all.len() >= 8 && has_scheme(all),
                    canonical_address(decode_utf8(address_part(all))) == Some(address.text()),
                    values.len() == done.len(),
                    handed_so_far(done, values),
                    params_fold(done, values, init) matches Ok((f, st)) && f == fields && st == extras,
                    params_check(done, recognised) == Ok::<UriFields, UriErrorView>(fields),
                    amount == fields.amount,
                    label matches Some(p) ==> p.is_encoded(),
                    message matches Some(p) ==> p.is_encoded(),
                    match fields.label {
                        Some(l) => label matches Some(p) && p.decoded() == l,
                        None => label is None,
                    },
                    match fields.message {
                        Some(m) => message matches Some(p) && p.decoded() == m,
                        None => message is None,
                    },
                    uri_check(all, recognised) == (match params_check(uri_params(all), recognised) {
                        Err(e) => Err(e),
                        Ok(f) => Ok((address.text(), f)),
                    }),
                ensures
                    uri_params(all) == done,
                    params_check(done, recognised) == Ok::<UriFields, UriErrorView>(fields),
                    values.len() == done.len(),
                    handed_so_far(done, values),
                    params_fold(done, values, init) matches Ok((f, st)) && f == fields && st == extras,
                    amount == fields.amount,
                    label matches Some(p) ==> p.is_encoded(),
                    message matches Some(p) ==> p.is_encoded(),
                    match fields.label {
                        Some(l) => label matches Some(p) && p.decoded() == l,
                        None => label is None,
                    },
                    match fields.message {
                        Some(m) => message matches Some(p) && p.decoded() == m,
                        None => message is None,
                    },
                decreases bytes_of(remaining).len(),
            {
                proof {
                    lemma_first_index(bytes_of(remaining), 38);
                }
                let (param, next) = split_once_byte(remaining, 38);
                let ghost p = bytes_of(param);
                let ghost later: Seq<Seq<u8>> = match next {
                    Some(t) => param_list(bytes_of(t)),
                    None => Seq::empty(),
                };
                proof {
                    assert(param_list(bytes_of(remaining)) == seq![p] + later);
                    assert(uri_params(all) == done.push(p) + later) by {
                        assert(done + (seq![p] + later) =~= done.push(p) + later);
                    }
                    lemma_params_check_push(done, p, fields, recognised);
                    lemma_first_index(p, 61);
                }
                let (key, value) = split_once_byte(param, 61);
                let ghost k = bytes_of(key);
                let ghost mut hv: Param<'a> = Param::of_str(param);
                let value = match value {
                    Some(v) => v,
                    None => {
                        let e = UriError::MissingEquals(owned_text(param));
                        proof {
                            assert(param_step(fields, p, recognised) == Err::<UriFields, UriErrorView>(e@));
                            lemma_params_check_error_stays(done.push(p), later, recognised);
                            lemma_params_fold_step(all, done, p, later, values, hv, init);
                        }
                        return Err(Error::Uri(e));
                    },
                };
                let ghost v = bytes_of(value);
                let kb = key.as_bytes();
                let ghost step = param_step(fields, p, recognised);
                if is_amount_key(kb) {
                    if amount.is_some() {
                        proof {
                            lemma_params_check_error_stays(done.push(p), later, recognised);
                            lemma_params_fold_step(all, done, p, later, values, hv, init);
                        }
                        return Err(Error::Uri(UriError::DuplicateAmount));
                    }
                    proof {
                        assert(value@ == decode_utf8(v));
                    }
                    match parse_btc_amount(value) {
                        Some(sats) => {
                            amount = Some(sats);
                            proof {
                                assert(split_first(p, 61) == (k, Some(v)));
                                assert(k == amount_key());
                            }
                        },
                        None => {
                            proof {
                                lemma_params_check_error_stays(done.push(p), later, recognised);
                                lemma_params_fold_step(all, done, p, later, values, hv, init);
                            }
                            return Err(Error::Uri(UriError::Amount));
                        },
                    }
                } else if is_label_key(kb) {
                    if label.is_some() {
                        proof {
                            lemma_params_check_error_stays(done.push(p), later, recognised);
                            lemma_params_fold_step(all, done, p, later, values, hv, init);
                        }
                        return Err(Error::Uri(UriError::DuplicateLabel));
                    }
                    match Param::decode(value) {
                        Ok(decoded) => {
                            label = Some(decoded);
                            proof {
                                assert(split_first(p, 61) == (k, Some(v)));
                                assert(k != amount_key());
                                assert(k == label_key());
                            }
                        },
                        Err(_) => {
                            let e = UriError::PercentDecode(owned_text(key));
                            proof {
                                lemma_params_check_error_stays(done.push(p), later, recognised);
                                lemma_params_fold_step(all, done, p, later, values, hv, init);
                            }
                            return Err(Error::Uri(e));
                        },
                    }
                } else if is_message_key(kb) {
                    if message.is_some() {
                        proof {
                            lemma_params_check_error_stays(done.push(p), later, recognised);
                            lemma_params_fold_step(all, done, p, later, values, hv, init);
                        }
                        return Err(Error::Uri(UriError::DuplicateMessage));
                    }
                    match Param::decode(value) {
                        Ok(decoded) => {
                            message = Some(decoded);
                            proof {
                                assert(split_first(p, 61) == (k, Some(v)));
                                assert(k != amount_key());
                                assert(k != label_key());
                            }
                        },
                        Err(_) => {
                            let e = UriError::PercentDecode(owned_text(key));
                            proof {
                                lemma_params_check_error_stays(done.push(p), later, recognised);
                                lemma_params_fold_step(all, done, p, later, values, hv, init);
                            }
                            return Err(Error::Uri(e));
                        },
                    }
                } else {
                    let decoded = match Param::decode(value) {
                        Ok(d) => d,
                        Err(_) => {
                            let e = UriError::PercentDecode(owned_text(key));
                            proof {
                                lemma_params_check_error_stays(done.push(p), later, recognised);
                                lemma_params_fold_step(all, done, p, later, values, hv, init);
                            }
                            return Err(Error::Uri(e));
                        },
                    };
                    proof {
                        hv = decoded;
                    }
                    match extras.deserialize_borrowed(key, decoded) {
                        Ok(kind) => {
                            proof {
                                assert(split_first(p, 61) == (k, Some(v)));
                                assert((kind == ParamKind::Known) == recognised(k));
                            }
                            if kind == ParamKind::Unknown && is_required(key) {
                                let e = UriError::UnknownRequiredParameter(owned_text(key));
                                proof {
                                    lemma_params_check_error_stays(
                                        done.push(p),
                                        later,
                                        recognised,
                                    );
                                    lemma_params_fold_step(all, done, p, later, values, hv, init);
                                }
                                return Err(Error::Uri(e));
                            }
                        },
                        Err(e) => {
                            proof {
                                lemma_params_fold_step(all, done, p, later, values, hv, init);
                            }
                            return Err(Error::Extras(e));
                        },
                    }
                }
                proof {
                    lemma_params_fold_step(all, done, p, later, values, hv, init);
                    fields = step->Ok_0;
                    done = done.push(p);
                    values = values.push(hv);
                }
                match next {
                    None => {
                        proof {
                            assert(later =~= Seq::<Seq<u8>>::empty());
                            assert(done + later =~= done);
                        }
                        break ;
                    },
                    Some(t) => {
                        remaining = t;
                    },
                }
            }
        },
    }
    proof {
        assert(uri_params(all) == done);
        assert(handed_while_parsing(all, values, init));
    }
    let extras = match extras.finalize() {
        Ok(value) => value,
        Err(e) => return Err(Error::Extras(e)),
    };
    Ok(Uri { address, amount, label, message, extras })
}

} // verus!
