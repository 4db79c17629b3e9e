//! Rust-idiomatic, compliant, flexible and performant BIP21 crate.
//!
//! * Rust-idiomatic: uses strong types, standard traits and other things
//! * Compliant: implements all requirements of BIP21, including protections to not forget about
//!              `req-`.
//! * Flexible: enables parsing/serializing additional arguments not defined by BIP21
//! * Performant: uses zero-copy deserialization and lazy evaluation wherever possible.
//!
//! Serialization and deserialization is inspired by `serde` with these important differences:
//!
//! * Deserialization signals if the field is known so that `req-` fields can be rejected.
//! * Much simpler API - we don't need all the features.
//! * Use of [`Param<'a>`] to enable lazy evaluation.
//!
//! ## Composable Extras
//!
//! Multiple `Extras` implementations compose as tuples: `(LightningExtras, PayjoinExtras)`
//! routes each parameter to the element that knows it.

pub mod address;
pub mod de;
pub mod param;
pub mod percent;
pub mod round_trip;
pub mod ser;
pub mod text;

pub use address::{Address, AddressError, Network, NetworkChecked, NetworkUnchecked};
pub use de::{DeserializationError, DeserializationState, DeserializeParams, ParamKind};
pub use param::{Param, ParamBytes, ParamBytesOwned};
pub use ser::{ChainedIterator, SerializeParams};

use vstd::prelude::*;
use crate::address::address_on_network;
use crate::text::bytes_of;

verus! {

/// Parsed BIP21 URI.
///
/// This struct represents all fields of BIP21 URI with the ability to add more extra fields using
/// the `extras` field. By default there are no extra fields so an empty implementation is used.
///
/// `NetVal` tells whether the address has been checked against a network.
#[derive(Debug, Clone)]
pub struct Uri<'a, NetVal = NetworkChecked, Extras = NoExtras> {
    /// The address provided in the URI.
    ///
    /// This field is mandatory because the address is mandatory in BIP21.
    pub address: Address<NetVal>,
    /// Number of satoshis requested as payment.
    pub amount: Option<u64>,
    /// The label of the address - e.g. name of the receiver.
    pub label: Option<Param<'a>>,
    /// Message that describes the transaction to the user.
    pub message: Option<Param<'a>>,
    /// Extra fields that can occur in a BIP21 URI.
    pub extras: Extras,
}

impl<'a, NetVal, T: Default> Uri<'a, NetVal, T> {
    /// Creates an URI with defaults.
    ///
    /// This sets all fields except `address` to default values.
    /// They can be overwritten in subsequent assignments before displaying the URI.
    pub fn new(address: Address<NetVal>) -> (uri: Self)
        ensures
            uri.address == address,
            uri.amount is None,
            uri.label is None,
            uri.message is None,
            call_ensures(T::default, (), uri.extras),
    {
        Uri { address, amount: None, label: None, message: None, extras: T::default() }
    }
}

impl<'a, NetVal, T> Uri<'a, NetVal, T> {
    /// Creates an URI with defaults.
    ///
    /// This sets all fields except `address` and `extras` to default values.
    /// They can be overwritten in subsequent assignments before displaying the URI.
    pub fn with_extras(address: Address<NetVal>, extras: T) -> (uri: Self)
        ensures
            uri.address == address,
            uri.amount is None,
            uri.label is None,
            uri.message is None,
            uri.extras == extras,
    {
        Uri { address, amount: None, label: None, message: None, extras }
    }
}

impl<'a, NetVal, T> Uri<'a, NetVal, T> {
    /// Decodes the parameters if encoded, making the lifetime static.
    pub fn into_owned(self) -> (r: Uri<'static, NetVal, T>)
        ensures
            r.address == self.address,
            r.amount == self.amount,
            r.extras == self.extras,
            match self.label {
                Some(p) => r.label matches Some(q) && q.decoded() == p.decoded(),
                None => r.label is None,
            },
            match self.message {
                Some(p) => r.message matches Some(q) && q.decoded() == p.decoded(),
                None => r.message is None,
            },
            r.label matches Some(q) ==> !q.is_encoded() && !q.borrows_source(),
            r.message matches Some(q) ==> !q.is_encoded() && !q.borrows_source(),
    {
        let label = match self.label {
            Some(p) => Some(p.decode_into_owned()),
            None => None,
        };
        let message = match self.message {
            Some(p) => Some(p.decode_into_owned()),
            None => None,
        };
        Uri { address: self.address, amount: self.amount, label, message, extras: self.extras }
    }
}

impl<'a, T> Uri<'a, NetworkUnchecked, T> {
    /// Checks whether the address belongs to `network`; the other fields stay as they are.
    pub fn require_network(self, network: Network) -> (r: Result<
        Uri<'a, NetworkChecked, T>,
        AddressError,
    >)
        ensures
            address_on_network(self.address.text(), network) ==> (r matches Ok(u)
                && u.address.text() == self.address.text() && u.amount == self.amount && u.label
                == self.label && u.message == self.message && u.extras == self.extras),
            !address_on_network(self.address.text(), network) ==> (r matches Err(e) && e
                == AddressError::WrongNetwork),
    {
        match self.address.require_network(network) {
            Ok(address) => Ok(
                Uri {
                    address,
                    amount: self.amount,
                    label: self.label,
                    message: self.message,
                    extras: self.extras,
                },
            ),
            Err(e) => Err(e),
        }
    }

    /// Marks the address checked without checking it; the other fields stay as they are.
    pub fn assume_checked(self) -> (r: Uri<'a, NetworkChecked, T>)
        ensures
            r.address.text() == self.address.text(),
            r.amount == self.amount,
            r.label == self.label,
            r.message == self.message,
            r.extras == self.extras,
    {
        Uri {
            address: self.address.assume_checked(),
            amount: self.amount,
            label: self.label,
            message: self.message,
            extras: self.extras,
        }
    }
}

impl<'a, T: DeserializeParams<'a>> TryFrom<&'a str> for Uri<'a, NetworkUnchecked, T> {
    type Error = de::Error<<T as DeserializationError>::Error>;

    /// Zero-copy parsing: parameter values borrow from the text. This is [`Uri::parse`].
    fn try_from(s: &'a str) -> (r: Result<Self, Self::Error>)
        ensures
            de::parse_spec::<T::DeserializationState, <T as DeserializationError>::Error>(s, r),
            de::parse_from_default::<T::DeserializationState>(bytes_of(s), r),
            r matches Ok(uri) ==> de::kept_encoded(uri),
    {
        Uri::parse(s)
    }
}

impl<'a, T: DeserializeParams<'a>> vstd::std_specs::convert::TryFromSpecImpl<&'a str> for Uri<'a, NetworkUnchecked, T> {
    /// The result depends on the state that the extras' `Default` gives, which need not be a
    /// function of the text, so the trait-level spec is not used; the `ensures` of `try_from`
    /// above states the result.
    open spec fn obeys_try_from_spec() -> bool {
        false
    }

    open spec fn try_from_spec(v: &'a str) -> Result<Self, Self::Error> {
        arbitrary()
    }
}

impl<T> core::str::FromStr for Uri<'static, NetworkUnchecked, T> where
    for <'de>T: DeserializeParams<'de>,
 {
    type Err = de::Error<<T as DeserializationError>::Error>;

    /// Parses, then decodes the parameters so that nothing borrows from `s`.
    fn from_str(s: &str) -> (r: Result<Self, Self::Err>)
        ensures
            ({
                let spec = de::uri_check(
                    bytes_of(s),
                    de::recognised_keys::<<T as DeserializeParams<'static>>::DeserializationState>(),
                );
                &&& spec is Err ==> r is Err
                &&& r matches Err(de::Error::Uri(e)) ==> spec == Err::<(Seq<char>, de::UriFields), de::UriErrorView>(e@)
                &&& r matches Ok(uri) ==> (spec matches Ok((address, fields)) && uri.address.text()
                    == address && uri.amount == fields.amount && (match fields.label {
                    Some(l) => uri.label matches Some(p) && p.decoded() == l,
                    None => uri.label is None,
                }) && (match fields.message {
                    Some(m) => uri.message matches Some(p) && p.decoded() == m,
                    None => uri.message is None,
                }))
            }),
            de::parse_from_default::<<T as DeserializeParams<'static>>::DeserializationState>(
                bytes_of(s),
                r,
            ),
            r matches Ok(uri) ==> (uri.label matches Some(p) ==> !p.is_encoded() && !p.borrows_source())
                && (uri.message matches Some(p) ==> !p.is_encoded() && !p.borrows_source()),
    {
        match Uri::<'_, NetworkUnchecked, T>::parse(s) {
            Ok(uri) => Ok(uri.into_owned()),
            Err(e) => Err(e),
        }
    }
}

/// Empty extras.
///
/// This type can be used if extras are not required.
/// It is also the default type parameter of [`Uri`].
#[derive(Debug, Default, Copy, Clone, Eq, PartialEq, Ord, PartialOrd, Hash)]
pub struct NoExtras;

/// This is a state used to deserialize `NoExtras` - it doesn't expect any parameters.
#[derive(Debug, Copy, Clone)]
pub struct EmptyState;

impl Default for EmptyState {
    fn default() -> (r: Self)
        ensures
            r == EmptyState,
    {
        EmptyState
    }
}

impl DeserializationError for NoExtras {
    type Error = core::convert::Infallible;
}

impl<'de> DeserializeParams<'de> for NoExtras {
    type DeserializationState = EmptyState;
}

impl<'de> DeserializationState<'de> for EmptyState {
    type Value = NoExtras;

    open spec fn recognises(key: Seq<u8>) -> bool {
        false
    }

    open spec fn finalized(self) -> Result<NoExtras, core::convert::Infallible> {
        Ok(NoExtras)
    }

    open spec fn taken(self, key: Seq<u8>, value: Seq<u8>) -> Result<ParamKind, core::convert::Infallible> {
        Ok(ParamKind::Unknown)
    }

    open spec fn after(self, key: Seq<u8>, value: Seq<u8>) -> Self {
        self
    }

    fn is_param_known(&self, _key: &str) -> (known: bool) {
        false
    }

    fn deserialize_temp(&mut self, _key: &str, _value: Param<'_>) -> (r: Result<
        ParamKind,
        core::convert::Infallible,
    >)
        ensures
            r == Ok::<ParamKind, core::convert::Infallible>(ParamKind::Unknown),
    {
        Ok(ParamKind::Unknown)
    }

    fn deserialize_borrowed(&mut self, key: &'de str, value: Param<'de>) -> (r: Result<
        ParamKind,
        core::convert::Infallible,
    >) {
        self.deserialize_temp(key, value)
    }

    fn finalize(self) -> (r: Result<NoExtras, core::convert::Infallible>) {
        Ok(NoExtras)
    }
}

/// Error type for combining two different extras types.
///
/// This is used when composing extras with tuples. When either the left or right
/// extras type returns an error during deserialization, it's wrapped in this enum.
#[derive(Debug, Clone)]
pub enum EitherError<L, R> {
    /// Error from the left (first) extras type.
    Left(L),
    /// Error from the right (second) extras type.
    Right(R),
}

/// Deserialization state for a tuple of two extras types.
///
/// The state routes each parameter to the first extras type that recognises it via
/// `is_param_known`.
#[derive(Debug)]
pub struct TupleState<S1, S2> {
    state1: S1,
    state2: S2,
}

impl<S1, S2> TupleState<S1, S2> {
    /// The state of the first extras type.
    pub closed spec fn first(self) -> S1 {
        self.state1
    }

    /// The state of the second extras type.
    pub closed spec fn second(self) -> S2 {
        self.state2
    }
}

impl<S1: Default, S2: Default> Default for TupleState<S1, S2> {
    /// Each half starts as its own type's default.
    fn default() -> (r: Self)
        ensures
            call_ensures(S1::default, (), r.first()),
            call_ensures(S2::default, (), r.second()),
    {
        TupleState { state1: S1::default(), state2: S2::default() }
    }
}

impl<'de, L, R> TupleState<L, R> where
    L: DeserializationState<'de>,
    R: DeserializationState<'de>,
 {
    /// Tuple extras route each parameter to the first half that recognises its key, and the
    /// other half stays as it was; a key that neither recognises changes nothing.
    pub proof fn law_tuple_routing(self, key: Seq<u8>, value: Seq<u8>)
        ensures
            L::recognises(key) ==> self.after(key, value).first() == self.first().after(key, value)
                && self.after(key, value).second() == self.second(),
            !L::recognises(key) && R::recognises(key) ==> self.after(key, value).first()
                == self.first() && self.after(key, value).second() == self.second().after(
                key,
                value,
            ),
            !L::recognises(key) && !R::recognises(key) ==> self.after(key, value) == self,
            L::recognises(key) ==> (self.first().taken(key, value) matches Ok(k) ==> self.taken(
                key,
                value,
            ) matches Ok(t) && t == k) && (self.first().taken(key, value) matches Err(e)
                ==> self.taken(key, value) matches Err(EitherError::Left(t)) && t == e),
            !L::recognises(key) && R::recognises(key) ==> (self.second().taken(key, value) matches Ok(
                k,
            ) ==> self.taken(key, value) matches Ok(t) && t == k) && (self.second().taken(
                key,
                value,
            ) matches Err(e) ==> self.taken(key, value) matches Err(EitherError::Right(t)) && t == e),
            !L::recognises(key) && !R::recognises(key) ==> (self.taken(key, value) matches Ok(t) && t
                == ParamKind::Unknown),
    {
    }

    /// The same routing for a value that borrows from the URI: the half that recognises the key
    /// receives the value itself.
    pub proof fn law_tuple_routing_borrowed(self, key: Seq<u8>, value: Param<'de>)
        ensures
            L::recognises(key) ==> self.after_borrowed(key, value).first()
                == self.first().after_borrowed(key, value) && self.after_borrowed(key, value).second()
                == self.second(),
            !L::recognises(key) && R::recognises(key) ==> self.after_borrowed(key, value).first()
                == self.first() && self.after_borrowed(key, value).second()
                == self.second().after_borrowed(key, value),
            !L::recognises(key) && !R::recognises(key) ==> self.after_borrowed(key, value) == self,
            L::recognises(key) ==> (self.first().taken_borrowed(key, value) matches Ok(k)
                ==> self.taken_borrowed(key, value) matches Ok(t) && t == k) && (
            self.first().taken_borrowed(key, value) matches Err(e) ==> self.taken_borrowed(key, value)
                matches Err(EitherError::Left(t)) && t == e),
            !L::recognises(key) && R::recognises(key) ==> (self.second().taken_borrowed(key, value)
                matches Ok(k) ==> self.taken_borrowed(key, value) matches Ok(t) && t == k) && (
            self.second().taken_borrowed(key, value) matches Err(e) ==> self.taken_borrowed(key, value)
                matches Err(EitherError::Right(t)) && t == e),
            !L::recognises(key) && !R::recognises(key) ==> (self.taken_borrowed(key, value) matches Ok(
                t,
            ) && t == ParamKind::Unknown),
    {
    }
}

impl<L, R> DeserializationError for (L, R) where L: DeserializationError, R: DeserializationError {
    type Error = EitherError<L::Error, R::Error>;
}

impl<'de, L, R> DeserializeParams<'de> for (L, R) where
    L: DeserializeParams<'de>,
    R: DeserializeParams<'de>,
 {
    type DeserializationState = TupleState<L::DeserializationState, R::DeserializationState>;
}

impl<'de, L, R> DeserializationState<'de> for TupleState<L, R> where
    L: DeserializationState<'de>,
    R: DeserializationState<'de>,
 {
    type Value = (L::Value, R::Value);

    open spec fn recognises(key: Seq<u8>) -> bool {
        L::recognises(key) || R::recognises(key)
    }

    open spec fn finalized(self) -> Result<
        (L::Value, R::Value),
        EitherError<
            <L::Value as DeserializationError>::Error,
            <R::Value as DeserializationError>::Error,
        >,
    > {
        match self.first().finalized() {
            Err(e) => Err(EitherError::Left(e)),
            Ok(left) => match self.second().finalized() {
                Err(e) => Err(EitherError::Right(e)),
                Ok(right) => Ok((left, right)),
            },
        }
    }

    open spec fn taken(self, key: Seq<u8>, value: Seq<u8>) -> Result<
        ParamKind,
        EitherError<
            <L::Value as DeserializationError>::Error,
            <R::Value as DeserializationError>::Error,
        >,
    > {
        if L::recognises(key) {
            match self.first().taken(key, value) {
                Ok(kind) => Ok(kind),
                Err(e) => Err(EitherError::Left(e)),
            }
        } else if R::recognises(key) {
            match self.second().taken(key, value) {
                Ok(kind) => Ok(kind),
                Err(e) => Err(EitherError::Right(e)),
            }
        } else {
            Ok(ParamKind::Unknown)
        }
    }

    closed spec fn after(self, key: Seq<u8>, value: Seq<u8>) -> Self {
        if L::recognises(key) {
            TupleState { state1: self.first().after(key, value), state2: self.second() }
        } else if R::recognises(key) {
            TupleState { state1: self.first(), state2: self.second().after(key, value) }
        } else {
            self
        }
    }

    open spec fn taken_borrowed(self, key: Seq<u8>, value: Param<'de>) -> Result<
        ParamKind,
        EitherError<
            <L::Value as DeserializationError>::Error,
            <R::Value as DeserializationError>::Error,
        >,
    > {
        if L::recognises(key) {
            match self.first().taken_borrowed(key, value) {
                Ok(kind) => Ok(kind),
                Err(e) => Err(EitherError::Left(e)),
            }
        } else if R::recognises(key) {
            match self.second().taken_borrowed(key, value) {
                Ok(kind) => Ok(kind),
                Err(e) => Err(EitherError::Right(e)),
            }
        } else {
            Ok(ParamKind::Unknown)
        }
    }

    closed spec fn after_borrowed(self, key: Seq<u8>, value: Param<'de>) -> Self {
        if L::recognises(key) {
            TupleState { state1: self.first().after_borrowed(key, value), state2: self.second() }
        } else if R::recognises(key) {
            TupleState { state1: self.first(), state2: self.second().after_borrowed(key, value) }
        } else {
            self
        }
    }

    fn is_param_known(&self, key: &str) -> (known: bool) {
        self.state1.is_param_known(key) || self.state2.is_param_known(key)
    }

    fn deserialize_temp(&mut self, key: &str, value: Param<'_>) -> (r: Result<
        ParamKind,
        EitherError<
            <L::Value as DeserializationError>::Error,
            <R::Value as DeserializationError>::Error,
        >,
    >)
        ensures
            L::recognises(bytes_of(key)) ==> final(self).second() == old(self).second() && (
            r matches Err(e) ==> e is Left),
            !L::recognises(bytes_of(key)) && R::recognises(bytes_of(key)) ==> final(self).first()
                == old(self).first() && (r matches Err(e) ==> e is Right),
            !L::recognises(bytes_of(key)) && !R::recognises(bytes_of(key)) ==> *final(self)
                == *old(self) && r == Ok::<ParamKind, EitherError<
                <L::Value as DeserializationError>::Error,
                <R::Value as DeserializationError>::Error,
            >>(ParamKind::Unknown),
            L::recognises(bytes_of(key)) ==> (old(self).first().taken(bytes_of(key), value.decoded())
                matches Ok(k) ==> r matches Ok(t) && t == k) && (old(self).first().taken(
                bytes_of(key),
                value.decoded(),
            ) matches Err(e) ==> r matches Err(EitherError::Left(t)) && t == e),
            !L::recognises(bytes_of(key)) && R::recognises(bytes_of(key)) ==> (
            old(self).second().taken(bytes_of(key), value.decoded()) matches Ok(k) ==> r matches Ok(t)
                && t == k) && (old(self).second().taken(bytes_of(key), value.decoded()) matches Err(e)
                ==> r matches Err(EitherError::Right(t)) && t == e),
    {
        if self.state1.is_param_known(key) {
            match self.state1.deserialize_temp(key, value) {
                Ok(kind) => Ok(kind),
                Err(e) => Err(EitherError::Left(e)),
            }
        } else if self.state2.is_param_known(key) {
            match self.state2.deserialize_temp(key, value) {
                Ok(kind) => Ok(kind),
                Err(e) => Err(EitherError::Right(e)),
            }
        } else {
            Ok(ParamKind::Unknown)
        }
    }

    fn deserialize_borrowed(&mut self, key: &'de str, value: Param<'de>) -> (r: Result<
        ParamKind,
        EitherError<
            <L::Value as DeserializationError>::Error,
            <R::Value as DeserializationError>::Error,
        >,
    >)
        ensures
            L::recognises(bytes_of(key)) ==> final(self).second() == old(self).second() && (
            r matches Err(e) ==> e is Left),
            !L::recognises(bytes_of(key)) && R::recognises(bytes_of(key)) ==> final(self).first()
                == old(self).first() && (r matches Err(e) ==> e is Right),
            !L::recognises(bytes_of(key)) && !R::recognises(bytes_of(key)) ==> *final(self)
                == *old(self) && r == Ok::<ParamKind, EitherError<
                <L::Value as DeserializationError>::Error,
                <R::Value as DeserializationError>::Error,
            >>(ParamKind::Unknown),
            L::recognises(bytes_of(key)) ==> (old(self).first().taken_borrowed(bytes_of(key), value)
                matches Ok(k) ==> r matches Ok(t) && t == k) && (old(self).first().taken_borrowed(
                bytes_of(key),
                value,
            ) matches Err(e) ==> r matches Err(EitherError::Left(t)) && t == e),
            !L::recognises(bytes_of(key)) && R::recognises(bytes_of(key)) ==> (
            old(self).second().taken_borrowed(bytes_of(key), value) matches Ok(k) ==> r matches Ok(t)
                && t == k) && (old(self).second().taken_borrowed(bytes_of(key), value) matches Err(e)
                ==> r matches Err(EitherError::Right(t)) && t == e),
    {
        if self.state1.is_param_known(key) {
            match self.state1.deserialize_borrowed(key, value) {
                Ok(kind) => Ok(kind),
                Err(e) => Err(EitherError::Left(e)),
            }
        } else if self.state2.is_param_known(key) {
            match self.state2.deserialize_borrowed(key, value) {
                Ok(kind) => Ok(kind),
                Err(e) => Err(EitherError::Right(e)),
            }
        } else {
            Ok(ParamKind::Unknown)
        }
    }

    fn finalize(self) -> (r: Result<
        (L::Value, R::Value),
        EitherError<
            <L::Value as DeserializationError>::Error,
            <R::Value as DeserializationError>::Error,
        >,
    >) {
        let left = match self.state1.finalize() {
            Ok(value) => value,
            Err(e) => return Err(EitherError::Left(e)),
        };
        let right = match self.state2.finalize() {
            Ok(value) => value,
            Err(e) => return Err(EitherError::Right(e)),
        };
        Ok((left, right))
    }
}

} // verus!

