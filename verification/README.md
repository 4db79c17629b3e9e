# bip21

Parsing and writing of BIP21 `bitcoin:` URIs, with composable extra parameters, verified with
Verus.

* `src/de.rs` — the URI grammar on bytes (`uri_check`), the parser that follows it, the traits
  through which extras take their parameters, and the protection of `req-` parameters.
* `src/ser.rs` — writing a URI (`Uri::to_string`), the sources of extra parameters and their
  chaining for tuples of extras.
* `src/param.rs` — `Param`, a parameter value decoded on demand, and its conversions.
* `src/percent.rs` — percent-decoding and encoding of values (RFC 3986).
* `src/address.rs` — addresses, networks and amounts, as the `bitcoin` crate reads and writes them.
* `src/round_trip.rs` — what the parser reads back of a URI that the library wrote.
* `src/text.rs` — slicing UTF-8 text at ASCII delimiters.
* `app/` — `Display` and `std::error::Error` integration and conversions to and from `bitcoin`'s
  types.

Extras are composed as tuples: `Uri<'_, NetworkUnchecked, (LightningExtras, PayjoinExtras)>`
routes each parameter to the first element that knows its key. Implementations of
`DeserializationState`, `ParamIterator` and `SerializeParams` describe themselves through the
traits' spec functions (`recognises`, `taken`, `after`, `taken_borrowed`, `after_borrowed`,
`finalized`, `remaining`, `params`); in code that Verus does not check these are never run. The
contract of `Uri::parse` folds `taken_borrowed` and `after_borrowed` over the extra parameters,
in order, each handed as its encoded text borrowed from the URI, from the state that `Default`
gives, and ends with `finalized`. Every state implements `deserialize_borrowed`; one that does
not keep values can call `deserialize_temp` from it.

`Param` values that come from a URI keep the text and decode it when converted or iterated; a
conversion borrows the text when it holds no escape.
