//! Serialization of BIP21 URIs.
//!
//! A URI is written as `bitcoin:`, the address, then its parameters: `amount` (in bitcoins),
//! `label`, `message` and the parameters of the extras, the first after `?` and the others after
//! `&`, each as `key=value`. Values of `label`, `message` and the extras are percent-encoded.

use vstd::prelude::*;
use vstd::string::StringSliceAdditionalSpecFns;
use vstd::utf8::*;
use crate::address::{btc_text, format_btc_amount, NetworkChecked};
use crate::de::{amount_key, label_key, message_key};
use crate::param::{string_from_utf8, Param};
use crate::percent::{percent_encoded, push_percent_encoded, lemma_encoded_safe, safe_in_query};
use crate::text::{bytes_of, string_bytes};
use crate::{NoExtras, Uri};

verus! {

broadcast use vstd::utf8::group_utf8_lib;

/// A source of parameters `(key, value)`, yielded one at a time.
pub trait ParamIterator: Sized {
    /// The parameters not yet yielded, as UTF-8 bytes.
    spec fn remaining(&self) -> Seq<(Seq<u8>, Seq<u8>)>;

    /// Yields the next parameter.
    fn next(&mut self) -> (item: Option<(String, String)>)
        ensures
            match item {
                Some((k, v)) => old(self).remaining() == seq![(string_bytes(k), string_bytes(v))]
                    + final(self).remaining(),
                None => old(self).remaining().len() == 0 && final(self).remaining().len() == 0,
            },
    ;
}

/// Types that can write extra parameters of a URI.
pub trait SerializeParams {
    /// The source of the parameters.
    type Iterator: ParamIterator;

    /// The parameters this value writes, as UTF-8 bytes, before encoding.
    spec fn params(self) -> Seq<(Seq<u8>, Seq<u8>)>;

    /// Gives the parameters to write.
    fn serialize_params(self) -> (it: Self::Iterator)
        ensures
            it.remaining() == self.params(),
    ;
}

/// Parameters held in a list.
pub struct ParamList {
    items: Vec<(String, String)>,
    position: usize,
}

/// The UTF-8 bytes of listed parameters.
pub open spec fn item_bytes(items: Seq<(String, String)>) -> Seq<(Seq<u8>, Seq<u8>)> {
    items.map_values(|item: (String, String)| (string_bytes(item.0), string_bytes(item.1)))
}

impl ParamList {
    #[verifier::type_invariant]
    closed spec fn in_bounds(self) -> bool {
        self.position <= self.items@.len()
    }

    /// A source that yields `items` in order.
    pub fn new(items: Vec<(String, String)>) -> (r: Self)
        ensures
            r.remaining() == item_bytes(items@),
    {
        let r = ParamList { items, position: 0 };
        proof {
            assert(r.items@.subrange(0, r.items@.len() as int) =~= r.items@);
        }
        r
    }
}

impl ParamIterator for ParamList {
    closed spec fn remaining(&self) -> Seq<(Seq<u8>, Seq<u8>)> {
        item_bytes(self.items@.subrange(self.position as int, self.items@.len() as int))
    }

    fn next(&mut self) -> (item: Option<(String, String)>) {
        proof {
            use_type_invariant(&*self);
        }
        if self.position < self.items.len() {
            let (k, v) = &self.items[self.position];
            let item = (k.clone(), v.clone());
            let ghost before = self.items@.subrange(self.position as int, self.items@.len() as int);
            self.position = self.position + 1;
            proof {
                let after = self.items@.subrange(self.position as int, self.items@.len() as int);
                assert(before =~= seq![before[0]] + after);
                assert(item_bytes(before) =~= item_bytes(seq![before[0]]) + item_bytes(after));
            }
            Some(item)
        } else {
            None
        }
    }
}

/// Iterator that chains two serialization iterators.
///
/// This is used to combine parameters from two different extras types
/// when serializing a composed URI. It first yields all parameters from
/// the first iterator, then all parameters from the second.
pub struct ChainedIterator<I1, I2> {
    iter1: I1,
    iter2: Option<I2>,
}

impl<I1: ParamIterator, I2: ParamIterator> ChainedIterator<I1, I2> {
    /// Chains `first` then `second`.
    pub fn new(first: I1, second: I2) -> (r: Self)
        ensures
            r.remaining() == first.remaining() + second.remaining(),
    {
        ChainedIterator { iter1: first, iter2: Some(second) }
    }
}

impl<I1: ParamIterator, I2: ParamIterator> ParamIterator for ChainedIterator<I1, I2> {
    closed spec fn remaining(&self) -> Seq<(Seq<u8>, Seq<u8>)> {
        self.iter1.remaining() + match self.iter2 {
            Some(i) => i.remaining(),
            None => Seq::empty(),
        }
    }

    fn next(&mut self) -> (item: Option<(String, String)>) {
        match self.iter1.next() {
            Some(item) => {
                proof {
                    assert(old(self).remaining() =~= seq![(string_bytes(item.0), string_bytes(item.1))]
                        + self.remaining());
                }
                Some(item)
            },
            None => {
                let second = self.iter2.take();
                match second {
                    Some(mut iter) => {
                        let item = iter.next();
                        self.iter2 = Some(iter);
                        proof {
                            assert(old(self).remaining() =~= old(self).iter2->0.remaining());
                            assert(self.remaining() =~= self.iter2->0.remaining());
                        }
                        item
                    },
                    None => None,
                }
            },
        }
    }
}

/// Nothing to write.
pub struct NoParams;

impl ParamIterator for NoParams {
    open spec fn remaining(&self) -> Seq<(Seq<u8>, Seq<u8>)> {
        Seq::empty()
    }

    fn next(&mut self) -> (item: Option<(String, String)>) {
        None
    }
}

impl<'a> SerializeParams for &'a NoExtras {
    type Iterator = NoParams;

    open spec fn params(self) -> Seq<(Seq<u8>, Seq<u8>)> {
        Seq::empty()
    }

    fn serialize_params(self) -> (it: NoParams) {
        NoParams
    }
}

impl<'a, L, R> SerializeParams for &'a (L, R) where &'a L: SerializeParams, &'a R: SerializeParams {
    type Iterator = ChainedIterator<
        <&'a L as SerializeParams>::Iterator,
        <&'a R as SerializeParams>::Iterator,
    >;

    open spec fn params(self) -> Seq<(Seq<u8>, Seq<u8>)> {
        (&self.0).params() + (&self.1).params()
    }

    fn serialize_params(self) -> (it: Self::Iterator) {
        ChainedIterator::new((&self.0).serialize_params(), (&self.1).serialize_params())
    }
}

// ---------------------------------------------------------------------------------------------
/// `bitcoin:` in bytes.
pub open spec fn scheme_text() -> Seq<u8> {
    seq![98u8, 105u8, 116u8, 99u8, 111u8, 105u8, 110u8, 58u8]
}

/// The parameters `(key, written value)` of the URI's own fields, in the order they are written.
pub open spec fn own_items(amount: Option<u64>, label: Option<Seq<u8>>, message: Option<Seq<u8>>) -> Seq<
    (Seq<u8>, Seq<u8>),
> {
    (match amount {
        Some(sats) => seq![(amount_key(), encode_utf8(btc_text(sats)))],
        None => Seq::empty(),
    }) + (match label {
        Some(l) => seq![(label_key(), percent_encoded(l))],
        None => Seq::empty(),
    }) + (match message {
        Some(m) => seq![(message_key(), percent_encoded(m))],
        None => Seq::empty(),
    })
}

/// The parameters of extras as written: values percent-encoded.
pub open spec fn extra_items(params: Seq<(Seq<u8>, Seq<u8>)>) -> Seq<(Seq<u8>, Seq<u8>)> {
    params.map_values(|p: (Seq<u8>, Seq<u8>)| (p.0, percent_encoded(p.1)))
}

/// The separator written before the parameter at `index`.
pub open spec fn separator(index: int) -> u8 {
    if index == 0 {
        63
    } else {
        38
    }
}

/// Written parameters: `?k=v&k=v...`.
pub open spec fn joined(items: Seq<(Seq<u8>, Seq<u8>)>) -> Seq<u8>
    decreases items.len(),
{
    if items.len() == 0 {
        Seq::empty()
    } else {
        joined(items.drop_last()) + seq![separator(items.len() - 1)] + items.last().0 + seq![61u8]
            + items.last().1
    }
}

/// The text of a URI with the given address and written parameters.
pub open spec fn uri_text(address: Seq<u8>, items: Seq<(Seq<u8>, Seq<u8>)>) -> Seq<u8> {
    scheme_text() + address + joined(items)
}

/// Decoded bytes of an optional parameter.
pub open spec fn decoded_of(p: Option<Param>) -> Option<Seq<u8>> {
    match p {
        Some(p) => Some(p.decoded()),
        None => None,
    }
}

/// Every byte is ASCII.
pub open spec fn all_ascii(b: Seq<u8>) -> bool {
    forall|i: int| 0 <= i < b.len() ==> #[trigger] b[i] < 128
}

/// ASCII bytes are valid UTF-8.
proof fn lemma_ascii_valid(b: Seq<u8>)
    requires
        all_ascii(b),
    ensures
        valid_utf8(b),
{
    assert(partial_valid_utf8(b, 0)) by {
        assert(b.subrange(0, 0) =~= Seq::<u8>::empty());
    }
    partial_valid_utf8_extend_ascii_block(b, 0, b.len() as int);
    assert(b.subrange(0, b.len() as int) =~= b);
}

/// Appends bytes.
fn push_bytes(out: &mut Vec<u8>, b: &[u8])
    ensures
        final(out)@ == old(out)@ + b@,
{
    let n = b.len();
    let mut i: usize = 0;
    while i < n
        invariant
            n == b@.len(),
            i <= n,
            out@ == old(out)@ + b@.subrange(0, i as int),
        decreases n - i,
    {
        out.push(b[i]);
        proof {
            assert(b@.subrange(0, i + 1) =~= b@.subrange(0, i as int).push(b@[i as int]));
        }
        i = i + 1;
    }
    proof {
        assert(b@.subrange(0, n as int) =~= b@);
    }
}

/// `out` holds the URI text for `address` and `items`.
pub open spec fn written(out: Seq<u8>, address: Seq<u8>, items: Seq<(Seq<u8>, Seq<u8>)>) -> bool {
    out == uri_text(address, items) && valid_utf8(out)
}

/// Extending written parameters by one.
proof fn lemma_joined_push(items: Seq<(Seq<u8>, Seq<u8>)>, item: (Seq<u8>, Seq<u8>))
    ensures
        joined(items.push(item)) == joined(items) + seq![separator(items.len() as int)] + item.0
            + seq![61u8] + item.1,
{
    assert(items.push(item).drop_last() =~= items);
}

/// Appends the parameter `key=value` with `value` written as it is.
fn push_item(
    out: &mut Vec<u8>,
    Ghost(address): Ghost<Seq<u8>>,
    Ghost(items): Ghost<Seq<(Seq<u8>, Seq<u8>)>>,
    first: bool,
    key: &[u8],
    value: &[u8],
)
    requires
        written(old(out)@, address, items),
        first == (items.len() == 0),
        valid_utf8(key@),
        valid_utf8(value@),
    ensures
        written(final(out)@, address, items.push((key@, value@))),
{
    let ghost sep = seq![separator(items.len() as int)];
    proof {
        lemma_joined_push(items, (key@, value@));
        lemma_ascii_valid(sep);
        lemma_ascii_valid(seq![61u8]);
        valid_utf8_concat(old(out)@, sep);
        valid_utf8_concat(old(out)@ + sep, key@);
        valid_utf8_concat(old(out)@ + sep + key@, seq![61u8]);
        valid_utf8_concat(old(out)@ + sep + key@ + seq![61u8], value@);
    }
    out.push(if first {
        63
    } else {
        38
    });
    push_bytes(out, key);
    out.push(61);
    push_bytes(out, value);
    proof {
        assert(out@ =~= old(out)@ + sep + key@ + seq![61u8] + value@);
        assert(scheme_text() + address + (joined(items) + sep + key@ + seq![61u8] + value@)
            =~= old(out)@ + sep + key@ + seq![61u8] + value@);
    }
}

/// Appends the parameter `key=value` with `value` percent-encoded.
fn push_encoded_item(
    out: &mut Vec<u8>,
    Ghost(address): Ghost<Seq<u8>>,
    Ghost(items): Ghost<Seq<(Seq<u8>, Seq<u8>)>>,
    first: bool,
    key: &[u8],
    value: &[u8],
)
    requires
        written(old(out)@, address, items),
        first == (items.len() == 0),
        valid_utf8(key@),
    ensures
        written(final(out)@, address, items.push((key@, percent_encoded(value@)))),
{
    let mut encoded: Vec<u8> = Vec::new();
    push_percent_encoded(&mut encoded, value);
    proof {
        assert(encoded@ =~= percent_encoded(value@));
        lemma_encoded_safe(value@);
        lemma_ascii_valid(percent_encoded(value@));
    }
    push_item(out, Ghost(address), Ghost(items), first, key, encoded.as_slice());
}

impl<'a, T> Uri<'a, NetworkChecked, T> where for<'b> &'b T: SerializeParams {
    /// Writes the URI.
    ///
    /// The scheme is written in lower case, which some (buggy) wallets need.
    pub fn to_string(&self) -> (r: String)
        ensures
            string_bytes(r) == uri_text(
                encode_utf8(self.address.text()),
                own_items(self.amount, decoded_of(self.label), decoded_of(self.message))
                    + extra_items((&self.extras).params()),
            ),
    {
        let ghost address = encode_utf8(self.address.text());
        let (mut out, first) = self.write_own_params();
        let ghost own = own_items(self.amount, decoded_of(self.label), decoded_of(self.message));
        let ghost extras = (&self.extras).params();
        let mut first = first;
        let mut params = (&self.extras).serialize_params();
        let ghost mut seen: Seq<(Seq<u8>, Seq<u8>)> = Seq::empty();
        proof {
            assert(own + extra_items(seen) =~= own);
            assert(extras =~= seen + params.remaining());
        }
        loop
            invariant_except_break
                extras == seen + params.remaining(),
            invariant
                first == ((own + extra_items(seen)).len() == 0),
                written(out@, address, own + extra_items(seen)),
            ensures
                extras == seen,
            decreases params.remaining().len(),
        {
            match params.next() {
                Some((k, v)) => {
                    let ghost item = (string_bytes(k), string_bytes(v));
                    push_encoded_item(
                        &mut out,
                        Ghost(address),
                        Ghost(own + extra_items(seen)),
                        first,
                        k.as_str().as_bytes(),
                        v.as_str().as_bytes(),
                    );
                    proof {
                        assert(extra_items(seen.push(item)) =~= extra_items(seen).push(
                            (item.0, percent_encoded(item.1)),
                        ));
                        assert(own + extra_items(seen.push(item)) =~= (own + extra_items(seen)).push(
                            (item.0, percent_encoded(item.1)),
                        ));
                        assert(extras =~= seen.push(item) + params.remaining());
                        seen = seen.push(item);
                    }
                    first = false;
                },
                None => {
                    proof {
                        assert(extras =~= seen);
                    }
                    break ;
                },
            }
        }
        match string_from_utf8(out) {
            Ok(s) => s,
            Err(_) => {
                proof {
                    assert(false);
                }
                String::new()
            },
        }
    }
}

impl<'a, T> Uri<'a, NetworkChecked, T> {
    /// Writes the scheme, the address and the URI's own parameters; tells whether no
    /// parameter was written.
    fn write_own_params(&self) -> (r: (Vec<u8>, bool))
        ensures
            written(
                r.0@,
                encode_utf8(self.address.text()),
                own_items(self.amount, decoded_of(self.label), decoded_of(self.message)),
            ),
            r.1 == (own_items(self.amount, decoded_of(self.label), decoded_of(self.message)).len()
                == 0),
    {
        let ghost address = encode_utf8(self.address.text());
        let mut out: Vec<u8> = Vec::new();
        let scheme: [u8; 8] = [98, 105, 116, 99, 111, 105, 110, 58];
        push_bytes(&mut out, &scheme);
        push_bytes(&mut out, self.address.as_str().as_bytes());
        let ghost mut items: Seq<(Seq<u8>, Seq<u8>)> = Seq::empty();
        proof {
            assert(scheme@ =~= scheme_text());
            lemma_ascii_valid(scheme_text());
            valid_utf8_concat(scheme_text(), address);
            assert(out@ =~= uri_text(address, items));
        }
        let mut first = true;
        match self.amount {
            Some(sats) => {
                let text = format_btc_amount(sats);
                let key: [u8; 6] = [97, 109, 111, 117, 110, 116];
                proof {
                    assert(key@ =~= amount_key());
                    lemma_ascii_valid(amount_key());
                }
                push_item(&mut out, Ghost(address), Ghost(items), first, &key, text.as_str().as_bytes());
                proof {
                    items = items.push((amount_key(), encode_utf8(btc_text(sats))));
                }
                first = false;
            },
            None => {},
        }
        match &self.label {
            Some(label) => {
                let bytes = label.to_cow_bytes();
                let key: [u8; 5] = [108, 97, 98, 101, 108];
                proof {
                    assert(key@ =~= label_key());
                    lemma_ascii_valid(label_key());
                }
                push_encoded_item(&mut out, Ghost(address), Ghost(items), first, &key, cow_slice(&bytes));
                proof {
                    items = items.push((label_key(), percent_encoded(label.decoded())));
                }
                first = false;
            },
            None => {},
        }
        match &self.message {
            Some(message) => {
                let bytes = message.to_cow_bytes();
                let key: [u8; 7] = [109, 101, 115, 115, 97, 103, 101];
                proof {
                    assert(key@ =~= message_key());
                    lemma_ascii_valid(message_key());
                }
                push_encoded_item(&mut out, Ghost(address), Ghost(items), first, &key, cow_slice(&bytes));
                proof {
                    items = items.push((message_key(), percent_encoded(message.decoded())));
                }
                first = false;
            },
            None => {},
        }
        proof {
            assert(items =~= own_items(self.amount, decoded_of(self.label), decoded_of(self.message)));
        }
        (out, first)
    }
}

/// The bytes of a byte cow.
fn cow_slice<'c>(b: &'c std::borrow::Cow<'_, [u8]>) -> (r: &'c [u8])
    ensures
        r@ == b@,
{
    match b {
        std::borrow::Cow::Borrowed(s) => s,
        std::borrow::Cow::Owned(v) => v.as_slice(),
    }
}

} // verus!
