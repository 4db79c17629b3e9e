//! What the parser reads back of a URI that the library wrote.

use vstd::prelude::*;
use vstd::utf8::*;
use crate::address::{
    address_reads_back, amount_reads_back, btc_text, is_amount_char, lemma_btc_text_chars, is_ascii_alphanumeric, NetworkChecked,
    NetworkUnchecked,
};
use crate::de::{
    address_part, amount_key, ascii_lower, is_extra_key, is_required_key, label_key,
    lemma_params_check_push, message_key, no_fields, param_list, params_check, parse_spec,
    recognised_keys, scheme_bytes, split_first, uri_body, uri_check, uri_params,
    DeserializationState, Error, UriErrorView, UriFields, lemma_empty_extras_fold,
    parse_from_default,
};
use crate::percent::{lemma_encode_decode, lemma_encoded_safe, percent_encoded, safe_in_query};
use crate::ser::{decoded_of, extra_items, joined, own_items, scheme_text, separator, uri_text};
use crate::text::{bytes_of, first_index, lemma_first_index, lemma_first_index_unique};
use crate::{EmptyState, NoExtras, Uri};

verus! {

broadcast use vstd::utf8::group_utf8_lib;

/// `b` holds no byte `c`.
pub open spec fn lacks(b: Seq<u8>, c: u8) -> bool {
    forall|i: int| 0 <= i < b.len() ==> #[trigger] b[i] != c
}

/// A key that extras may write so that it reads back: no `&` or `=` in it, not one of the URI's
/// own keys, and recognised by the extras if it is required.
pub open spec fn extra_key_reads_back(key: Seq<u8>, recognised: spec_fn(Seq<u8>) -> bool) -> bool {
    &&& lacks(key, 38)
    &&& lacks(key, 61)
    &&& is_extra_key(key)
    &&& is_required_key(key) ==> recognised(key)
}

/// A written parameter `key=value`.
pub open spec fn param_text(item: (Seq<u8>, Seq<u8>)) -> Seq<u8> {
    item.0 + seq![61u8] + item.1
}

/// Written parameters joined by `&`.
pub open spec fn amp_joined(items: Seq<(Seq<u8>, Seq<u8>)>) -> Seq<u8>
    decreases items.len(),
{
    if items.len() == 0 {
        Seq::empty()
    } else if items.len() == 1 {
        param_text(items[0])
    } else {
        amp_joined(items.drop_last()) + seq![38u8] + param_text(items.last())
    }
}

/// Where the first `c` of a concatenation is.
proof fn lemma_first_index_concat(x: Seq<u8>, z: Seq<u8>, c: u8)
    ensures
        first_index(x + z, c) == (match first_index(x, c) {
            Some(i) => Some(i),
            None => match first_index(z, c) {
                Some(j) => Some(x.len() + j),
                None => None::<int>,
            },
        }),
{
    lemma_first_index(x, c);
    lemma_first_index(z, c);
    let xz = x + z;
    match first_index(x, c) {
        Some(i) => {
            lemma_first_index_unique(xz, c, i);
        },
        None => match first_index(z, c) {
            Some(j) => {
                assert forall|k: int| 0 <= k < x.len() + j implies xz[k] != c by {
                    if k >= x.len() {
                        assert(xz[k] == z[k - x.len()]);
                    }
                }
                lemma_first_index_unique(xz, c, x.len() + j);
            },
            None => {
                assert forall|k: int| 0 <= k < xz.len() implies xz[k] != c by {
                    if k >= x.len() {
                        assert(xz[k] == z[k - x.len()]);
                    }
                }
                lemma_first_index_unique(xz, c, xz.len() as int);
            },
        },
    }
}

/// A text without `c` has no first `c`.
proof fn lemma_lacks_first_index(b: Seq<u8>, c: u8)
    requires
        lacks(b, c),
    ensures
        first_index(b, c) is None,
{
    lemma_first_index_unique(b, c, b.len() as int);
}

/// Splitting `x & y` at every `&`, where `y` has no `&`.
proof fn lemma_param_list_append(x: Seq<u8>, y: Seq<u8>)
    requires
        lacks(y, 38),
    ensures
        param_list(x + seq![38u8] + y) == param_list(x).push(y),
    decreases x.len(),
{
    let whole = x + seq![38u8] + y;
    assert(whole =~= x + (seq![38u8] + y));
    lemma_first_index_concat(x, seq![38u8] + y, 38);
    lemma_first_index(x, 38);
    lemma_lacks_first_index(y, 38);
    match first_index(x, 38) {
        Some(i) => {
            let xt = x.subrange(i + 1, x.len() as int);
            lemma_param_list_append(xt, y);
            assert(whole.subrange(0, i) =~= x.subrange(0, i));
            assert(whole.subrange(i + 1, whole.len() as int) =~= xt + seq![38u8] + y);
            assert(param_list(whole) =~= seq![x.subrange(0, i)] + param_list(xt + seq![38u8] + y));
            assert(param_list(x) =~= seq![x.subrange(0, i)] + param_list(xt));
        },
        None => {
            lemma_first_index_unique(seq![38u8] + y, 38, 0);
            assert(whole.subrange(0, x.len() as int) =~= x);
            assert(whole.subrange(x.len() + 1int, whole.len() as int) =~= y);
            assert(param_list(y) =~= seq![y]);
            assert(param_list(x) =~= seq![x]);
        },
    }
}

/// Written parameters split back into their texts.
proof fn lemma_param_list_items(items: Seq<(Seq<u8>, Seq<u8>)>)
    requires
        items.len() > 0,
        forall|i: int| 0 <= i < items.len() ==> lacks(#[trigger] param_text(items[i]), 38),
    ensures
        param_list(amp_joined(items)) == items.map_values(|item: (Seq<u8>, Seq<u8>)| param_text(item)),
    decreases items.len(),
{
    let texts = items.map_values(|item: (Seq<u8>, Seq<u8>)| param_text(item));
    if items.len() == 1 {
        assert(lacks(param_text(items[0]), 38));
        lemma_lacks_first_index(param_text(items[0]), 38);
        assert(texts =~= seq![param_text(items[0])]);
    } else {
        let dl = items.drop_last();
        assert forall|i: int| 0 <= i < dl.len() implies lacks(#[trigger] param_text(dl[i]), 38) by {
            assert(dl[i] == items[i]);
        }
        lemma_param_list_items(dl);
        assert(lacks(param_text(items[items.len() - 1]), 38));
        lemma_param_list_append(amp_joined(dl), param_text(items.last()));
        assert(texts =~= dl.map_values(|item: (Seq<u8>, Seq<u8>)| param_text(item)).push(
            param_text(items.last()),
        ));
    }
}

/// `?` then the parameters joined by `&`.
proof fn lemma_joined_amp(items: Seq<(Seq<u8>, Seq<u8>)>)
    requires
        items.len() > 0,
    ensures
        joined(items) == seq![63u8] + amp_joined(items),
    decreases items.len(),
{
    let dl = items.drop_last();
    if items.len() == 1 {
        assert(dl.len() == 0);
        assert(joined(dl) =~= Seq::<u8>::empty());
        assert(joined(items) =~= seq![63u8] + param_text(items[0]));
    } else {
        lemma_joined_amp(dl);
        assert(separator(items.len() - 1) == 38);
        assert(joined(items) =~= seq![63u8] + (amp_joined(dl) + seq![38u8] + param_text(items.last())));
    }
}

/// A parameter `key=value` with no `=` in the key splits back into key and value.
proof fn lemma_split_param(item: (Seq<u8>, Seq<u8>))
    requires
        lacks(item.0, 61),
    ensures
        split_first(param_text(item), 61) == (item.0, Some(item.1)),
{
    let t = param_text(item);
    assert(t =~= item.0 + (seq![61u8] + item.1));
    lemma_first_index_concat(item.0, seq![61u8] + item.1, 61);
    lemma_lacks_first_index(item.0, 61);
    lemma_first_index_unique(seq![61u8] + item.1, 61, 0);
    assert(t.subrange(0, item.0.len() as int) =~= item.0);
    assert(t.subrange(item.0.len() + 1int, t.len() as int) =~= item.1);
}

/// Every written parameter of extras leaves the fields as they are.
proof fn lemma_extras_neutral(
    done: Seq<Seq<u8>>,
    extras: Seq<(Seq<u8>, Seq<u8>)>,
    fields: UriFields,
    recognised: spec_fn(Seq<u8>) -> bool,
)
    requires
        params_check(done, recognised) == Ok::<UriFields, UriErrorView>(fields),
        forall|i: int| 0 <= i < extras.len() ==> extra_key_reads_back(#[trigger] extras[i].0, recognised),
    ensures
        params_check(
            done + extra_items(extras).map_values(|item: (Seq<u8>, Seq<u8>)| param_text(item)),
            recognised,
        ) == Ok::<UriFields, UriErrorView>(fields),
    decreases extras.len(),
{
    let texts = extra_items(extras).map_values(|item: (Seq<u8>, Seq<u8>)| param_text(item));
    if extras.len() == 0 {
        assert(done + texts =~= done);
    } else {
        let dl = extras.drop_last();
        assert forall|i: int| 0 <= i < dl.len() implies extra_key_reads_back(#[trigger] dl[i].0, recognised) by {
            assert(dl[i] == extras[i]);
        }
        lemma_extras_neutral(done, dl, fields, recognised);
        let last = extras.last();
        assert(extra_key_reads_back(extras[extras.len() - 1].0, recognised));
        let item = (last.0, percent_encoded(last.1));
        let dl_texts = extra_items(dl).map_values(|item: (Seq<u8>, Seq<u8>)| param_text(item));
        assert(done + texts =~= (done + dl_texts).push(param_text(item)));
        lemma_params_check_push(done + dl_texts, param_text(item), fields, recognised);
        lemma_split_param(item);
        lemma_encode_decode(last.1);
    }
}

/// The URI's own keys hold neither `&` nor `=`.
proof fn lemma_own_keys()
    ensures
        lacks(amount_key(), 38) && lacks(amount_key(), 61),
        lacks(label_key(), 38) && lacks(label_key(), 61),
        lacks(message_key(), 38) && lacks(message_key(), 61),
        amount_key() != label_key() && amount_key() != message_key() && label_key()
            != message_key(),
{
    assert(amount_key().len() != label_key().len());
    assert(label_key().len() != message_key().len());
    assert(amount_key().len() != message_key().len());
}

/// A written parameter has no `&` when neither its key nor its value has.
proof fn lemma_param_text_lacks(item: (Seq<u8>, Seq<u8>))
    requires
        lacks(item.0, 38),
        lacks(item.1, 38),
    ensures
        lacks(param_text(item), 38),
{
    let t = param_text(item);
    assert forall|i: int| 0 <= i < t.len() implies #[trigger] t[i] != 38 by {
        if i < item.0.len() {
            assert(t[i] == item.0[i]);
        } else if i > item.0.len() {
            assert(t[i] == item.1[i - item.0.len() - 1]);
        }
    }
}

/// A percent-encoding has no `&`.
proof fn lemma_encoded_lacks_amp(b: Seq<u8>)
    ensures
        lacks(percent_encoded(b), 38),
{
    lemma_encoded_safe(b);
    let e = percent_encoded(b);
    assert forall|i: int| 0 <= i < e.len() implies #[trigger] e[i] != 38 by {
        assert(safe_in_query(e));
    }
}

/// The text of an amount has no `&`.
proof fn lemma_amount_lacks_amp(sats: u64)
    requires
        amount_reads_back(sats),
    ensures
        lacks(encode_utf8(btc_text(sats)), 38),
{
    let c = btc_text(sats);
    lemma_btc_text_chars(sats);
    assert(is_ascii_chars(c)) by {
        assert forall|i: int| 0 <= i < c.len() implies '\0' <= #[trigger] c[i] <= '\u{7f}' by {
            assert(is_amount_char(c[i]));
        }
    }
    is_ascii_chars_encode_utf8(c);
    let b = encode_utf8(c);
    assert forall|i: int| 0 <= i < b.len() implies #[trigger] b[i] != 38 by {
        assert(b[i] == c[i] as u8);
        assert(is_amount_char(c[i]));
    }
}

/// No written parameter has an `&`.
proof fn lemma_items_lack_amp(
    amount: Option<u64>,
    label: Option<Seq<u8>>,
    message: Option<Seq<u8>>,
    extras: Seq<(Seq<u8>, Seq<u8>)>,
    recognised: spec_fn(Seq<u8>) -> bool,
)
    requires
        amount matches Some(sats) ==> amount_reads_back(sats),
        forall|i: int| 0 <= i < extras.len() ==> extra_key_reads_back(#[trigger] extras[i].0, recognised),
    ensures
        forall|i: int|
            0 <= i < (own_items(amount, label, message) + extra_items(extras)).len() ==> lacks(
                #[trigger] param_text((own_items(amount, label, message) + extra_items(extras))[i]),
                38,
            ),
{
    let own = own_items(amount, label, message);
    let items = own + extra_items(extras);
    lemma_own_keys();
    assert forall|i: int| 0 <= i < own.len() implies lacks(#[trigger] param_text(own[i]), 38) by {
        let item = own[i];
        if item.0 == amount_key() {
            let sats = amount->0;
            lemma_amount_lacks_amp(sats);
        } else {
            lemma_encoded_lacks_amp(label->0);
            lemma_encoded_lacks_amp(message->0);
        }
        if let Some(sats) = amount {
            lemma_amount_lacks_amp(sats);
        }
        if let Some(l) = label {
            lemma_encoded_lacks_amp(l);
        }
        if let Some(m) = message {
            lemma_encoded_lacks_amp(m);
        }
        lemma_param_text_lacks(item);
    }
    assert forall|i: int| 0 <= i < items.len() implies lacks(#[trigger] param_text(items[i]), 38) by {
        if i < own.len() {
            assert(items[i] == own[i]);
        } else {
            let j = i - own.len();
            assert(items[i] == extra_items(extras)[j]);
            assert(extra_key_reads_back(extras[j].0, recognised));
            lemma_encoded_lacks_amp(extras[j].1);
            lemma_param_text_lacks(items[i]);
        }
    }
}

/// Write then read: a URI written with the library's `to_string` text reads back, under
/// `uri_check` (what `parse` follows), as its address, amount, label and message.
///
/// The address and amount are as `bitcoin` writes them (every [`crate::Address`] and every
/// amount read or written satisfies this), and each key the extras write has no `&` or `=`, is
/// not `amount`, `label` or `message`, and is recognised when it starts with `req-`.
pub proof fn law_written_uri_reads_back(
    address: Seq<char>,
    amount: Option<u64>,
    label: Option<Seq<u8>>,
    message: Option<Seq<u8>>,
    extras: Seq<(Seq<u8>, Seq<u8>)>,
    recognised: spec_fn(Seq<u8>) -> bool,
)
    requires
        address_reads_back(address),
        amount matches Some(sats) ==> amount_reads_back(sats),
        forall|i: int| 0 <= i < extras.len() ==> extra_key_reads_back(#[trigger] extras[i].0, recognised),
    ensures
        uri_check(
            uri_text(encode_utf8(address), own_items(amount, label, message) + extra_items(extras)),
            recognised,
        ) == Ok::<(Seq<char>, UriFields), UriErrorView>(
            (address, UriFields { amount, label, message }),
        ),
{
    let a = encode_utf8(address);
    let own = own_items(amount, label, message);
    let items = own + extra_items(extras);
    let t = uri_text(a, items);
    let fields = UriFields { amount, label, message };
    // The address is ASCII, with no `?`.
    assert(is_ascii_chars(address));
    is_ascii_chars_encode_utf8(address);
    assert forall|i: int| 0 <= i < a.len() implies #[trigger] a[i] != 63 by {
        assert(a[i] == address[i] as u8);
        assert(is_ascii_alphanumeric(address[i]));
    }
    // The scheme.
    assert(t.len() >= 8);
    assert forall|i: int| 0 <= i < 8 implies #[trigger] ascii_lower(t[i]) == scheme_bytes()[i] by {
        assert(t[i] == scheme_text()[i]);
    }
    assert(uri_body(t) =~= a + joined(items));
    lemma_own_keys();
    // The parameters as written.
    let texts = items.map_values(|item: (Seq<u8>, Seq<u8>)| param_text(item));
    let own_texts = own.map_values(|item: (Seq<u8>, Seq<u8>)| param_text(item));
    let extra_texts = extra_items(extras).map_values(|item: (Seq<u8>, Seq<u8>)| param_text(item));
    assert(texts =~= own_texts + extra_texts);
    // The own parameters give the fields.
    let amount_texts: Seq<Seq<u8>> = match amount {
        Some(sats) => seq![param_text((amount_key(), encode_utf8(btc_text(sats))))],
        None => Seq::empty(),
    };
    let label_texts: Seq<Seq<u8>> = match label {
        Some(l) => seq![param_text((label_key(), percent_encoded(l)))],
        None => Seq::empty(),
    };
    let message_texts: Seq<Seq<u8>> = match message {
        Some(m) => seq![param_text((message_key(), percent_encoded(m)))],
        None => Seq::empty(),
    };
    assert(own_texts =~= amount_texts + label_texts + message_texts);
    let f1 = UriFields { amount, label: None, message: None };
    let f2 = UriFields { amount, label, message: None };
    assert(params_check(amount_texts, recognised) == Ok::<UriFields, UriErrorView>(f1)) by {
        if let Some(sats) = amount {
            let item = (amount_key(), encode_utf8(btc_text(sats)));
            lemma_params_check_push(Seq::empty(), param_text(item), no_fields(), recognised);
            assert(Seq::<Seq<u8>>::empty().push(param_text(item)) =~= amount_texts);
            lemma_split_param(item);
        } else {
            assert(amount_texts.len() == 0);
        }
    }
    assert(params_check(amount_texts + label_texts, recognised) == Ok::<UriFields, UriErrorView>(
        f2,
    )) by {
        if let Some(l) = label {
            let item = (label_key(), percent_encoded(l));
            lemma_params_check_push(amount_texts, param_text(item), f1, recognised);
            assert(amount_texts.push(param_text(item)) =~= amount_texts + label_texts);
            lemma_split_param(item);
            lemma_encode_decode(l);
        } else {
            assert(amount_texts + label_texts =~= amount_texts);
        }
    }
    assert(params_check(own_texts, recognised) == Ok::<UriFields, UriErrorView>(fields)) by {
        if let Some(m) = message {
            let item = (message_key(), percent_encoded(m));
            lemma_params_check_push(amount_texts + label_texts, param_text(item), f2, recognised);
            assert((amount_texts + label_texts).push(param_text(item)) =~= own_texts);
            lemma_split_param(item);
            lemma_encode_decode(m);
        } else {
            assert(amount_texts + label_texts =~= own_texts);
        }
    }
    lemma_extras_neutral(own_texts, extras, fields, recognised);
    // Splitting the text back.
    if items.len() == 0 {
        assert(joined(items) =~= Seq::<u8>::empty());
        assert(uri_body(t) =~= a);
        lemma_lacks_first_index(a, 63);
        assert(address_part(t) == a);
        assert(uri_params(t) =~= Seq::<Seq<u8>>::empty());
        assert(texts =~= Seq::<Seq<u8>>::empty());
    } else {
        lemma_joined_amp(items);
        assert(uri_body(t) =~= a + (seq![63u8] + amp_joined(items)));
        lemma_lacks_first_index(a, 63);
        lemma_first_index_unique(seq![63u8] + amp_joined(items), 63, 0);
        lemma_first_index_concat(a, seq![63u8] + amp_joined(items), 63);
        assert(uri_body(t).subrange(0, a.len() as int) =~= a);
        assert(uri_body(t).subrange(a.len() + 1int, uri_body(t).len() as int) =~= amp_joined(items));
        lemma_items_lack_amp(amount, label, message, extras, recognised);
        lemma_param_list_items(items);
    }
    assert(decode_utf8(address_part(t)) == address);
}


/// Write then read, over the library's functions: when `text` is what [`Uri::to_string`] wrote
/// for `uri` (whose extras gave `params`) and `r` is what [`Uri::parse`] gave for `text`, only the
/// extras can refuse it, and what was read is the address, amount, label and message written.
///
/// The amount is one that `bitcoin` writes and reads back (as every amount does, see
/// `format_btc_amount`), and the extras' keys are as in [`law_written_uri_reads_back`].
pub proof fn law_parse_reads_what_to_string_wrote<'a, 'b, T, S: DeserializationState<'b>, E>(
    uri: Uri<'a, NetworkChecked, T>,
    params: Seq<(Seq<u8>, Seq<u8>)>,
    text: &'b str,
    r: Result<Uri<'b, NetworkUnchecked, S::Value>, Error<E>>,
)
    requires
        bytes_of(text) == uri_text(
            encode_utf8(uri.address.text()),
            own_items(uri.amount, decoded_of(uri.label), decoded_of(uri.message)) + extra_items(
                params,
            ),
        ),
        parse_spec::<S, E>(text, r),
        address_reads_back(uri.address.text()),
        uri.amount matches Some(sats) ==> amount_reads_back(sats),
        forall|i: int|
            0 <= i < params.len() ==> extra_key_reads_back(
                #[trigger] params[i].0,
                recognised_keys::<S>(),
            ),
    ensures
        r is Ok || r matches Err(Error::Extras(_)),
        r matches Ok(read) ==> read.address.text() == uri.address.text() && read.amount
            == uri.amount && decoded_of(read.label) == decoded_of(uri.label) && decoded_of(
            read.message,
        ) == decoded_of(uri.message),
{
    law_written_uri_reads_back(
        uri.address.text(),
        uri.amount,
        decoded_of(uri.label),
        decoded_of(uri.message),
        params,
        recognised_keys::<S>(),
    );
}


/// Write then read with no extras: parsing what [`Uri::to_string`] wrote for a URI without
/// extras succeeds, and gives back the address, amount, label and message written.
///
/// The address and amount are ones that `bitcoin` writes and reads back (as every one does, see
/// `bitcoin_canonical_address` and `format_btc_amount`).
pub proof fn law_no_extras_round_trip<'a, 'b>(
    uri: Uri<'a, NetworkChecked, NoExtras>,
    text: &'b str,
    r: Result<Uri<'b, NetworkUnchecked, NoExtras>, Error<core::convert::Infallible>>,
)
    requires
        bytes_of(text) == uri_text(
            encode_utf8(uri.address.text()),
            own_items(uri.amount, decoded_of(uri.label), decoded_of(uri.message)) + extra_items(
                Seq::empty(),
            ),
        ),
        parse_from_default::<EmptyState>(bytes_of(text), r),
        address_reads_back(uri.address.text()),
        uri.amount matches Some(sats) ==> amount_reads_back(sats),
    ensures
        r matches Ok(read) && read.address.text() == uri.address.text() && read.amount
            == uri.amount && decoded_of(read.label) == decoded_of(uri.label) && decoded_of(
            read.message,
        ) == decoded_of(uri.message) && read.extras == NoExtras,
{
    law_written_uri_reads_back(
        uri.address.text(),
        uri.amount,
        decoded_of(uri.label),
        decoded_of(uri.message),
        Seq::empty(),
        recognised_keys::<EmptyState>(),
    );
    let b = bytes_of(text);
    let (init, values) = choose|init: EmptyState, values: Seq<crate::param::Param<'b>>|
        #![trigger call_ensures(EmptyState::default, (), init), crate::de::handed_while_parsing(b, values, init)]
        call_ensures(EmptyState::default, (), init) && crate::de::handed_while_parsing(b, values, init)
            && crate::de::parse_result(b, init, values, r);
    lemma_empty_extras_fold(uri_params(b), values);
    assert(init == EmptyState);
}

} // verus!
