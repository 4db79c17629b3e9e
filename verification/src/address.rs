//! Bitcoin addresses and amounts as the URI logic sees them.
//!
//! The address is held as its canonical text, which `bitcoin` computes; whether an address
//! belongs to a network is also asked of `bitcoin`. Amounts are held as a number of satoshis.

use std::marker::PhantomData;
use vstd::prelude::*;

verus! {

/// The network an address is meant for.
#[derive(Debug, Clone, Copy, PartialEq, Eq, Structural)]
pub enum Network {
    /// Mainnet Bitcoin.
    Bitcoin,
    /// Bitcoin's testnet network.
    Testnet,
    /// Bitcoin's testnet4 network.
    Testnet4,
    /// Bitcoin's signet network.
    Signet,
    /// Bitcoin's regtest network.
    Regtest,
}

/// Marker that the address's network has been validated.
#[derive(Debug, Clone, Copy, PartialEq, Eq)]
pub struct NetworkChecked;

/// Marker that the address's network has not yet been validated.
#[derive(Debug, Clone, Copy, PartialEq, Eq)]
pub struct NetworkUnchecked;

/// What `bitcoin` writes for the address parsed from `text`, or nothing when it does not
/// parse.
pub uninterp spec fn canonical_address(text: Seq<char>) -> Option<Seq<char>>;

/// Whether `bitcoin` accepts the address parsed from `text` for `network`.
pub uninterp spec fn address_on_network(text: Seq<char>, network: Network) -> bool;

/// An ASCII letter or digit.
pub open spec fn is_ascii_alphanumeric(c: char) -> bool {
    ('0' <= c <= '9') || ('a' <= c <= 'z') || ('A' <= c <= 'Z')
}

/// `text` is what `bitcoin` writes for an address: made of ASCII letters and digits, and read
/// back as the same address.
pub open spec fn address_reads_back(text: Seq<char>) -> bool {
    &&& canonical_address(text) == Some(text)
    &&& forall|i: int| 0 <= i < text.len() ==> is_ascii_alphanumeric(#[trigger] text[i])
}

/// Parses `text` with `bitcoin` (`FromStr for Address<NetworkUnchecked>`) and writes the
/// parsed address back with its `Display`; nothing when it does not parse.
///
/// The result is named, not stated: base58check and bech32 decoding are the `bitcoin` crate's.
/// Of the text written the contract states two facts from that crate's source: it is made of
/// the base58 alphabet or of a bech32 human-readable part, `1` and the bech32 charset (ASCII
/// letters and digits), and it parses back to the same address (the crate's own tests check this
/// round trip).
#[verifier::external_body]
fn bitcoin_canonical_address(text: &str) -> (r: Option<String>)
    ensures
        match r {
            Some(s) => canonical_address(text@) == Some(s@) && address_reads_back(s@),
            None => canonical_address(text@) is None,
        },
{
    match text.parse::<bitcoin::Address<bitcoin::address::NetworkUnchecked>>() {
        Ok(address) => Some(address.assume_checked().to_string()),
        Err(_) => None,
    }
}

/// Parses `text` with `bitcoin` and calls `Address::require_network`, which succeeds when the
/// address is valid for `network` (legacy testnet, regtest and signet addresses share a prefix).
///
/// The result is named, not stated; it is `false` when `text` does not parse.
#[verifier::external_body]
fn bitcoin_address_on_network(text: &str, network: Network) -> (r: bool)
    ensures
        r == address_on_network(text@, network),
{
    let required = match network {
        Network::Bitcoin => bitcoin::Network::Bitcoin,
        Network::Testnet => bitcoin::Network::Testnet,
        Network::Testnet4 => bitcoin::Network::Testnet4,
        Network::Signet => bitcoin::Network::Signet,
        Network::Regtest => bitcoin::Network::Regtest,
    };
    match text.parse::<bitcoin::Address<bitcoin::address::NetworkUnchecked>>() {
        Ok(address) => address.require_network(required).is_ok(),
        Err(_) => false,
    }
}

/// Why an address was refused.
#[derive(Debug, Clone, Copy, PartialEq, Eq, Structural)]
pub enum AddressError {
    /// The text is not a bitcoin address.
    Invalid,
    /// The address does not belong to the required network.
    WrongNetwork,
}

/// A bitcoin address, held as the text `bitcoin` writes for it.
///
/// `V` is [`NetworkChecked`] once the address has been checked against a network and
/// [`NetworkUnchecked`] before.
#[derive(Debug)]
pub struct Address<V = NetworkChecked> {
    text: String,
    marker: PhantomData<V>,
}

impl<V> Address<V> {
    /// The text is always what `bitcoin` writes for an address.
    #[verifier::type_invariant]
    closed spec fn written_by_bitcoin(self) -> bool {
        address_reads_back(self.text@)
    }

    /// The canonical text of the address.
    pub closed spec fn text(self) -> Seq<char> {
        self.text@
    }

    /// The canonical text of the address; `bitcoin` reads it back as the same address.
    pub fn as_str(&self) -> (r: &str)
        ensures
            r@ == self.text(),
            address_reads_back(r@),
    {
        proof {
            use_type_invariant(self);
        }
        self.text.as_str()
    }

    /// The canonical text of the address, owned; `bitcoin` reads it back as the same address.
    pub fn to_string(&self) -> (r: String)
        ensures
            r@ == self.text(),
            address_reads_back(r@),
    {
        proof {
            use_type_invariant(self);
        }
        self.text.clone()
    }
}

impl<V> Clone for Address<V> {
    fn clone(&self) -> (r: Self)
        ensures
            r.text() == self.text(),
    {
        proof {
            use_type_invariant(self);
        }
        Address { text: self.text.clone(), marker: PhantomData }
    }
}

impl Address<NetworkUnchecked> {
    /// Parses an address whose network is not checked yet.
    pub fn parse(text: &str) -> (r: Result<Self, AddressError>)
        ensures
            match canonical_address(text@) {
                Some(t) => r matches Ok(a) && a.text() == t,
                None => r == Err::<Self, AddressError>(AddressError::Invalid),
            },
    {
        match bitcoin_canonical_address(text) {
            Some(t) => Ok(Address { text: t, marker: PhantomData }),
            None => Err(AddressError::Invalid),
        }
    }

    /// Checks whether the address belongs to `network`.
    pub fn is_valid_for_network(&self, network: Network) -> (r: bool)
        ensures
            r == address_on_network(self.text(), network),
    {
        bitcoin_address_on_network(self.text.as_str(), network)
    }

    /// Checks whether the address belongs to `required`, and marks it checked if it does.
    pub fn require_network(self, required: Network) -> (r: Result<Address<NetworkChecked>, AddressError>)
        ensures
            address_on_network(self.text(), required) ==> (r matches Ok(a) && a.text()
                == self.text()),
            !address_on_network(self.text(), required) ==> r == Err::<
                Address<NetworkChecked>,
                AddressError,
            >(AddressError::WrongNetwork),
    {
        proof {
            use_type_invariant(&self);
        }
        if self.is_valid_for_network(required) {
            Ok(Address { text: self.text, marker: PhantomData })
        } else {
            Err(AddressError::WrongNetwork)
        }
    }

    /// Marks the address checked without checking it.
    pub fn assume_checked(self) -> (r: Address<NetworkChecked>)
        ensures
            r.text() == self.text(),
    {
        proof {
            use_type_invariant(&self);
        }
        Address { text: self.text, marker: PhantomData }
    }
}

/// The number of satoshis that `bitcoin` reads from `text` written in bitcoins, or nothing when
/// it refuses the text.
pub uninterp spec fn btc_amount(text: Seq<char>) -> Option<u64>;

/// The decimal digit `d` (below ten) as a character.
pub open spec fn digit_char(d: nat) -> char {
    (48 + d) as char
}

/// The decimal text of `n`, most significant digit first.
pub open spec fn decimal_text(n: nat) -> Seq<char>
    decreases n,
{
    if n < 10 {
        seq![digit_char(n)]
    } else {
        decimal_text(n / 10).push(digit_char(n % 10))
    }
}

/// The last `width` decimal digits of `n`, with leading zeros.
pub open spec fn padded_digits(n: nat, width: nat) -> Seq<char>
    decreases width,
{
    if width == 0 {
        Seq::empty()
    } else {
        padded_digits(n / 10, (width - 1) as nat).push(digit_char(n % 10))
    }
}

/// `s` without its trailing `0`s.
pub open spec fn drop_trailing_zeros(s: Seq<char>) -> Seq<char>
    decreases s.len(),
{
    if s.len() > 0 && s.last() == '0' {
        drop_trailing_zeros(s.drop_last())
    } else {
        s
    }
}

/// The text `bitcoin` writes for `sats` satoshis in bitcoins, with no denomination: the whole
/// bitcoins in decimal, then, unless the fraction is zero, `.` and the fraction's eight digits
/// without their trailing zeros.
pub open spec fn btc_text(sats: u64) -> Seq<char> {
    let whole = sats / 100_000_000u64;
    let fraction = sats % 100_000_000u64;
    decimal_text(whole as nat) + if fraction == 0 {
        Seq::empty()
    } else {
        seq!['.'] + drop_trailing_zeros(padded_digits(fraction as nat, 8))
    }
}

/// A character of a written amount.
pub open spec fn is_amount_char(c: char) -> bool {
    '0' <= c <= '9' || c == '.'
}

proof fn lemma_digit_char(d: nat)
    requires
        d < 10,
    ensures
        '0' <= digit_char(d) <= '9',
{
}

proof fn lemma_decimal_text(n: nat)
    ensures
        forall|i: int| 0 <= i < decimal_text(n).len() ==> '0' <= #[trigger] decimal_text(n)[i] <= '9',
    decreases n,
{
    if n < 10 {
        lemma_digit_char(n);
    } else {
        lemma_decimal_text(n / 10);
        lemma_digit_char(n % 10);
        let t = decimal_text(n / 10);
        assert forall|i: int| 0 <= i < decimal_text(n).len() implies '0' <= #[trigger] decimal_text(n)[i] <= '9' by {
            if i < t.len() {
                assert(decimal_text(n)[i] == t[i]);
            }
        }
    }
}

proof fn lemma_padded_digits(n: nat, width: nat)
    ensures
        forall|i: int| 0 <= i < padded_digits(n, width).len() ==> '0' <= #[trigger] padded_digits(n, width)[i] <= '9',
    decreases width,
{
    if width > 0 {
        lemma_padded_digits(n / 10, (width - 1) as nat);
        lemma_digit_char(n % 10);
        let t = padded_digits(n / 10, (width - 1) as nat);
        assert forall|i: int| 0 <= i < padded_digits(n, width).len() implies '0' <= #[trigger] padded_digits(n, width)[i] <= '9' by {
            if i < t.len() {
                assert(padded_digits(n, width)[i] == t[i]);
            }
        }
    }
}

proof fn lemma_drop_trailing_zeros(s: Seq<char>)
    ensures
        drop_trailing_zeros(s).len() <= s.len(),
        forall|i: int| 0 <= i < drop_trailing_zeros(s).len() ==> #[trigger] drop_trailing_zeros(s)[i] == s[i],
    decreases s.len(),
{
    if s.len() > 0 && s.last() == '0' {
        lemma_drop_trailing_zeros(s.drop_last());
    }
}

/// A written amount is made of ASCII digits and `.`.
pub proof fn lemma_btc_text_chars(sats: u64)
    ensures
        forall|i: int| 0 <= i < btc_text(sats).len() ==> is_amount_char(#[trigger] btc_text(sats)[i]),
{
    let whole = sats / 100_000_000u64;
    let fraction = sats % 100_000_000u64;
    lemma_decimal_text(whole as nat);
    let d = decimal_text(whole as nat);
    if fraction == 0 {
        assert(btc_text(sats) =~= d);
    } else {
        let p = padded_digits(fraction as nat, 8);
        lemma_padded_digits(fraction as nat, 8);
        lemma_drop_trailing_zeros(p);
        let t = seq!['.'] + drop_trailing_zeros(p);
        assert forall|i: int| 0 <= i < btc_text(sats).len() implies is_amount_char(#[trigger] btc_text(sats)[i]) by {
            if i < d.len() {
                assert(btc_text(sats)[i] == d[i]);
            } else if i == d.len() {
                assert(btc_text(sats)[i] == '.');
            } else {
                assert(btc_text(sats)[i] == drop_trailing_zeros(p)[i - d.len() - 1]);
            }
        }
    }
}

/// `bitcoin` reads the text it writes for `sats` back as `sats`.
pub open spec fn amount_reads_back(sats: u64) -> bool {
    btc_amount(btc_text(sats)) == Some(sats)
}

/// Calls `bitcoin::Amount::from_str_in(text, Denomination::Bitcoin)` and takes the satoshis.
///
/// The result is named, not stated: the decimal grammar, its limits on length and precision and
/// its overflow checks are `bitcoin`'s. Of an amount read the contract states the fact of
/// `amount_reads_back`, as for every number of satoshis (see `format_btc_amount`).
#[verifier::external_body]
pub(crate) fn parse_btc_amount(text: &str) -> (r: Option<u64>)
    ensures
        r == btc_amount(text@),
        r matches Some(sats) ==> amount_reads_back(sats),
{
    match bitcoin::Amount::from_str_in(text, bitcoin::Denomination::Bitcoin) {
        Ok(amount) => Some(amount.to_sat()),
        Err(_) => None,
    }
}

/// Calls `bitcoin::Amount::display_in(Denomination::Bitcoin)` on `sats` satoshis and writes it.
///
/// Per the source (`fmt_satoshi_in` with the Bitcoin denomination and default format
/// options), the text is `btc_text(sats)`: the whole bitcoins, then, if the fraction is not
/// zero, `.` and its eight digits without trailing zeros, with no sign or padding. Per
/// `parse_signed_to_satoshi`, `from_str_in` reads such a text (at most 21 characters for a
/// `u64`) back as `sats`.
#[verifier::external_body]
pub(crate) fn format_btc_amount(sats: u64) -> (r: String)
    ensures
        r@ == btc_text(sats),
        btc_amount(r@) == Some(sats),
{
    bitcoin::Amount::from_sat(sats).display_in(bitcoin::Denomination::Bitcoin).to_string()
}

} // verus!
