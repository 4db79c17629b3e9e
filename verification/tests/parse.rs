use bip21::de::{Error, UriError};
use bip21::{Address, AddressError, Network, NetworkUnchecked, NoExtras, Param, Uri};

const ADDR: &str = "1andreas3batLhQa2FawWjeyjCqyBzypd";

fn parse(input: &str) -> Result<Uri<'_, NetworkUnchecked, NoExtras>, Error<core::convert::Infallible>> {
    Uri::parse(input)
}

fn uri_error(input: &str) -> UriError {
    match parse(input) {
        Err(Error::Uri(e)) => e,
        Err(Error::Extras(never)) => match never {},
        Ok(_) => panic!("accepted {}", input),
    }
}

#[test]
fn too_short_is_refused() {
    assert_eq!(uri_error("bitcoin"), UriError::TooShort);
    assert_eq!(uri_error(""), UriError::TooShort);
}

#[test]
fn wrong_scheme_is_refused() {
    assert_eq!(uri_error("bitcorn:1andreas3batLhQa2FawWjeyjCqyBzypd"), UriError::InvalidScheme);
    assert_eq!(uri_error("litecoin:abc"), UriError::InvalidScheme);
}

#[test]
fn scheme_in_any_case_is_accepted_and_written_lower() {
    let uri = parse("BitCoin:1andreas3batLhQa2FawWjeyjCqyBzypd?amount=1").unwrap().assume_checked();
    assert_eq!(uri.amount, Some(100_000_000));
    assert_eq!(uri.to_string(), "bitcoin:1andreas3batLhQa2FawWjeyjCqyBzypd?amount=1");
}

#[test]
fn invalid_address_is_refused() {
    assert_eq!(uri_error("bitcoin:notanaddress"), UriError::Address(AddressError::Invalid));
    assert_eq!(uri_error("bitcoin:"), UriError::Address(AddressError::Invalid));
    assert_eq!(uri_error("bitcoin:?amount=1"), UriError::Address(AddressError::Invalid));
}

#[test]
fn bech32_address_is_written_in_lower_case() {
    let uri = parse("bitcoin:BC1ZW508D6QEJXTDG4Y5R3ZARVARYVAXXPCS").unwrap();
    assert_eq!(uri.address.as_str(), "bc1zw508d6qejxtdg4y5r3zarvaryvaxxpcs");
    let uri = uri.require_network(Network::Bitcoin).unwrap();
    assert_eq!(uri.to_string(), "bitcoin:bc1zw508d6qejxtdg4y5r3zarvaryvaxxpcs");
}

#[test]
fn network_is_checked() {
    let testnet = parse("bitcoin:2N83imGV3gPwBzKJQvWJ7cRUY2SpUyU6A5e").unwrap();
    assert!(testnet.address.is_valid_for_network(Network::Testnet));
    assert!(testnet.address.is_valid_for_network(Network::Regtest));
    assert!(!testnet.address.is_valid_for_network(Network::Bitcoin));
    match testnet.require_network(Network::Bitcoin) {
        Err(e) => assert_eq!(e, AddressError::WrongNetwork),
        Ok(_) => panic!("testnet address accepted for mainnet"),
    }
    let mainnet = parse("bitcoin:32iVBEu4dxkUQk9dJbZUiBiQdmypcEyJRf").unwrap();
    assert!(mainnet.require_network(Network::Bitcoin).is_ok());
}

#[test]
fn parameter_without_equals_is_refused() {
    assert_eq!(
        uri_error("bitcoin:1andreas3batLhQa2FawWjeyjCqyBzypd?amount=1&label"),
        UriError::MissingEquals("label".to_string())
    );
    assert_eq!(
        uri_error("bitcoin:1andreas3batLhQa2FawWjeyjCqyBzypd?"),
        UriError::MissingEquals(String::new())
    );
}

#[test]
fn duplicates_are_refused() {
    assert_eq!(
        uri_error("bitcoin:1andreas3batLhQa2FawWjeyjCqyBzypd?amount=1&amount=2"),
        UriError::DuplicateAmount
    );
    assert_eq!(
        uri_error("bitcoin:1andreas3batLhQa2FawWjeyjCqyBzypd?label=a&message=b&label=c"),
        UriError::DuplicateLabel
    );
    assert_eq!(
        uri_error("bitcoin:1andreas3batLhQa2FawWjeyjCqyBzypd?message=a&message=b"),
        UriError::DuplicateMessage
    );
}

#[test]
fn invalid_amounts_are_refused() {
    assert_eq!(uri_error("bitcoin:1andreas3batLhQa2FawWjeyjCqyBzypd?amount=abc"), UriError::Amount);
    assert_eq!(uri_error("bitcoin:1andreas3batLhQa2FawWjeyjCqyBzypd?amount=-1"), UriError::Amount);
    assert_eq!(uri_error("bitcoin:1andreas3batLhQa2FawWjeyjCqyBzypd?amount=0.000000001"), UriError::Amount);
    assert_eq!(uri_error("bitcoin:1andreas3batLhQa2FawWjeyjCqyBzypd?amount="), UriError::Amount);
}

#[test]
fn amounts_are_read_in_bitcoins() {
    let uri = parse("bitcoin:1andreas3batLhQa2FawWjeyjCqyBzypd?amount=0.00000001").unwrap();
    assert_eq!(uri.amount, Some(1));
    let uri = parse("bitcoin:1andreas3batLhQa2FawWjeyjCqyBzypd?amount=21000000").unwrap();
    assert_eq!(uri.amount, Some(2_100_000_000_000_000));
}

#[test]
fn invalid_percent_encoding_is_refused() {
    assert_eq!(
        uri_error("bitcoin:1andreas3batLhQa2FawWjeyjCqyBzypd?label=%zz"),
        UriError::PercentDecode("label".to_string())
    );
    assert_eq!(
        uri_error("bitcoin:1andreas3batLhQa2FawWjeyjCqyBzypd?message=50%"),
        UriError::PercentDecode("message".to_string())
    );
    assert_eq!(
        uri_error("bitcoin:1andreas3batLhQa2FawWjeyjCqyBzypd?foo=%4"),
        UriError::PercentDecode("foo".to_string())
    );
}

#[test]
fn unknown_required_parameter_is_refused() {
    assert_eq!(
        uri_error("bitcoin:1andreas3batLhQa2FawWjeyjCqyBzypd?req-foo=1"),
        UriError::UnknownRequiredParameter("req-foo".to_string())
    );
    assert_eq!(
        uri_error("bitcoin:1andreas3batLhQa2FawWjeyjCqyBzypd?foo=1&req-amount=1"),
        UriError::UnknownRequiredParameter("req-amount".to_string())
    );
}

#[test]
fn first_error_decides() {
    assert_eq!(
        uri_error("bitcoin:1andreas3batLhQa2FawWjeyjCqyBzypd?req-foo=1&amount=x"),
        UriError::UnknownRequiredParameter("req-foo".to_string())
    );
    assert_eq!(
        uri_error("bitcoin:1andreas3batLhQa2FawWjeyjCqyBzypd?amount=x&req-foo=1"),
        UriError::Amount
    );
}

#[test]
fn optional_unknown_parameters_are_ignored() {
    let uri = parse("bitcoin:1andreas3batLhQa2FawWjeyjCqyBzypd?foo=1&re-bar=2&label=x").unwrap();
    assert_eq!(uri.label.unwrap().into_string().unwrap(), "x");
}

#[test]
fn values_are_percent_decoded() {
    let uri = parse("bitcoin:1andreas3batLhQa2FawWjeyjCqyBzypd?label=caf%C3%A9%20%26%3d").unwrap();
    let label = uri.label.unwrap();
    assert_eq!(label.clone().into_vec(), "café &=".as_bytes().to_vec());
    assert_eq!(label.into_string().unwrap(), "café &=");
}

#[test]
fn undecodable_text_is_an_error_of_the_conversion() {
    let uri = parse("bitcoin:1andreas3batLhQa2FawWjeyjCqyBzypd?message=%FF").unwrap();
    let message = uri.message.unwrap();
    assert_eq!(message.clone().into_vec(), vec![0xFF]);
    assert!(message.clone().into_cow_str().is_err());
    assert!(message.into_string().is_err());
}

#[test]
fn owned_parse_outlives_the_text() {
    let uri: Uri<'static, NetworkUnchecked, NoExtras> = {
        let text = String::from("bitcoin:1andreas3batLhQa2FawWjeyjCqyBzypd?label=a%20b");
        text.parse().unwrap()
    };
    assert_eq!(uri.label.unwrap().into_string().unwrap(), "a b");
}

#[test]
fn written_uri_reads_back() {
    let address = Address::parse(ADDR).unwrap().require_network(Network::Bitcoin).unwrap();
    let mut uri: Uri<'_> = Uri::new(address);
    uri.amount = Some(12_345_678);
    uri.label = Some(Param::from("Luke-Jr & friends=1"));
    uri.message = Some(Param::from(String::from("café ~._- 100%")));
    let text = uri.to_string();
    assert_eq!(
        text,
        "bitcoin:1andreas3batLhQa2FawWjeyjCqyBzypd?amount=0.12345678&label=Luke-Jr%20%26%20friends%3D1&message=caf%C3%A9%20~._-%20100%25"
    );
    let back = parse(&text).unwrap();
    assert_eq!(back.address.as_str(), ADDR);
    assert_eq!(back.amount, Some(12_345_678));
    assert_eq!(back.label.unwrap().into_string().unwrap(), "Luke-Jr & friends=1");
    assert_eq!(back.message.unwrap().into_string().unwrap(), "café ~._- 100%");
}

#[test]
fn amounts_are_written_without_trailing_zeros() {
    let address = Address::parse(ADDR).unwrap().assume_checked();
    let mut uri: Uri<'_> = Uri::new(address);
    uri.amount = Some(1);
    assert_eq!(uri.to_string(), "bitcoin:1andreas3batLhQa2FawWjeyjCqyBzypd?amount=0.00000001");
    uri.amount = Some(100_000_000);
    assert_eq!(uri.to_string(), "bitcoin:1andreas3batLhQa2FawWjeyjCqyBzypd?amount=1");
    uri.amount = Some(2_030_000_000);
    assert_eq!(uri.to_string(), "bitcoin:1andreas3batLhQa2FawWjeyjCqyBzypd?amount=20.3");
}

#[test]
fn new_uri_has_no_parameters() {
    let address = Address::parse(ADDR).unwrap().assume_checked();
    let uri: Uri<'_> = Uri::new(address);
    assert!(uri.amount.is_none() && uri.label.is_none() && uri.message.is_none());
    assert_eq!(uri.to_string(), "bitcoin:1andreas3batLhQa2FawWjeyjCqyBzypd");
}

#[test]
fn into_owned_keeps_the_fields() {
    let uri = parse("bitcoin:1andreas3batLhQa2FawWjeyjCqyBzypd?amount=2&message=hi%21").unwrap();
    let owned: Uri<'static, NetworkUnchecked, NoExtras> = uri.into_owned();
    assert_eq!(owned.amount, Some(200_000_000));
    assert!(owned.label.is_none());
    assert_eq!(owned.message.unwrap().into_string().unwrap(), "hi!");
}
