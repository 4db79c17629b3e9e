use bip21::de::{DeserializationError, DeserializationState, DeserializeParams, ParamKind, UriError};
use bip21::ser::{ParamList, SerializeParams};
use bip21::{Address, Network, NoExtras, Param, Uri};
use std::borrow::Cow;

fn check_send_sync<T: Send + Sync>() {}

#[test]
fn send_sync() {
    check_send_sync::<UriError>();
}

// Note: the official test vectors contained an invalid address so it was replaced with the address of Andreas Antonopoulos.

#[test]
fn just_address() {
    let input = "bitcoin:1andreas3batLhQa2FawWjeyjCqyBzypd";
    let uri = input.parse::<Uri<'_, _>>().unwrap().require_network(Network::Bitcoin).unwrap();
    assert_eq!(uri.address.to_string(), "1andreas3batLhQa2FawWjeyjCqyBzypd");
    assert!(uri.amount.is_none());
    assert!(uri.label.is_none());
    assert!(uri.message.is_none());

    assert_eq!(uri.to_string(), input);
}

#[test]
fn address_with_name() {
    let input = "bitcoin:1andreas3batLhQa2FawWjeyjCqyBzypd?label=Luke-Jr";
    let uri = input.parse::<Uri<'_, _>>().unwrap().require_network(Network::Bitcoin).unwrap();
    let label: Cow<'_, str> = uri.label.clone().unwrap().try_into().unwrap();
    assert_eq!(uri.address.to_string(), "1andreas3batLhQa2FawWjeyjCqyBzypd");
    assert_eq!(label, "Luke-Jr");
    assert!(uri.amount.is_none());
    assert!(uri.message.is_none());

    assert_eq!(uri.to_string(), input);
}

#[allow(clippy::inconsistent_digit_grouping)] // Use sats/bitcoin when grouping.
#[test]
fn request_20_point_30_btc_to_luke_dash_jr() {
    let input = "bitcoin:1andreas3batLhQa2FawWjeyjCqyBzypd?amount=20.3&label=Luke-Jr";
    let uri = input.parse::<Uri<'_, _>>().unwrap().require_network(Network::Bitcoin).unwrap();
    let label: Cow<'_, str> = uri.label.clone().unwrap().try_into().unwrap();
    assert_eq!(uri.address.to_string(), "1andreas3batLhQa2FawWjeyjCqyBzypd");
    assert_eq!(label, "Luke-Jr");
    assert_eq!(uri.amount.map(bitcoin::Amount::from_sat), Some(bitcoin::Amount::from_sat(20_30_000_000)));
    assert!(uri.message.is_none());

    assert_eq!(uri.to_string(), input);
}

#[allow(clippy::inconsistent_digit_grouping)] // Use sats/bitcoin when grouping.
#[test]
fn request_50_btc_with_message() {
    let input = "bitcoin:1andreas3batLhQa2FawWjeyjCqyBzypd?amount=50&label=Luke-Jr&message=Donation%20for%20project%20xyz";
    let uri = input.parse::<Uri<'_, _>>().unwrap().require_network(Network::Bitcoin).unwrap();
    let label: Cow<'_, str> = uri.label.clone().unwrap().try_into().unwrap();
    let message: Cow<'_, str> = uri.message.clone().unwrap().try_into().unwrap();
    assert_eq!(uri.address.to_string(), "1andreas3batLhQa2FawWjeyjCqyBzypd");
    assert_eq!(uri.amount.map(bitcoin::Amount::from_sat), Some(bitcoin::Amount::from_sat(50_00_000_000)));
    assert_eq!(label, "Luke-Jr");
    assert_eq!(message, "Donation for project xyz");

    assert_eq!(uri.to_string(), input);
}

#[test]
fn required_not_understood() {
    let input = "bitcoin:1andreas3batLhQa2FawWjeyjCqyBzypd?req-somethingyoudontunderstand=50&req-somethingelseyoudontget=999";
    let uri = input.parse::<Uri<'_, _>>();
    assert!(uri.is_err());
}

#[test]
fn required_understood() {
    let input = "bitcoin:1andreas3batLhQa2FawWjeyjCqyBzypd?somethingyoudontunderstand=50&somethingelseyoudontget=999";
    let uri = input.parse::<Uri<'_, _>>().unwrap().require_network(Network::Bitcoin).unwrap();
    assert_eq!(uri.address.to_string(), "1andreas3batLhQa2FawWjeyjCqyBzypd");
    assert!(uri.amount.is_none());
    assert!(uri.label.is_none());
    assert!(uri.message.is_none());
}

// Tests for composable extras

// Example extras types for testing
#[derive(Debug, Default, Clone, PartialEq)]
struct LightningExtras {
    lightning: Option<String>,
}

#[derive(Debug, Default)]
struct LightningState {
    lightning: Option<String>,
}

impl DeserializationError for LightningExtras {
    type Error = core::convert::Infallible;
}

impl DeserializeParams<'_> for LightningExtras {
    type DeserializationState = LightningState;
}

impl<'de> DeserializationState<'de> for LightningState {
    type Value = LightningExtras;

    fn recognises(_key: vstd::seq::Seq<u8>) -> bool {
        unreachable!()
    }

    fn finalized(self) -> Result<LightningExtras, core::convert::Infallible> {
        unreachable!()
    }

    fn taken(self, _key: vstd::seq::Seq<u8>, _value: vstd::seq::Seq<u8>) -> Result<ParamKind, core::convert::Infallible> {
        unreachable!()
    }

    fn after(self, _key: vstd::seq::Seq<u8>, _value: vstd::seq::Seq<u8>) -> Self {
        unreachable!()
    }

    fn is_param_known(&self, key: &str) -> bool {
        key == "lightning"
    }

    fn deserialize_borrowed(&mut self, key: &'de str, value: Param<'de>) -> Result<ParamKind, <Self::Value as DeserializationError>::Error> {
        self.deserialize_temp(key, value)
    }

    fn deserialize_temp(&mut self, key: &str, value: Param<'_>) -> Result<ParamKind, <Self::Value as DeserializationError>::Error> {
        if key == "lightning" {
            self.lightning = Some(String::try_from(value).unwrap());
            Ok(ParamKind::Known)
        } else {
            Ok(ParamKind::Unknown)
        }
    }

    fn finalize(self) -> Result<Self::Value, <Self::Value as DeserializationError>::Error> {
        Ok(LightningExtras {
            lightning: self.lightning,
        })
    }
}

impl<'a> SerializeParams for &'a LightningExtras {
    type Iterator = ParamList;

    fn params(self) -> vstd::seq::Seq<(vstd::seq::Seq<u8>, vstd::seq::Seq<u8>)> {
        unreachable!()
    }

    fn serialize_params(self) -> Self::Iterator {
        let mut params = Vec::new();
        if let Some(ref lightning) = self.lightning {
            params.push(("lightning".to_string(), lightning.clone()));
        }
        ParamList::new(params)
    }
}

#[derive(Debug, Default, Clone, PartialEq)]
struct PayjoinExtras {
    pj: Option<String>,
}

#[derive(Debug, Default)]
struct PayjoinState {
    pj: Option<String>,
}

impl DeserializationError for PayjoinExtras {
    type Error = core::convert::Infallible;
}

impl DeserializeParams<'_> for PayjoinExtras {
    type DeserializationState = PayjoinState;
}

impl<'de> DeserializationState<'de> for PayjoinState {
    type Value = PayjoinExtras;

    fn recognises(_key: vstd::seq::Seq<u8>) -> bool {
        unreachable!()
    }

    fn finalized(self) -> Result<PayjoinExtras, core::convert::Infallible> {
        unreachable!()
    }

    fn taken(self, _key: vstd::seq::Seq<u8>, _value: vstd::seq::Seq<u8>) -> Result<ParamKind, core::convert::Infallible> {
        unreachable!()
    }

    fn after(self, _key: vstd::seq::Seq<u8>, _value: vstd::seq::Seq<u8>) -> Self {
        unreachable!()
    }

    fn is_param_known(&self, key: &str) -> bool {
        key == "pj"
    }

    fn deserialize_borrowed(&mut self, key: &'de str, value: Param<'de>) -> Result<ParamKind, <Self::Value as DeserializationError>::Error> {
        self.deserialize_temp(key, value)
    }

    fn deserialize_temp(&mut self, key: &str, value: Param<'_>) -> Result<ParamKind, <Self::Value as DeserializationError>::Error> {
        if key == "pj" {
            self.pj = Some(String::try_from(value).unwrap());
            Ok(ParamKind::Known)
        } else {
            Ok(ParamKind::Unknown)
        }
    }

    fn finalize(self) -> Result<Self::Value, <Self::Value as DeserializationError>::Error> {
        Ok(PayjoinExtras {
            pj: self.pj,
        })
    }
}

impl<'a> SerializeParams for &'a PayjoinExtras {
    type Iterator = ParamList;

    fn params(self) -> vstd::seq::Seq<(vstd::seq::Seq<u8>, vstd::seq::Seq<u8>)> {
        unreachable!()
    }

    fn serialize_params(self) -> Self::Iterator {
        let mut params = Vec::new();
        if let Some(ref pj) = self.pj {
            params.push(("pj".to_string(), pj.clone()));
        }
        ParamList::new(params)
    }
}

#[test]
fn compose_two_extras() {
    // Test parsing with composed extras
    let input = "bitcoin:1andreas3batLhQa2FawWjeyjCqyBzypd?lightning=lnbc1&pj=https://example.com";
    let uri = input.parse::<Uri<'_, _, (LightningExtras, PayjoinExtras)>>()
        .unwrap()
        .require_network(Network::Bitcoin)
        .unwrap();

    assert_eq!(uri.address.to_string(), "1andreas3batLhQa2FawWjeyjCqyBzypd");
    assert_eq!(uri.extras.0.lightning, Some("lnbc1".to_string()));
    assert_eq!(uri.extras.1.pj, Some("https://example.com".to_string()));
}

#[test]
fn compose_extras_serialization() {
    // Test serialization with composed extras
    let address = Address::parse("1andreas3batLhQa2FawWjeyjCqyBzypd").unwrap();
    let address = address.require_network(Network::Bitcoin).unwrap();
    let lightning_extras = LightningExtras {
        lightning: Some("lnbc1".to_string()),
    };
    let payjoin_extras = PayjoinExtras {
        pj: Some("https://example.com".to_string()),
    };

    let uri = Uri::with_extras(address, (lightning_extras, payjoin_extras));
    let uri_string = uri.to_string();

    assert!(uri_string.contains("lightning=lnbc1"));
    assert!(uri_string.contains("pj=https"));
}

#[test]
fn compose_extras_with_no_extras() {
    // Test composing one extras with NoExtras
    let input = "bitcoin:1andreas3batLhQa2FawWjeyjCqyBzypd?lightning=lnbc1";
    let uri = input.parse::<Uri<'_, _, (LightningExtras, NoExtras)>>()
        .unwrap()
        .require_network(Network::Bitcoin)
        .unwrap();

    assert_eq!(uri.address.to_string(), "1andreas3batLhQa2FawWjeyjCqyBzypd");
    assert_eq!(uri.extras.0.lightning, Some("lnbc1".to_string()));
}

#[test]
fn compose_extras_required_param() {
    // Test that required params work with composed extras
    let input = "bitcoin:1andreas3batLhQa2FawWjeyjCqyBzypd?req-unknown=value";
    let result = input.parse::<Uri<'_, _, (LightningExtras, PayjoinExtras)>>();
    assert!(result.is_err());
}

#[test]
fn compose_extras_optional_unknown_param() {
    // Test that optional unknown params are ignored with composed extras
    let input = "bitcoin:1andreas3batLhQa2FawWjeyjCqyBzypd?lightning=lnbc1&unknown=value";
    let uri = input.parse::<Uri<'_, _, (LightningExtras, PayjoinExtras)>>()
        .unwrap()
        .require_network(Network::Bitcoin)
        .unwrap();

    assert_eq!(uri.address.to_string(), "1andreas3batLhQa2FawWjeyjCqyBzypd");
    assert_eq!(uri.extras.0.lightning, Some("lnbc1".to_string()));
    assert_eq!(uri.extras.1.pj, None);
}
