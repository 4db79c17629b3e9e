use bip21::{NetworkUnchecked, NoExtras, Param, Uri};
use std::borrow::Cow;

fn label_of(input: &str) -> Param<'_> {
    let uri: Uri<'_, NetworkUnchecked, NoExtras> = Uri::parse(input).unwrap();
    uri.label.unwrap()
}

#[test]
fn cheap_conversions_keep_the_content() {
    assert_eq!(Param::from("a%20b").into_string().unwrap(), "a%20b");
    assert_eq!(Param::from(String::from("x")).into_vec(), b"x".to_vec());
    assert_eq!(Param::from(&b"\xffz"[..]).into_vec(), vec![0xff, b'z']);
    assert_eq!(Param::from(vec![1u8, 2, 3]).into_vec(), vec![1, 2, 3]);
}

#[test]
fn byte_iterators_yield_the_decoded_bytes() {
    let label = label_of("bitcoin:1andreas3batLhQa2FawWjeyjCqyBzypd?label=a%2Fb");
    let mut bytes = label.bytes();
    assert_eq!(bytes.next(), Some(b'a'));
    assert_eq!(bytes.next(), Some(b'/'));
    assert_eq!(bytes.next(), Some(b'b'));
    assert_eq!(bytes.next(), None);
    assert_eq!(bytes.next(), None);

    let mut owned = label.into_bytes();
    let mut collected = Vec::new();
    while let Some(b) = owned.next() {
        collected.push(b);
    }
    assert_eq!(collected, b"a/b".to_vec());
}

#[test]
fn cow_conversions_borrow_when_nothing_is_decoded() {
    let text = String::from("plain");
    let param = Param::from(text.as_str());
    match param.clone().into_cow_str().unwrap() {
        Cow::Borrowed(s) => assert_eq!(s, "plain"),
        Cow::Owned(_) => panic!("copied a borrowed string"),
    }
    match param.into_cow_bytes() {
        Cow::Borrowed(b) => assert_eq!(b, b"plain"),
        Cow::Owned(_) => panic!("copied borrowed bytes"),
    }
}

#[test]
fn invalid_utf8_bytes_do_not_convert_to_text() {
    let param = Param::from(&[0xC3u8][..]);
    assert!(param.clone().into_cow_str().is_err());
    assert!(Param::from(vec![0xC3u8, 0x28]).into_string().is_err());
    assert_eq!(Param::from(vec![0xC3u8, 0xA9]).into_string().unwrap(), "é");
}

#[test]
fn decode_into_owned_keeps_the_decoded_bytes() {
    let owned: Param<'static> = {
        let text = String::from("bitcoin:1andreas3batLhQa2FawWjeyjCqyBzypd?label=%41%42c");
        label_of(&text).decode_into_owned()
    };
    assert_eq!(owned.into_string().unwrap(), "ABc");
}

#[test]
fn clone_keeps_the_decoded_bytes() {
    let label = label_of("bitcoin:1andreas3batLhQa2FawWjeyjCqyBzypd?label=x%20y");
    let copy = label.clone();
    assert_eq!(label.into_vec(), copy.into_vec());
}

#[test]
fn encoded_text_without_escapes_is_borrowed() {
    let label = label_of("bitcoin:1andreas3batLhQa2FawWjeyjCqyBzypd?label=Luke-Jr");
    match Cow::<[u8]>::from(label.clone()) {
        Cow::Borrowed(b) => assert_eq!(b, b"Luke-Jr"),
        Cow::Owned(_) => panic!("copied text that had nothing to decode"),
    }
    match Cow::<str>::try_from(label).unwrap() {
        Cow::Borrowed(s) => assert_eq!(s, "Luke-Jr"),
        Cow::Owned(_) => panic!("copied text that had nothing to decode"),
    }
}

#[test]
fn encoded_text_with_escapes_is_decoded_into_a_new_buffer() {
    let label = label_of("bitcoin:1andreas3batLhQa2FawWjeyjCqyBzypd?label=a%20b");
    match Cow::<[u8]>::from(label.clone()) {
        Cow::Owned(v) => assert_eq!(v, b"a b".to_vec()),
        Cow::Borrowed(_) => panic!("escapes were not decoded"),
    }
    match Cow::<str>::try_from(label).unwrap() {
        Cow::Owned(s) => assert_eq!(s, "a b"),
        Cow::Borrowed(_) => panic!("escapes were not decoded"),
    }
}

#[test]
fn vector_conversion_gives_the_decoded_bytes() {
    let label = label_of("bitcoin:1andreas3batLhQa2FawWjeyjCqyBzypd?label=%FF%00x");
    assert_eq!(Vec::<u8>::from(label.clone()), vec![0xFF, 0x00, 0x78]);
    assert!(String::try_from(label).is_err());
    assert_eq!(Vec::<u8>::from(Param::from("a+b")), b"a+b".to_vec());
    assert_eq!(Vec::<u8>::from(Param::from(vec![7u8, 8])), vec![7, 8]);
}

#[test]
fn owned_params_convert_to_owned_values() {
    let label = label_of("bitcoin:1andreas3batLhQa2FawWjeyjCqyBzypd?label=Luke-Jr");
    let owned: Param<'static> = label.decode_into_owned();
    assert!(matches!(Cow::<[u8]>::from(owned.clone()), Cow::Owned(_)));
    assert!(matches!(Cow::<str>::try_from(owned.clone()).unwrap(), Cow::Owned(_)));
    let again = owned.clone().decode_into_owned();
    assert_eq!(Vec::<u8>::from(again), Vec::<u8>::from(owned));
}
