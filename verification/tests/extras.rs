use bip21::de::{DeserializationError, DeserializationState, DeserializeParams, Error, ParamKind};
use bip21::ser::{ParamIterator, ParamList, SerializeParams};
use bip21::{Address, EitherError, EmptyState, NetworkUnchecked, NoExtras, Param, TupleState, Uri};

/// Extras that take `req-pj`, and refuse the value `bad`.
#[derive(Debug, Default, Clone, PartialEq)]
struct RequiredPj {
    pj: Option<String>,
}

#[derive(Debug, PartialEq)]
struct BadValue;

#[derive(Debug, Default)]
struct RequiredPjState {
    pj: Option<String>,
}

impl DeserializationError for RequiredPj {
    type Error = BadValue;
}

impl DeserializeParams<'_> for RequiredPj {
    type DeserializationState = RequiredPjState;
}

impl<'de> DeserializationState<'de> for RequiredPjState {
    type Value = RequiredPj;

    fn recognises(_key: vstd::seq::Seq<u8>) -> bool {
        unreachable!()
    }

    fn finalized(self) -> Result<RequiredPj, BadValue> {
        unreachable!()
    }

    fn taken(self, _key: vstd::seq::Seq<u8>, _value: vstd::seq::Seq<u8>) -> Result<ParamKind, BadValue> {
        unreachable!()
    }

    fn after(self, _key: vstd::seq::Seq<u8>, _value: vstd::seq::Seq<u8>) -> Self {
        unreachable!()
    }

    fn is_param_known(&self, key: &str) -> bool {
        key == "req-pj"
    }

    fn deserialize_borrowed(&mut self, key: &'de str, value: Param<'de>) -> Result<ParamKind, BadValue> {
        self.deserialize_temp(key, value)
    }

    fn deserialize_temp(&mut self, key: &str, value: Param<'_>) -> Result<ParamKind, BadValue> {
        if key == "req-pj" {
            let value = value.into_string().map_err(|_| BadValue)?;
            if value == "bad" {
                return Err(BadValue);
            }
            self.pj = Some(value);
            Ok(ParamKind::Known)
        } else {
            Ok(ParamKind::Unknown)
        }
    }

    fn finalize(self) -> Result<RequiredPj, BadValue> {
        Ok(RequiredPj { pj: self.pj })
    }
}

impl<'a> SerializeParams for &'a RequiredPj {
    type Iterator = ParamList;

    fn params(self) -> vstd::seq::Seq<(vstd::seq::Seq<u8>, vstd::seq::Seq<u8>)> {
        unreachable!()
    }

    fn serialize_params(self) -> ParamList {
        let mut items = Vec::new();
        if let Some(pj) = &self.pj {
            items.push(("req-pj".to_string(), pj.clone()));
        }
        ParamList::new(items)
    }
}

/// Extras that take `note`.
#[derive(Debug, Default, Clone, PartialEq)]
struct Note {
    note: Option<String>,
}

#[derive(Debug, Default)]
struct NoteState {
    note: Option<String>,
}

impl DeserializationError for Note {
    type Error = core::convert::Infallible;
}

impl DeserializeParams<'_> for Note {
    type DeserializationState = NoteState;
}

impl<'de> DeserializationState<'de> for NoteState {
    type Value = Note;

    fn recognises(_key: vstd::seq::Seq<u8>) -> bool {
        unreachable!()
    }

    fn finalized(self) -> Result<Note, core::convert::Infallible> {
        unreachable!()
    }

    fn taken(self, _key: vstd::seq::Seq<u8>, _value: vstd::seq::Seq<u8>) -> Result<ParamKind, core::convert::Infallible> {
        unreachable!()
    }

    fn after(self, _key: vstd::seq::Seq<u8>, _value: vstd::seq::Seq<u8>) -> Self {
        unreachable!()
    }

    fn is_param_known(&self, key: &str) -> bool {
        key == "note"
    }

    fn deserialize_borrowed(&mut self, key: &'de str, value: Param<'de>) -> Result<ParamKind, core::convert::Infallible> {
        self.deserialize_temp(key, value)
    }

    fn deserialize_temp(&mut self, key: &str, value: Param<'_>) -> Result<ParamKind, core::convert::Infallible> {
        if key == "note" {
            self.note = Some(value.into_string().unwrap());
            Ok(ParamKind::Known)
        } else {
            Ok(ParamKind::Unknown)
        }
    }

    fn finalize(self) -> Result<Note, core::convert::Infallible> {
        Ok(Note { note: self.note })
    }
}

impl<'a> SerializeParams for &'a Note {
    type Iterator = ParamList;

    fn params(self) -> vstd::seq::Seq<(vstd::seq::Seq<u8>, vstd::seq::Seq<u8>)> {
        unreachable!()
    }

    fn serialize_params(self) -> ParamList {
        let mut items = Vec::new();
        if let Some(note) = &self.note {
            items.push(("note".to_string(), note.clone()));
        }
        ParamList::new(items)
    }
}

#[test]
fn empty_state_knows_nothing() {
    let mut state = EmptyState::default();
    assert!(!state.is_param_known("lightning"));
    assert_eq!(state.deserialize_temp("req-x", Param::from("1")).unwrap(), ParamKind::Unknown);
    assert_eq!(state.finalize().unwrap(), NoExtras);
}

#[test]
fn tuple_state_routes_each_key_to_its_extras() {
    let mut state: TupleState<RequiredPjState, NoteState> = TupleState::default();
    assert!(state.is_param_known("req-pj"));
    assert!(state.is_param_known("note"));
    assert!(!state.is_param_known("other"));
    assert_eq!(state.deserialize_temp("note", Param::from("hello")).unwrap(), ParamKind::Known);
    assert_eq!(state.deserialize_temp("req-pj", Param::from("x")).unwrap(), ParamKind::Known);
    assert_eq!(state.deserialize_temp("other", Param::from("y")).unwrap(), ParamKind::Unknown);
    let (pj, note) = state.finalize().unwrap();
    assert_eq!(pj.pj, Some("x".to_string()));
    assert_eq!(note.note, Some("hello".to_string()));
}

#[test]
fn tuple_state_reports_the_side_that_failed() {
    let mut state: TupleState<NoteState, RequiredPjState> = TupleState::default();
    match state.deserialize_temp("req-pj", Param::from("bad")) {
        Err(EitherError::Right(BadValue)) => {},
        _ => panic!("expected an error of the right extras"),
    }
}

#[test]
fn required_parameter_known_to_extras_is_accepted() {
    let uri: Uri<'_, NetworkUnchecked, (RequiredPj, NoExtras)> =
        Uri::parse("bitcoin:1andreas3batLhQa2FawWjeyjCqyBzypd?req-pj=https%3A%2F%2Fexample.com").unwrap();
    assert_eq!(uri.extras.0.pj, Some("https://example.com".to_string()));
}

#[test]
fn extras_errors_name_their_side() {
    let left: Result<Uri<'_, NetworkUnchecked, (RequiredPj, Note)>, _> =
        Uri::parse("bitcoin:1andreas3batLhQa2FawWjeyjCqyBzypd?note=a&req-pj=bad");
    match left {
        Err(Error::Extras(EitherError::Left(BadValue))) => {},
        _ => panic!("expected an error of the left extras"),
    }
    let right: Result<Uri<'_, NetworkUnchecked, (Note, RequiredPj)>, _> =
        Uri::parse("bitcoin:1andreas3batLhQa2FawWjeyjCqyBzypd?req-pj=bad");
    match right {
        Err(Error::Extras(EitherError::Right(BadValue))) => {},
        _ => panic!("expected an error of the right extras"),
    }
}

#[test]
fn chained_params_come_first_then_second() {
    let extras = (
        RequiredPj { pj: Some("p".to_string()) },
        Note { note: Some("n".to_string()) },
    );
    let mut params = (&extras).serialize_params();
    assert_eq!(params.next(), Some(("req-pj".to_string(), "p".to_string())));
    assert_eq!(params.next(), Some(("note".to_string(), "n".to_string())));
    assert_eq!(params.next(), None);
    assert_eq!(params.next(), None);
}

#[test]
fn extras_are_written_encoded_and_read_back() {
    let address = Address::parse("1andreas3batLhQa2FawWjeyjCqyBzypd").unwrap().assume_checked();
    let extras = (
        RequiredPj { pj: Some("https://example.com/?a=b&c".to_string()) },
        Note { note: Some("two words".to_string()) },
    );
    let uri = Uri::with_extras(address, extras.clone());
    let text = uri.to_string();
    assert_eq!(
        text,
        "bitcoin:1andreas3batLhQa2FawWjeyjCqyBzypd?req-pj=https%3A%2F%2Fexample.com%2F%3Fa%3Db%26c&note=two%20words"
    );
    let back: Uri<'_, NetworkUnchecked, (RequiredPj, Note)> = Uri::parse(&text).unwrap();
    assert_eq!(back.extras, extras);
}

#[test]
fn parsing_routes_composed_extras() {
    let uri: Uri<'_, NetworkUnchecked, (RequiredPj, Note)> =
        Uri::parse("bitcoin:1andreas3batLhQa2FawWjeyjCqyBzypd?note=hi&other=1&req-pj=x").unwrap();
    assert_eq!(uri.extras.0.pj, Some("x".to_string()));
    assert_eq!(uri.extras.1.note, Some("hi".to_string()));
}

#[test]
fn extras_error_comes_before_a_later_uri_error() {
    let r: Result<Uri<'_, NetworkUnchecked, (RequiredPj, NoExtras)>, _> =
        Uri::parse("bitcoin:1andreas3batLhQa2FawWjeyjCqyBzypd?req-pj=bad&amount=x");
    match r {
        Err(Error::Extras(EitherError::Left(BadValue))) => {},
        _ => panic!("expected the extras' error"),
    }
}

/// Extras that keep the value of `memo` as it stood in the URI, without a copy.
#[derive(Debug, Default)]
struct Memo<'de> {
    memo: Option<Param<'de>>,
}

impl<'de> DeserializationError for Memo<'de> {
    type Error = core::convert::Infallible;
}

impl<'de> DeserializeParams<'de> for Memo<'de> {
    type DeserializationState = Memo<'de>;
}

impl<'de> DeserializationState<'de> for Memo<'de> {
    type Value = Memo<'de>;

    fn recognises(_key: vstd::seq::Seq<u8>) -> bool {
        unreachable!()
    }

    fn finalized(self) -> Result<Memo<'de>, core::convert::Infallible> {
        unreachable!()
    }

    fn taken(self, _key: vstd::seq::Seq<u8>, _value: vstd::seq::Seq<u8>) -> Result<ParamKind, core::convert::Infallible> {
        unreachable!()
    }

    fn after(self, _key: vstd::seq::Seq<u8>, _value: vstd::seq::Seq<u8>) -> Self {
        unreachable!()
    }

    fn is_param_known(&self, key: &str) -> bool {
        key == "memo"
    }

    fn deserialize_borrowed(&mut self, key: &'de str, value: Param<'de>) -> Result<ParamKind, core::convert::Infallible> {
        if key == "memo" {
            self.memo = Some(value);
            Ok(ParamKind::Known)
        } else {
            Ok(ParamKind::Unknown)
        }
    }

    fn deserialize_temp(&mut self, key: &str, value: Param<'_>) -> Result<ParamKind, core::convert::Infallible> {
        if key == "memo" {
            self.memo = Some(value.decode_into_owned());
            Ok(ParamKind::Known)
        } else {
            Ok(ParamKind::Unknown)
        }
    }

    fn finalize(self) -> Result<Memo<'de>, core::convert::Infallible> {
        Ok(self)
    }
}

#[test]
fn borrowing_extras_keep_the_value_of_the_uri() {
    let text = String::from("bitcoin:1andreas3batLhQa2FawWjeyjCqyBzypd?memo=plain&label=x");
    let uri: Uri<'_, NetworkUnchecked, (Memo<'_>, NoExtras)> = Uri::parse(&text).unwrap();
    let memo = uri.extras.0.memo.unwrap();
    match std::borrow::Cow::<[u8]>::from(memo) {
        std::borrow::Cow::Borrowed(b) => assert_eq!(b, b"plain"),
        std::borrow::Cow::Owned(_) => panic!("the value was copied"),
    }
}
