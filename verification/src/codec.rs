//! Stored items as attribute values, and the conversion between them and
//! records.
//!
//! The store keeps every field of a record as an attribute value: `user_id`
//! and `step_id` as strings, `timestamp` and `steps` as numbers, which travel
//! as decimal text. An item read back may lack a field or hold one of another
//! type, so decoding can fail.

use crate::error::ServiceError;
use crate::record::{Steps, StepsView};
use dynomite::dynamodb::AttributeValue;
use dynomite::{Attribute, AttributeError};
use uuid::Uuid;
use vstd::prelude::*;

verus! {

/// The character of a decimal or hexadecimal digit.
pub open spec fn digit_char(digit: int) -> char {
    seq!['0', '1', '2', '3', '4', '5', '6', '7', '8', '9', 'a', 'b', 'c', 'd', 'e', 'f'][digit]
}

/// The number a decimal digit stands for, if the character is one.
pub open spec fn digit_value(c: char) -> Option<nat> {
    if '0' <= c <= '9' {
        Some((c as nat - '0' as nat) as nat)
    } else {
        None
    }
}

/// The decimal text of a number, without sign or leading zeros.
pub open spec fn decimal_text(n: nat) -> Seq<char>
    decreases n,
{
    if n < 10 {
        seq![digit_char(n as int)]
    } else {
        decimal_text(n / 10).push(digit_char((n % 10) as int))
    }
}

/// The number that a non-empty run of decimal digits denotes.
pub open spec fn digits_value(text: Seq<char>) -> Option<nat>
    decreases text.len(),
{
    if text.len() == 0 {
        None
    } else {
        match digit_value(text.last()) {
            None => None,
            Some(unit) => if text.len() == 1 {
                Some(unit)
            } else {
                match digits_value(text.drop_last()) {
                    None => None,
                    Some(tens) => Some(tens * 10 + unit),
                }
            },
        }
    }
}

/// The `u64` that a decimal text denotes: an optional `+`, then one or more
/// digits, with a value that fits.
pub open spec fn parse_u64(text: Seq<char>) -> Option<u64> {
    let digits = if text.len() > 0 && text[0] == '+' {
        text.drop_first()
    } else {
        text
    };
    match digits_value(digits) {
        Some(value) => if value <= u64::MAX {
            Some(value as u64)
        } else {
            None
        },
        None => None,
    }
}

/// The last `width` hexadecimal digits of `value`, in lower case.
pub open spec fn hex_text(value: nat, width: nat) -> Seq<char>
    decreases width,
{
    if width == 0 {
        Seq::empty()
    } else {
        hex_text(value / 16, (width - 1) as nat).push(digit_char((value % 16) as int))
    }
}

/// The hyphenated text of a UUID: its 32 hexadecimal digits in groups of
/// 8, 4, 4, 4 and 12.
pub open spec fn uuid_hyphenated(id: u128) -> Seq<char> {
    let digits = hex_text(id as nat, 32);
    digits.subrange(0, 8) + seq!['-'] + digits.subrange(8, 12) + seq!['-'] + digits.subrange(
        12,
        16,
    ) + seq!['-'] + digits.subrange(16, 20) + seq!['-'] + digits.subrange(20, 32)
}

/// The decimal text of a number is read back as that number.
pub proof fn lemma_decimal_round_trip(n: nat)
    ensures
        decimal_text(n).len() > 0,
        digit_value(decimal_text(n)[0]) is Some,
        digits_value(decimal_text(n)) == Some(n),
    decreases n,
{
    if n < 10 {
        assert(digit_value(digit_char(n as int)) == Some(n));
    } else {
        lemma_decimal_round_trip(n / 10);
        let front = decimal_text(n / 10);
        let text = decimal_text(n);
        assert(text.drop_last() == front);
        assert(text[0] == front[0]);
        assert(digit_value(digit_char((n % 10) as int)) == Some(n % 10));
    }
}

/// Parsing the decimal text of a `u64` gives the number back.
pub proof fn lemma_parse_decimal(n: u64)
    ensures
        parse_u64(decimal_text(n as nat)) == Some(n),
{
    lemma_decimal_round_trip(n as nat);
}

/// What `uuid::Uuid::parse_str` makes of a text: the 128 bits of the UUID
/// that it reads, or nothing where it reports an error.
pub uninterp spec fn uuid_parse(text: Seq<char>) -> Option<u128>;

/// An attribute value: its string payload and its number payload, each
/// present only in a value of that type.
#[derive(Debug, PartialEq, Eq)]
pub struct AttrValue {
    pub s: Option<String>,
    pub n: Option<String>,
}

/// The mathematical value of an [`AttrValue`].
pub struct AttrView {
    pub s: Option<Seq<char>>,
    pub n: Option<Seq<char>>,
}

/// The view of a text that may be absent.
pub open spec fn text_view(text: Option<String>) -> Option<Seq<char>> {
    match text {
        Some(t) => Some(t@),
        None => None,
    }
}

impl View for AttrValue {
    type V = AttrView;

    open spec fn view(&self) -> AttrView {
        AttrView { s: text_view(self.s), n: text_view(self.n) }
    }
}

/// A stored item: the attribute found under each field name of a record, if
/// there is one.
#[derive(Debug, PartialEq, Eq)]
pub struct RawItem {
    pub user_id: Option<AttrValue>,
    pub step_id: Option<AttrValue>,
    pub timestamp: Option<AttrValue>,
    pub steps: Option<AttrValue>,
}

/// The mathematical value of a [`RawItem`].
pub struct RawItemView {
    pub user_id: Option<AttrView>,
    pub step_id: Option<AttrView>,
    pub timestamp: Option<AttrView>,
    pub steps: Option<AttrView>,
}

/// The view of an attribute that may be absent.
pub open spec fn attr_view(attr: Option<AttrValue>) -> Option<AttrView> {
    match attr {
        Some(a) => Some(a@),
        None => None,
    }
}

impl View for RawItem {
    type V = RawItemView;

    open spec fn view(&self) -> RawItemView {
        RawItemView {
            user_id: attr_view(self.user_id),
            step_id: attr_view(self.step_id),
            timestamp: attr_view(self.timestamp),
            steps: attr_view(self.steps),
        }
    }
}

/// The text of a string attribute.
pub open spec fn attr_text(attr: Option<AttrView>) -> Option<Seq<char>> {
    match attr {
        Some(a) => a.s,
        None => None,
    }
}

/// The UUID that a string attribute holds.
pub open spec fn attr_uuid(attr: Option<AttrView>) -> Option<u128> {
    match attr_text(attr) {
        Some(text) => uuid_parse(text),
        None => None,
    }
}

/// The `u64` that a number attribute holds.
pub open spec fn attr_number(attr: Option<AttrView>) -> Option<u64> {
    match attr {
        Some(a) => match a.n {
            Some(text) => parse_u64(text),
            None => None,
        },
        None => None,
    }
}

/// The record that an item decodes to: every field is present, of its type
/// and well formed.
pub open spec fn decoded(item: RawItemView) -> Option<StepsView> {
    match (
        attr_text(item.user_id),
        attr_uuid(item.step_id),
        attr_number(item.timestamp),
        attr_number(item.steps),
    ) {
        (Some(user_id), Some(step_id), Some(timestamp), Some(steps)) => Some(
            StepsView { user_id, step_id, timestamp, steps },
        ),
        _ => None,
    }
}

/// The item that a record is stored as.
pub open spec fn encoded(record: StepsView) -> RawItemView {
    RawItemView {
        user_id: Some(AttrView { s: Some(record.user_id), n: None }),
        step_id: Some(AttrView { s: Some(uuid_hyphenated(record.step_id)), n: None }),
        timestamp: Some(AttrView { s: None, n: Some(decimal_text(record.timestamp as nat)) }),
        steps: Some(AttrView { s: None, n: Some(decimal_text(record.steps as nat)) }),
    }
}

/// `dynomite::AttributeError`, the failure of a conversion from an attribute
/// value. Nothing inside it is looked at.
#[verifier::external_type_specification]
#[verifier::external_body]
pub struct ExAttributeError(AttributeError);

/// dynomite's `Attribute::from_attr` for `String`: the string payload of the
/// value, or an error where the value has none.
#[verifier::external_body]
fn string_from_attr(value: &AttrValue) -> (text: Result<String, AttributeError>)
    ensures
        match text {
            Ok(payload) => value@.s == Some(payload@),
            Err(_) => value@.s is None,
        },
{
    let attr = AttributeValue { s: value.s.clone(), n: value.n.clone(), ..AttributeValue::default() };
    String::from_attr(attr)
}

/// dynomite's `Attribute::from_attr` for `Uuid`: it parses the string payload
/// with `Uuid::parse_str`, and gives an error where the value has no such
/// payload or the payload is not a UUID. The UUID is handed on as its 128
/// bits (`Uuid::as_u128`).
#[verifier::external_body]
fn uuid_from_attr(value: &AttrValue) -> (id: Result<u128, AttributeError>)
    ensures
        match id {
            Ok(bits) => value@.s matches Some(text) && uuid_parse(text) == Some(bits),
            Err(_) => value@.s matches Some(text) ==> uuid_parse(text) is None,
        },
{
    let attr = AttributeValue { s: value.s.clone(), n: value.n.clone(), ..AttributeValue::default() };
    match Uuid::from_attr(attr) {
        Ok(uuid) => Ok(uuid.as_u128()),
        Err(error) => Err(error),
    }
}

/// dynomite's `Attribute::from_attr` for `u64`: it parses the number payload
/// with `str::parse`, which takes an optional `+` and then decimal digits,
/// and gives an error where the value has no such payload, the payload has
/// another form, or the number does not fit.
#[verifier::external_body]
fn number_from_attr(value: &AttrValue) -> (number: Result<u64, AttributeError>)
    ensures
        match number {
            Ok(n) => attr_number(Some(value@)) == Some(n),
            Err(_) => attr_number(Some(value@)) is None,
        },
{
    let attr = AttributeValue { s: value.s.clone(), n: value.n.clone(), ..AttributeValue::default() };
    u64::from_attr(attr)
}

/// dynomite's `Attribute::into_attr` for `String`: a string value with the
/// text as its payload.
#[verifier::external_body]
fn string_into_attr(text: String) -> (value: AttrValue)
    ensures
        value@ == (AttrView { s: Some(text@), n: None }),
{
    let attr = text.into_attr();
    AttrValue { s: attr.s, n: attr.n }
}

/// dynomite's `Attribute::into_attr` for `Uuid`, on the UUID with the bits
/// `id` (`Uuid::from_u128`): a string value that holds the UUID in lower-case
/// hyphenated form. `Uuid::parse_str` reads that form back as the same UUID.
#[verifier::external_body]
fn uuid_into_attr(id: u128) -> (value: AttrValue)
    ensures
        value@ == (AttrView { s: Some(uuid_hyphenated(id)), n: None }),
        uuid_parse(value@.s.unwrap()) == Some(id),
{
    let attr = Uuid::from_u128(id).into_attr();
    AttrValue { s: attr.s, n: attr.n }
}

/// dynomite's `Attribute::into_attr` for `u64`: a number value that holds the
/// number's decimal text, as `to_string` writes it.
#[verifier::external_body]
fn number_into_attr(number: u64) -> (value: AttrValue)
    ensures
        value@ == (AttrView { s: None, n: Some(decimal_text(number as nat)) }),
{
    let attr = number.into_attr();
    AttrValue { s: attr.s, n: attr.n }
}

/// The text of the string attribute of a field, if the field has one.
fn read_text(field: &Option<AttrValue>) -> (text: Option<String>)
    ensures
        text_view(text) == attr_text(attr_view(*field)),
{
    match field {
        Some(value) => match string_from_attr(value) {
            Ok(text) => Some(text),
            Err(_) => None,
        },
        None => None,
    }
}

/// The UUID in the string attribute of a field, if the field has one.
fn read_uuid(field: &Option<AttrValue>) -> (id: Option<u128>)
    ensures
        id == attr_uuid(attr_view(*field)),
{
    match field {
        Some(value) => match uuid_from_attr(value) {
            Ok(id) => Some(id),
            Err(_) => None,
        },
        None => None,
    }
}

/// The number in the number attribute of a field, if the field has one.
fn read_number(field: &Option<AttrValue>) -> (number: Option<u64>)
    ensures
        number == attr_number(attr_view(*field)),
{
    match field {
        Some(value) => match number_from_attr(value) {
            Ok(number) => Some(number),
            Err(_) => None,
        },
        None => None,
    }
}

/// Decodes a stored item into a record.
///
/// It fails with `AggregationParseError` exactly if a field is missing, of
/// the wrong type or malformed.
pub fn decode(item: &RawItem) -> (result: Result<Steps, ServiceError>)
    ensures
        match result {
            Ok(record) => decoded(item@) == Some(record@),
            Err(error) => decoded(item@) is None && error == ServiceError::AggregationParseError,
        },
{
    let user_id = read_text(&item.user_id);
    let step_id = read_uuid(&item.step_id);
    let timestamp = read_number(&item.timestamp);
    let steps = read_number(&item.steps);
    match (user_id, step_id, timestamp, steps) {
        (Some(user_id), Some(step_id), Some(timestamp), Some(steps)) => Ok(
            Steps { user_id, step_id, timestamp, steps },
        ),
        _ => Err(ServiceError::AggregationParseError),
    }
}

/// Encodes a record as the item it is stored as. Decoding that item gives
/// the record back.
pub fn encode(record: &Steps) -> (item: RawItem)
    ensures
        item@ == encoded(record@),
        decoded(item@) == Some(record@),
{
    let user_id = string_into_attr(record.user_id.clone());
    let step_id = uuid_into_attr(record.step_id);
    let timestamp = number_into_attr(record.timestamp);
    let steps = number_into_attr(record.steps);
    proof {
        lemma_parse_decimal(record.timestamp);
        lemma_parse_decimal(record.steps);
    }
    RawItem {
        user_id: Some(user_id),
        step_id: Some(step_id),
        timestamp: Some(timestamp),
        steps: Some(steps),
    }
}

} // verus!
