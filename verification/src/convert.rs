//! Conversions into attribute values and attributes.

use crate::model;
use crate::model::{KeyValue, Str, Value};
use crate::number::{Number, OrderedNumber};
use std::borrow::Cow;
use std::num::TryFromIntError;
use std::sync::Arc;
use vstd::prelude::*;
use vstd::std_specs::convert::*;

verus! {

impl From<&'static str> for Value {
    fn from(value: &'static str) -> (r: Value) {
        Value::String(Str::from(value))
    }
}

impl FromSpecImpl<&'static str> for Value {
    open spec fn obeys_from_spec() -> bool {
        true
    }

    open spec fn from_spec(value: &'static str) -> Value {
        Value::String(Str::Cow(Cow::Borrowed(value)))
    }
}

impl From<String> for Value {
    fn from(value: String) -> (r: Value) {
        Value::String(Str::from(value))
    }
}

impl FromSpecImpl<String> for Value {
    open spec fn obeys_from_spec() -> bool {
        true
    }

    open spec fn from_spec(value: String) -> Value {
        Value::String(Str::Cow(Cow::Owned(value)))
    }
}

impl From<&String> for Value {
    fn from(value: &String) -> (r: Value) {
        Value::String(Str::from(value))
    }
}

impl FromSpecImpl<&String> for Value {
    open spec fn obeys_from_spec() -> bool {
        true
    }

    open spec fn from_spec(value: &String) -> Value {
        Value::String(Str::Cow(Cow::Owned(*value)))
    }
}

impl From<Arc<str>> for Value {
    fn from(value: Arc<str>) -> (r: Value) {
        Value::String(Str::from(value))
    }
}

impl FromSpecImpl<Arc<str>> for Value {
    open spec fn obeys_from_spec() -> bool {
        true
    }

    open spec fn from_spec(value: Arc<str>) -> Value {
        Value::String(Str::ArcStr(value))
    }
}

impl From<&Arc<str>> for Value {
    fn from(value: &Arc<str>) -> (r: Value) {
        Value::String(Str::from(value))
    }
}

impl FromSpecImpl<&Arc<str>> for Value {
    open spec fn obeys_from_spec() -> bool {
        true
    }

    open spec fn from_spec(value: &Arc<str>) -> Value {
        Value::String(Str::ArcStr(*value))
    }
}

impl From<Cow<'static, str>> for Value {
    fn from(value: Cow<'static, str>) -> (r: Value) {
        Value::String(Str::from(value))
    }
}

impl FromSpecImpl<Cow<'static, str>> for Value {
    open spec fn obeys_from_spec() -> bool {
        true
    }

    open spec fn from_spec(value: Cow<'static, str>) -> Value {
        Value::String(Str::Cow(value))
    }
}

impl From<&Str> for Value {
    fn from(value: &Str) -> (r: Value) {
        Value::String(Str::from(value))
    }
}

impl FromSpecImpl<&Str> for Value {
    open spec fn obeys_from_spec() -> bool {
        true
    }

    open spec fn from_spec(value: &Str) -> Value {
        Value::String(*value)
    }
}

impl From<Str> for Value {
    fn from(value: Str) -> (r: Value) {
        Value::String(value)
    }
}

impl FromSpecImpl<Str> for Value {
    open spec fn obeys_from_spec() -> bool {
        true
    }

    open spec fn from_spec(value: Str) -> Value {
        Value::String(value)
    }
}

impl From<bool> for Value {
    fn from(value: bool) -> (r: Value) {
        Value::Bool(value)
    }
}

impl FromSpecImpl<bool> for Value {
    open spec fn obeys_from_spec() -> bool {
        true
    }

    open spec fn from_spec(value: bool) -> Value {
        Value::Bool(value)
    }
}

impl From<OrderedNumber> for Value {
    fn from(value: OrderedNumber) -> (r: Value) {
        Value::Double(value)
    }
}

impl FromSpecImpl<OrderedNumber> for Value {
    open spec fn obeys_from_spec() -> bool {
        true
    }

    open spec fn from_spec(value: OrderedNumber) -> Value {
        Value::Double(value)
    }
}

impl From<Number> for Value {
    fn from(value: Number) -> (r: Value) {
        Value::Double(OrderedNumber(value))
    }
}

impl FromSpecImpl<Number> for Value {
    open spec fn obeys_from_spec() -> bool {
        true
    }

    open spec fn from_spec(value: Number) -> Value {
        Value::Double(OrderedNumber(value))
    }
}

impl From<Vec<Value>> for Value {
    fn from(values: Vec<Value>) -> (r: Value) {
        Value::ArrayAny(values)
    }
}

impl FromSpecImpl<Vec<Value>> for Value {
    open spec fn obeys_from_spec() -> bool {
        true
    }

    open spec fn from_spec(values: Vec<Value>) -> Value {
        Value::ArrayAny(values)
    }
}

impl From<Vec<KeyValue>> for Value {
    fn from(attrs: Vec<KeyValue>) -> (r: Value) {
        Value::ArrayKv(attrs)
    }
}

impl FromSpecImpl<Vec<KeyValue>> for Value {
    open spec fn obeys_from_spec() -> bool {
        true
    }

    open spec fn from_spec(attrs: Vec<KeyValue>) -> Value {
        Value::ArrayKv(attrs)
    }
}

impl From<Vec<u8>> for Value {
    fn from(bytes: Vec<u8>) -> (r: Value) {
        Value::Bytes(bytes)
    }
}

impl FromSpecImpl<Vec<u8>> for Value {
    open spec fn obeys_from_spec() -> bool {
        true
    }

    open spec fn from_spec(bytes: Vec<u8>) -> Value {
        Value::Bytes(bytes)
    }
}

impl From<i64> for Value {
    fn from(value: i64) -> (r: Value) {
        Value::Int(value)
    }
}

impl FromSpecImpl<i64> for Value {
    open spec fn obeys_from_spec() -> bool {
        true
    }

    open spec fn from_spec(value: i64) -> Value {
        Value::Int(value)
    }
}

impl From<i8> for Value {
    fn from(value: i8) -> (r: Value) {
        Value::Int(value as i64)
    }
}

impl FromSpecImpl<i8> for Value {
    open spec fn obeys_from_spec() -> bool {
        true
    }

    open spec fn from_spec(value: i8) -> Value {
        Value::Int(value as i64)
    }
}

impl From<i16> for Value {
    fn from(value: i16) -> (r: Value) {
        Value::Int(value as i64)
    }
}

impl FromSpecImpl<i16> for Value {
    open spec fn obeys_from_spec() -> bool {
        true
    }

    open spec fn from_spec(value: i16) -> Value {
        Value::Int(value as i64)
    }
}

impl From<i32> for Value {
    fn from(value: i32) -> (r: Value) {
        Value::Int(value as i64)
    }
}

impl FromSpecImpl<i32> for Value {
    open spec fn obeys_from_spec() -> bool {
        true
    }

    open spec fn from_spec(value: i32) -> Value {
        Value::Int(value as i64)
    }
}

impl From<u8> for Value {
    fn from(value: u8) -> (r: Value) {
        Value::Int(value as i64)
    }
}

impl FromSpecImpl<u8> for Value {
    open spec fn obeys_from_spec() -> bool {
        true
    }

    open spec fn from_spec(value: u8) -> Value {
        Value::Int(value as i64)
    }
}

impl From<u16> for Value {
    fn from(value: u16) -> (r: Value) {
        Value::Int(value as i64)
    }
}

impl FromSpecImpl<u16> for Value {
    open spec fn obeys_from_spec() -> bool {
        true
    }

    open spec fn from_spec(value: u16) -> Value {
        Value::Int(value as i64)
    }
}

impl From<u32> for Value {
    fn from(value: u32) -> (r: Value) {
        Value::Int(value as i64)
    }
}

impl FromSpecImpl<u32> for Value {
    open spec fn obeys_from_spec() -> bool {
        true
    }

    open spec fn from_spec(value: u32) -> Value {
        Value::Int(value as i64)
    }
}

impl TryFrom<u64> for Value {
    type Error = TryFromIntError;

    fn try_from(value: u64) -> (r: Result<Value, TryFromIntError>) {
        match i64::try_from(u128::from(value)) {
            Ok(value) => Ok(Value::Int(value)),
            Err(error) => Err(error),
        }
    }
}

impl TryFromSpecImpl<u64> for Value {
    open spec fn obeys_try_from_spec() -> bool {
        true
    }

    /// An integer of 64 bits, where it fits, and the error of the conversion to one otherwise.
    open spec fn try_from_spec(value: u64) -> Result<Value, TryFromIntError> {
        if value <= i64::MAX {
            Ok(Value::Int(value as i64))
        } else {
            Err(<i64 as TryFromSpec<u128>>::try_from_spec(value as u128)->Err_0)
        }
    }
}

impl TryFrom<usize> for Value {
    type Error = TryFromIntError;

    fn try_from(value: usize) -> (r: Result<Value, TryFromIntError>) {
        match i64::try_from(value) {
            Ok(value) => Ok(Value::Int(value)),
            Err(error) => Err(error),
        }
    }
}

impl TryFromSpecImpl<usize> for Value {
    open spec fn obeys_try_from_spec() -> bool {
        true
    }

    /// An integer of 64 bits, where it fits, and the error of the conversion to one otherwise.
    open spec fn try_from_spec(value: usize) -> Result<Value, TryFromIntError> {
        if value <= i64::MAX {
            Ok(Value::Int(value as i64))
        } else {
            Err(<i64 as TryFromSpec<usize>>::try_from_spec(value)->Err_0)
        }
    }
}

fn copy_cow(value: &Cow<'static, str>) -> (r: Cow<'static, str>)
    ensures
        r == *value,
{
    match value {
        Cow::Borrowed(text) => Cow::Borrowed(*text),
        Cow::Owned(text) => Cow::Owned(text.clone()),
    }
}

fn copy_values(values: &[Value]) -> (r: Value)
    ensures
        r@ == model::ValueView::ArrayAny(model::values_view(values@)),
{
    let mut copied: Vec<Value> = Vec::new();
    let mut i: usize = 0;
    while i < values.len()
        invariant
            i <= values@.len(),
            copied@.len() == i,
            forall|j: int| 0 <= j < i ==> #[trigger] copied@[j]@ == values@[j]@,
        decreases values@.len() - i,
    {
        copied.push(values[i].copy());
        i = i + 1;
    }
    proof {
        assert(model::values_view(copied@) =~= model::values_view(values@));
        model::lemma_array_any_view(copied);
    }
    Value::ArrayAny(copied)
}

fn copy_attrs(attrs: &[KeyValue]) -> (r: Value)
    ensures
        r@ == model::ValueView::ArrayKv(model::attrs_view(attrs@)),
{
    let mut copied: Vec<KeyValue> = Vec::new();
    let mut i: usize = 0;
    while i < attrs.len()
        invariant
            i <= attrs@.len(),
            copied@.len() == i,
            forall|j: int| 0 <= j < i ==> #[trigger] copied@[j]@ == attrs@[j]@,
        decreases attrs@.len() - i,
    {
        copied.push(attrs[i].copy());
        i = i + 1;
    }
    proof {
        assert(model::attrs_view(copied@) =~= model::attrs_view(attrs@));
        model::lemma_array_kv_view(copied);
    }
    Value::ArrayKv(copied)
}

fn copy_bytes(bytes: &[u8]) -> (r: Value)
    ensures
        r@ == model::ValueView::Bytes(bytes@),
{
    Value::Bytes(vstd::slice::slice_to_vec(bytes))
}

impl From<&Cow<'static, str>> for Str {
    fn from(value: &Cow<'static, str>) -> (r: Str) {
        Str::Cow(copy_cow(value))
    }
}

impl FromSpecImpl<&Cow<'static, str>> for Str {
    open spec fn obeys_from_spec() -> bool {
        true
    }

    open spec fn from_spec(value: &Cow<'static, str>) -> Str {
        Str::Cow(*value)
    }
}

impl From<&Cow<'static, str>> for Value {
    fn from(value: &Cow<'static, str>) -> (r: Value) {
        Value::String(Str::from(value))
    }
}

impl FromSpecImpl<&Cow<'static, str>> for Value {
    open spec fn obeys_from_spec() -> bool {
        true
    }

    open spec fn from_spec(value: &Cow<'static, str>) -> Value {
        Value::String(Str::Cow(*value))
    }
}

impl From<Box<str>> for Str {
    fn from(value: Box<str>) -> (r: Str)
        ensures
            r@ == value@,
    {
        Str::Cow(Cow::Owned((&*value).to_owned()))
    }
}

impl FromSpecImpl<Box<str>> for Str {
    open spec fn obeys_from_spec() -> bool {
        false
    }

    open spec fn from_spec(value: Box<str>) -> Str {
        arbitrary()
    }
}

impl From<Box<str>> for Value {
    fn from(value: Box<str>) -> (r: Value)
        ensures
            r@ == model::ValueView::String(value@),
    {
        Value::String(Str::Cow(Cow::Owned((&*value).to_owned())))
    }
}

impl FromSpecImpl<Box<str>> for Value {
    open spec fn obeys_from_spec() -> bool {
        false
    }

    open spec fn from_spec(value: Box<str>) -> Value {
        arbitrary()
    }
}

impl From<Box<[u8]>> for Value {
    fn from(bytes: Box<[u8]>) -> (r: Value)
        ensures
            r@ == model::ValueView::Bytes(bytes@),
    {
        Value::Bytes(bytes.into_vec())
    }
}

impl FromSpecImpl<Box<[u8]>> for Value {
    open spec fn obeys_from_spec() -> bool {
        false
    }

    open spec fn from_spec(bytes: Box<[u8]>) -> Value {
        arbitrary()
    }
}

impl From<&[Value]> for Value {
    fn from(values: &[Value]) -> (r: Value)
        ensures
            r@ == model::ValueView::ArrayAny(model::values_view(values@)),
    {
        copy_values(values)
    }
}

impl FromSpecImpl<&[Value]> for Value {
    open spec fn obeys_from_spec() -> bool {
        false
    }

    open spec fn from_spec(values: &[Value]) -> Value {
        arbitrary()
    }
}

impl<const N: usize> From<[Value; N]> for Value {
    fn from(values: [Value; N]) -> (r: Value)
        ensures
            r@ == model::ValueView::ArrayAny(model::values_view(values@)),
    {
        copy_values(values.as_slice())
    }
}

impl<const N: usize> FromSpecImpl<[Value; N]> for Value {
    open spec fn obeys_from_spec() -> bool {
        false
    }

    open spec fn from_spec(values: [Value; N]) -> Value {
        arbitrary()
    }
}

impl<const N: usize> From<&[Value; N]> for Value {
    fn from(values: &[Value; N]) -> (r: Value)
        ensures
            r@ == model::ValueView::ArrayAny(model::values_view(values@)),
    {
        copy_values(values.as_slice())
    }
}

impl<const N: usize> FromSpecImpl<&[Value; N]> for Value {
    open spec fn obeys_from_spec() -> bool {
        false
    }

    open spec fn from_spec(values: &[Value; N]) -> Value {
        arbitrary()
    }
}

impl From<&[KeyValue]> for Value {
    fn from(attrs: &[KeyValue]) -> (r: Value)
        ensures
            r@ == model::ValueView::ArrayKv(model::attrs_view(attrs@)),
    {
        copy_attrs(attrs)
    }
}

impl FromSpecImpl<&[KeyValue]> for Value {
    open spec fn obeys_from_spec() -> bool {
        false
    }

    open spec fn from_spec(attrs: &[KeyValue]) -> Value {
        arbitrary()
    }
}

impl<const N: usize> From<[KeyValue; N]> for Value {
    fn from(attrs: [KeyValue; N]) -> (r: Value)
        ensures
            r@ == model::ValueView::ArrayKv(model::attrs_view(attrs@)),
    {
        copy_attrs(attrs.as_slice())
    }
}

impl<const N: usize> FromSpecImpl<[KeyValue; N]> for Value {
    open spec fn obeys_from_spec() -> bool {
        false
    }

    open spec fn from_spec(attrs: [KeyValue; N]) -> Value {
        arbitrary()
    }
}

impl<const N: usize> From<&[KeyValue; N]> for Value {
    fn from(attrs: &[KeyValue; N]) -> (r: Value)
        ensures
            r@ == model::ValueView::ArrayKv(model::attrs_view(attrs@)),
    {
        copy_attrs(attrs.as_slice())
    }
}

impl<const N: usize> FromSpecImpl<&[KeyValue; N]> for Value {
    open spec fn obeys_from_spec() -> bool {
        false
    }

    open spec fn from_spec(attrs: &[KeyValue; N]) -> Value {
        arbitrary()
    }
}

impl From<&[u8]> for Value {
    fn from(bytes: &[u8]) -> (r: Value)
        ensures
            r@ == model::ValueView::Bytes(bytes@),
    {
        copy_bytes(bytes)
    }
}

impl FromSpecImpl<&[u8]> for Value {
    open spec fn obeys_from_spec() -> bool {
        false
    }

    open spec fn from_spec(bytes: &[u8]) -> Value {
        arbitrary()
    }
}

impl<const N: usize> From<[u8; N]> for Value {
    fn from(bytes: [u8; N]) -> (r: Value)
        ensures
            r@ == model::ValueView::Bytes(bytes@),
    {
        copy_bytes(bytes.as_slice())
    }
}

impl<const N: usize> FromSpecImpl<[u8; N]> for Value {
    open spec fn obeys_from_spec() -> bool {
        false
    }

    open spec fn from_spec(bytes: [u8; N]) -> Value {
        arbitrary()
    }
}

impl<const N: usize> From<&[u8; N]> for Value {
    fn from(bytes: &[u8; N]) -> (r: Value)
        ensures
            r@ == model::ValueView::Bytes(bytes@),
    {
        copy_bytes(bytes.as_slice())
    }
}

impl<const N: usize> FromSpecImpl<&[u8; N]> for Value {
    open spec fn obeys_from_spec() -> bool {
        false
    }

    open spec fn from_spec(bytes: &[u8; N]) -> Value {
        arbitrary()
    }
}

impl From<&KeyValue> for KeyValue {
    fn from(attr: &KeyValue) -> (r: KeyValue)
        ensures
            r@ == attr@,
    {
        attr.copy()
    }
}

impl FromSpecImpl<&KeyValue> for KeyValue {
    open spec fn obeys_from_spec() -> bool {
        false
    }

    open spec fn from_spec(attr: &KeyValue) -> KeyValue {
        arbitrary()
    }
}

impl From<&&KeyValue> for KeyValue {
    fn from(attr: &&KeyValue) -> (r: KeyValue)
        ensures
            r@ == attr@,
    {
        (**attr).copy()
    }
}

impl FromSpecImpl<&&KeyValue> for KeyValue {
    open spec fn obeys_from_spec() -> bool {
        false
    }

    open spec fn from_spec(attr: &&KeyValue) -> KeyValue {
        arbitrary()
    }
}

impl From<Str> for String {
    fn from(text: Str) -> (r: String)
        ensures
            r@ == text@,
    {
        text.to_text()
    }
}

impl FromSpecImpl<Str> for String {
    open spec fn obeys_from_spec() -> bool {
        false
    }

    open spec fn from_spec(text: Str) -> String {
        arbitrary()
    }
}

impl<K: Into<Str>, V: Into<Value>> From<(K, V)> for KeyValue {
    fn from(pair: (K, V)) -> (r: KeyValue) {
        KeyValue::new(pair.0, pair.1)
    }
}

impl<K: Into<Str>, V: Into<Value>> FromSpecImpl<(K, V)> for KeyValue {
    open spec fn obeys_from_spec() -> bool {
        <K as IntoSpec<Str>>::obeys_into_spec() && <V as IntoSpec<Value>>::obeys_into_spec()
    }

    open spec fn from_spec(pair: (K, V)) -> KeyValue {
        KeyValue {
            key: <K as IntoSpec<Str>>::into_spec(pair.0),
            value: Some(<V as IntoSpec<Value>>::into_spec(pair.1)),
        }
    }
}

} // verus!
