//! Attribute values, their order, their texts, and what they are made of.

use crate::laws::texts;
use crate::model;
use crate::model::{KeyValue, KeyValueView, NameIdentity, Str, Value, ValueView};
use crate::number;
use crate::number::{Number, OrderedNumber};
use crate::order::Ranked;
use crate::text;
use std::borrow::Cow;
use std::sync::Arc;
use vstd::prelude::*;
use vstd::std_specs::cmp::PartialEqSpec;
use vstd::std_specs::convert::{FromSpec, TryFromSpec};

verus! {

/// Values of different kinds stand in this order: texts, truth values, integers, doubles, lists, lists
/// of attributes, bytes.
pub proof fn values_are_ordered_by_kind(a: ValueView, b: ValueView)
    ensures
        a is String && b !is String ==> model::rank_value(a, b) == -1 && model::rank_value(b, a) == 1,
        a is Bool && (b is Int || b is Double || b is ArrayAny || b is ArrayKv || b is Bytes)
            ==> model::rank_value(a, b) == -1 && model::rank_value(b, a) == 1,
        a is Int && (b is Double || b is ArrayAny || b is ArrayKv || b is Bytes) ==> model::rank_value(a, b)
            == -1 && model::rank_value(b, a) == 1,
        a is Double && (b is ArrayAny || b is ArrayKv || b is Bytes) ==> model::rank_value(a, b) == -1
            && model::rank_value(b, a) == 1,
        a is ArrayAny && (b is ArrayKv || b is Bytes) ==> model::rank_value(a, b) == -1 && model::rank_value(
            b,
            a,
        ) == 1,
        a is ArrayKv && b is Bytes ==> model::rank_value(a, b) == -1 && model::rank_value(b, a) == 1,
{
}

/// Values of one kind stand in the order of what they hold; false stands before true.
pub proof fn values_are_ordered_by_content(
    a: Seq<char>,
    b: Seq<char>,
    i: i64,
    j: i64,
    x: number::NumberView,
    y: number::NumberView,
    bytes: Seq<u8>,
    others: Seq<u8>,
)
    ensures
        model::rank_value(ValueView::String(a), ValueView::String(b)) == text::rank_text(a, b),
        model::rank_value(ValueView::Bool(false), ValueView::Bool(true)) == -1,
        model::rank_value(ValueView::Bool(true), ValueView::Bool(false)) == 1,
        model::rank_value(ValueView::Bool(true), ValueView::Bool(true)) == 0,
        model::rank_value(ValueView::Bool(false), ValueView::Bool(false)) == 0,
        i < j ==> model::rank_value(ValueView::Int(i), ValueView::Int(j)) == -1,
        i == j ==> model::rank_value(ValueView::Int(i), ValueView::Int(j)) == 0,
        i > j ==> model::rank_value(ValueView::Int(i), ValueView::Int(j)) == 1,
        model::rank_value(ValueView::Double(x), ValueView::Double(y)) == number::rank_bits(x.bits, y.bits),
        model::rank_value(ValueView::Bytes(bytes), ValueView::Bytes(others)) == text::rank_bytes(bytes, others),
{
}

/// Lists stand in the order of the first items in which they differ, and a list stands behind those that
/// begin it.
pub proof fn lists_are_ordered_by_the_first_difference(a: Seq<ValueView>, b: Seq<ValueView>, n: int)
    requires
        0 <= n <= a.len(),
        n <= b.len(),
        forall|i: int| 0 <= i < n ==> model::rank_value(#[trigger] a[i], b[i]) == 0,
        n < a.len() && n < b.len() ==> model::rank_value(a[n], b[n]) != 0,
    ensures
        model::rank_value(ValueView::ArrayAny(a), ValueView::ArrayAny(b)) == if n < a.len() && n < b.len() {
            model::rank_value(a[n], b[n])
        } else if a.len() < b.len() {
            -1
        } else if a.len() > b.len() {
            1
        } else {
            0
        },
    decreases n,
{
    if n > 0 {
        let c = a.subrange(1, a.len() as int);
        let d = b.drop_first();
        assert(model::rank_value(a[0], b[0]) == 0);
        assert forall|i: int| 0 <= i < n - 1 implies model::rank_value(#[trigger] c[i], d[i]) == 0 by {
            assert(c[i] == a[i + 1] && d[i] == b[i + 1]);
        }
        if n < a.len() && n < b.len() {
            assert(c[n - 1] == a[n] && d[n - 1] == b[n]);
        }
        lists_are_ordered_by_the_first_difference(c, d, n - 1);
        assert(model::rank_value(ValueView::ArrayAny(a), ValueView::ArrayAny(b)) == model::rank_values(a, b));
        assert(model::rank_value(ValueView::ArrayAny(c), ValueView::ArrayAny(d)) == model::rank_values(c, d));
    } else {
        assert(model::rank_value(ValueView::ArrayAny(a), ValueView::ArrayAny(b)) == model::rank_values(a, b));
    }
}

/// Lists of attributes stand in the order of the first attributes in which they differ, and a list stands
/// behind those that begin it.
pub proof fn attributes_are_ordered_by_the_first_difference(a: Seq<KeyValueView>, b: Seq<KeyValueView>, n: int)
    requires
        0 <= n <= a.len(),
        n <= b.len(),
        forall|i: int| 0 <= i < n ==> model::rank_attr(#[trigger] a[i], b[i]) == 0,
        n < a.len() && n < b.len() ==> model::rank_attr(a[n], b[n]) != 0,
    ensures
        model::rank_attrs(a, b) == if n < a.len() && n < b.len() {
            model::rank_attr(a[n], b[n])
        } else if a.len() < b.len() {
            -1
        } else if a.len() > b.len() {
            1
        } else {
            0
        },
        model::rank_value(ValueView::ArrayKv(a), ValueView::ArrayKv(b)) == model::rank_attrs(a, b),
    decreases n,
{
    if n > 0 {
        let c = a.subrange(1, a.len() as int);
        let d = b.drop_first();
        assert(model::rank_attr(a[0], b[0]) == 0);
        assert forall|i: int| 0 <= i < n - 1 implies model::rank_attr(#[trigger] c[i], d[i]) == 0 by {
            assert(c[i] == a[i + 1] && d[i] == b[i + 1]);
        }
        if n < a.len() && n < b.len() {
            assert(c[n - 1] == a[n] && d[n - 1] == b[n]);
        }
        attributes_are_ordered_by_the_first_difference(c, d, n - 1);
    }
}

/// Attributes stand in the order of their keys; of those of one key, one without a value is the first,
/// and the others stand in the order of their values.
pub proof fn attributes_are_ordered_by_key(a: KeyValueView, b: KeyValueView)
    ensures
        text::rank_text(a.key, b.key) != 0 ==> model::rank_attr(a, b) == text::rank_text(a.key, b.key),
        text::rank_text(a.key, b.key) == 0 ==> {
            &&& a.value is None && b.value is None ==> model::rank_attr(a, b) == 0
            &&& a.value is None && b.value is Some ==> model::rank_attr(a, b) == -1
            &&& a.value is Some && b.value is None ==> model::rank_attr(a, b) == 1
            &&& a.value is Some && b.value is Some ==> model::rank_attr(a, b) == model::rank_value(
                a.value->0,
                b.value->0,
            )
        },
        <KeyValueView as Ranked>::rank(a, b) == model::rank_attr(a, b),
{
}

/// Texts, identities, values and attributes are equal by what they hold.
pub proof fn equality_is_that_of_the_content(
    a: Str,
    b: Str,
    value: Value,
    other: Value,
    attr: KeyValue,
    another: KeyValue,
    id: NameIdentity,
    other_id: NameIdentity,
)
    ensures
        PartialEqSpec::eq_spec(&a, &b) <==> a@ == b@,
        PartialEqSpec::eq_spec(&value, &other) <==> model::rank_value(value@, other@) == 0,
        PartialEqSpec::eq_spec(&attr, &another) <==> model::rank_attr(attr@, another@) == 0,
        PartialEqSpec::eq_spec(&id, &other_id) <==> id.name@ == other_id.name@ && id.description@
            == other_id.description@ && id.unit@ == other_id.unit@,
{
}

/// Truth values and numbers print as they are written; a text prints quoted.
pub proof fn single_values_print(text: Seq<char>, i: i64, x: number::NumberView)
    ensures
        model::value_text(ValueView::Bool(true)) == seq!['t', 'r', 'u', 'e'],
        model::value_text(ValueView::Bool(false)) == seq!['f', 'a', 'l', 's', 'e'],
        i < 0 ==> ({
            let printed = model::value_text(ValueView::Int(i));
            &&& printed.len() >= 2
            &&& printed[0] == '-'
            &&& texts::is_numeral(printed.skip(1))
            &&& texts::numeral_value(printed.skip(1)) == -i
        }),
        i >= 0 ==> ({
            let printed = model::value_text(ValueView::Int(i));
            &&& texts::is_numeral(printed)
            &&& texts::numeral_value(printed) == i
        }),
        model::value_text(ValueView::Double(x)) == number::double_text(x.bits),
        model::value_text(ValueView::String(text)) == text::debug_text(text),
{
    reveal_strlit("true");
    reveal_strlit("false");
    assert("true"@ =~= seq!['t', 'r', 'u', 'e']);
    assert("false"@ =~= seq!['f', 'a', 'l', 's', 'e']);
    texts::signed_numerals_stand_for_their_number(i as int);
}

/// Lists print in brackets, lists of attributes in braces, their items set apart by commas.
pub proof fn lists_print_every_item(
    values: Seq<ValueView>,
    value: ValueView,
    attrs: Seq<KeyValueView>,
    attr: KeyValueView,
)
    ensures
        model::value_text(ValueView::ArrayAny(values)) == seq!['['] + model::values_text(values) + seq![']'],
        model::values_text(Seq::empty()) == Seq::<char>::empty(),
        model::values_text(values.push(value)) == if values.len() == 0 {
            model::value_text(value)
        } else {
            model::values_text(values) + seq![','] + model::value_text(value)
        },
        model::value_text(ValueView::ArrayKv(attrs)) == seq!['{'] + model::attrs_text(attrs) + seq!['}'],
        model::attrs_text(Seq::empty()) == Seq::<char>::empty(),
        model::attrs_text(attrs.push(attr)) == if attrs.len() == 0 {
            model::attr_text(attr)
        } else {
            model::attrs_text(attrs) + seq![','] + model::attr_text(attr)
        },
{
    let more = values.push(value);
    assert(more.subrange(0, more.len() - 1) =~= values);
    if values.len() == 0 {
        assert(model::values_text(values) =~= Seq::<char>::empty());
        assert(model::values_text(more) =~= model::value_text(value));
    }
    let longer = attrs.push(attr);
    assert(longer.subrange(0, longer.len() - 1) =~= attrs);
    if attrs.len() == 0 {
        assert(model::attrs_text(attrs) =~= Seq::<char>::empty());
        assert(model::attrs_text(longer) =~= model::attr_text(attr));
    }
}

/// Bytes print in brackets as decimal numbers, set apart by a comma and a blank.
pub proof fn bytes_print_every_byte(bytes: Seq<u8>, byte: u8)
    ensures
        model::value_text(ValueView::Bytes(bytes)) == seq!['['] + model::bytes_text(bytes) + seq![']'],
        model::bytes_text(Seq::empty()) == Seq::<char>::empty(),
        model::bytes_text(bytes.push(byte)) == if bytes.len() == 0 {
            text::decimal(byte as nat)
        } else {
            model::bytes_text(bytes) + seq![',', ' '] + text::decimal(byte as nat)
        },
{
    reveal_strlit(", ");
    assert(", "@ =~= seq![',', ' ']);
    let more = bytes.push(byte);
    assert(more.drop_last() =~= bytes);
    if bytes.len() == 0 {
        assert(model::bytes_text(bytes) =~= Seq::<char>::empty());
        assert(model::bytes_text(more) =~= text::decimal(byte as nat));
    }
}

/// An attribute prints as its key, and where it has a value, an equals sign and the value.
pub proof fn attributes_print_key_and_value(attr: KeyValueView)
    ensures
        attr.value is None ==> model::attr_text(attr) == attr.key,
        attr.value matches Some(value) ==> model::attr_text(attr) == attr.key + seq!['='] + model::value_text(
            value,
        ),
{
}

/// A text stays what it is, whatever it is made from.
pub proof fn texts_are_made_of_texts(
    literal: &'static str,
    string: String,
    shared: Arc<str>,
    cow: Cow<'static, str>,
    text: Str,
)
    ensures
        <Str as FromSpec<&'static str>>::from_spec(literal)@ == literal@,
        <Str as FromSpec<String>>::from_spec(string)@ == string@,
        <Str as FromSpec<&String>>::from_spec(&string)@ == string@,
        <Str as FromSpec<Arc<str>>>::from_spec(shared)@ == shared@,
        <Str as FromSpec<&Arc<str>>>::from_spec(&shared)@ == shared@,
        <Str as FromSpec<Cow<'static, str>>>::from_spec(cow)@ == cow@,
        <Str as FromSpec<&Cow<'static, str>>>::from_spec(&cow)@ == cow@,
        <Str as FromSpec<&Str>>::from_spec(&text)@ == text@,
        <Value as FromSpec<&'static str>>::from_spec(literal)@ == ValueView::String(literal@),
        <Value as FromSpec<String>>::from_spec(string)@ == ValueView::String(string@),
        <Value as FromSpec<&String>>::from_spec(&string)@ == ValueView::String(string@),
        <Value as FromSpec<Arc<str>>>::from_spec(shared)@ == ValueView::String(shared@),
        <Value as FromSpec<&Arc<str>>>::from_spec(&shared)@ == ValueView::String(shared@),
        <Value as FromSpec<Cow<'static, str>>>::from_spec(cow)@ == ValueView::String(cow@),
        <Value as FromSpec<&Cow<'static, str>>>::from_spec(&cow)@ == ValueView::String(cow@),
        <Value as FromSpec<&Str>>::from_spec(&text)@ == ValueView::String(text@),
        <Value as FromSpec<Str>>::from_spec(text)@ == ValueView::String(text@),
{
}

/// Whether a value is an integer.
pub open spec fn is_int(value: Value, expected: int) -> bool {
    value@ matches ValueView::Int(held) && held == expected
}

/// An integer stays what it is, whatever its width. One that a signed integer of 64 bits cannot hold is
/// refused.
pub proof fn integers_are_made_of_integers(
    a: i8,
    b: i16,
    c: i32,
    d: i64,
    e: u8,
    f: u16,
    g: u32,
    h: u64,
    i: usize,
)
    ensures
        is_int(<Value as FromSpec<i8>>::from_spec(a), a as int),
        is_int(<Value as FromSpec<i16>>::from_spec(b), b as int),
        is_int(<Value as FromSpec<i32>>::from_spec(c), c as int),
        is_int(<Value as FromSpec<i64>>::from_spec(d), d as int),
        is_int(<Value as FromSpec<u8>>::from_spec(e), e as int),
        is_int(<Value as FromSpec<u16>>::from_spec(f), f as int),
        is_int(<Value as FromSpec<u32>>::from_spec(g), g as int),
        match <Value as TryFromSpec<u64>>::try_from_spec(h) {
            Ok(value) => is_int(value, h as int),
            Err(_) => h > 0x7fff_ffff_ffff_ffff,
        },
        match <Value as TryFromSpec<usize>>::try_from_spec(i) {
            Ok(value) => is_int(value, i as int),
            Err(_) => i > 0x7fff_ffff_ffff_ffff,
        },
{
}

/// Truth values, doubles, lists and bytes stay what they are.
pub proof fn values_are_made_of_values(
    flag: bool,
    double: Number,
    ordered: OrderedNumber,
    values: Vec<Value>,
    attrs: Vec<KeyValue>,
    bytes: Vec<u8>,
)
    ensures
        <Value as FromSpec<bool>>::from_spec(flag)@ == ValueView::Bool(flag),
        <Value as FromSpec<Number>>::from_spec(double)@ == ValueView::Double(double@),
        <Value as FromSpec<OrderedNumber>>::from_spec(ordered)@ == ValueView::Double(ordered@),
        <Value as FromSpec<Vec<u8>>>::from_spec(bytes)@ == ValueView::Bytes(bytes@),
        <Value as FromSpec<Vec<Value>>>::from_spec(values)@ matches ValueView::ArrayAny(held) && held.len()
            == values@.len() && forall|i: int| 0 <= i < held.len() ==> #[trigger] held[i] == values@[i]@,
        <Value as FromSpec<Vec<KeyValue>>>::from_spec(attrs)@ matches ValueView::ArrayKv(held) && held.len()
            == attrs@.len() && forall|i: int| 0 <= i < held.len() ==> #[trigger] held[i] == attrs@[i]@,
{
}

/// What attributes, values and identities are said to hold, their fields hold: no field stands for
/// another.
pub proof fn values_are_seen_as_they_are(
    text: Str,
    flag: bool,
    i: i64,
    double: OrderedNumber,
    bytes: Vec<u8>,
    attr: KeyValue,
    id: NameIdentity,
    attrs: Seq<KeyValue>,
)
    ensures
        text matches Str::Cow(cow) ==> text@ == cow@,
        text matches Str::ArcStr(shared) ==> text@ == shared@,
        Value::String(text)@ == ValueView::String(text@),
        Value::Bool(flag)@ == ValueView::Bool(flag),
        Value::Int(i)@ == ValueView::Int(i),
        Value::Double(double)@ == ValueView::Double(double.0@),
        Value::Bytes(bytes)@ == ValueView::Bytes(bytes@),
        attr@.key == attr.key@,
        attr.value is None ==> attr@.value is None,
        attr.value matches Some(value) ==> attr@.value == Some(value@),
        id@.name == id.name@,
        id@.description == id.description@,
        id@.unit == id.unit@,
        model::attrs_view(attrs).len() == attrs.len(),
        forall|j: int| 0 <= j < attrs.len() ==> #[trigger] model::attrs_view(attrs)[j] == attrs[j]@,
{
}

} // verus!
