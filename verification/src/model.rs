//! Names, attribute values and identities.

use crate::number;
use crate::number::OrderedNumber;
use crate::observe::Mode;
use crate::order;
use crate::text;
use std::borrow::Cow;
use std::sync::Arc;
use vstd::prelude::*;
use vstd::std_specs::convert::*;
use vstd::string::*;

verus! {

/// `Arc::clone`: a second handle to the same value.
#[verifier::external_body]
pub(crate) fn share<T: ?Sized>(handle: &Arc<T>) -> (r: Arc<T>)
    ensures
        r == *handle,
{
    Arc::clone(handle)
}

/// A text that is borrowed for ever, owned, or shared.
#[derive(Debug)]
pub enum Str {
    Cow(Cow<'static, str>),
    ArcStr(Arc<str>),
}

impl View for Str {
    type V = Seq<char>;

    open spec fn view(&self) -> Seq<char> {
        match self {
            Str::Cow(text) => text@,
            Str::ArcStr(text) => text@,
        }
    }
}

impl Str {
    pub fn as_str(&self) -> (r: &str)
        ensures
            r@ == self@,
    {
        match self {
            Str::Cow(Cow::Borrowed(text)) => text,
            Str::Cow(Cow::Owned(text)) => text.as_str(),
            Str::ArcStr(text) => &**text,
        }
    }

    /// A second text with the same content; a shared text stays shared.
    pub fn copy(&self) -> (r: Str)
        ensures
            r == *self,
    {
        match self {
            Str::Cow(Cow::Borrowed(text)) => Str::Cow(Cow::Borrowed(text)),
            Str::Cow(Cow::Owned(text)) => Str::Cow(Cow::Owned(text.clone())),
            Str::ArcStr(text) => Str::ArcStr(share(text)),
        }
    }

    /// The content as a `String`.
    pub fn to_text(&self) -> (r: String)
        ensures
            r@ == self@,
    {
        self.as_str().to_owned()
    }
}

impl PartialEq for Str {
    fn eq(&self, other: &Str) -> (r: bool) {
        text::same_text(self.as_str(), other.as_str())
    }
}

impl vstd::std_specs::cmp::PartialEqSpecImpl for Str {
    open spec fn obeys_eq_spec() -> bool {
        true
    }

    open spec fn eq_spec(&self, other: &Str) -> bool {
        self@ == other@
    }
}

impl Eq for Str {

}

impl Clone for Str {
    fn clone(&self) -> (r: Str)
        ensures
            r == *self,
    {
        self.copy()
    }
}

impl From<&'static str> for Str {
    fn from(value: &'static str) -> (r: Str) {
        Str::Cow(Cow::Borrowed(value))
    }
}

impl FromSpecImpl<&'static str> for Str {
    open spec fn obeys_from_spec() -> bool {
        true
    }

    open spec fn from_spec(value: &'static str) -> Str {
        Str::Cow(Cow::Borrowed(value))
    }
}

impl From<String> for Str {
    fn from(value: String) -> (r: Str) {
        Str::Cow(Cow::Owned(value))
    }
}

impl FromSpecImpl<String> for Str {
    open spec fn obeys_from_spec() -> bool {
        true
    }

    open spec fn from_spec(value: String) -> Str {
        Str::Cow(Cow::Owned(value))
    }
}

impl From<&String> for Str {
    fn from(value: &String) -> (r: Str) {
        Str::Cow(Cow::Owned(value.clone()))
    }
}

impl FromSpecImpl<&String> for Str {
    open spec fn obeys_from_spec() -> bool {
        true
    }

    open spec fn from_spec(value: &String) -> Str {
        Str::Cow(Cow::Owned(*value))
    }
}

impl From<Arc<str>> for Str {
    fn from(value: Arc<str>) -> (r: Str) {
        Str::ArcStr(value)
    }
}

impl FromSpecImpl<Arc<str>> for Str {
    open spec fn obeys_from_spec() -> bool {
        true
    }

    open spec fn from_spec(value: Arc<str>) -> Str {
        Str::ArcStr(value)
    }
}

impl From<&Arc<str>> for Str {
    fn from(value: &Arc<str>) -> (r: Str) {
        Str::ArcStr(share(value))
    }
}

impl FromSpecImpl<&Arc<str>> for Str {
    open spec fn obeys_from_spec() -> bool {
        true
    }

    open spec fn from_spec(value: &Arc<str>) -> Str {
        Str::ArcStr(*value)
    }
}

impl From<Cow<'static, str>> for Str {
    fn from(value: Cow<'static, str>) -> (r: Str) {
        Str::Cow(value)
    }
}

impl FromSpecImpl<Cow<'static, str>> for Str {
    open spec fn obeys_from_spec() -> bool {
        true
    }

    open spec fn from_spec(value: Cow<'static, str>) -> Str {
        Str::Cow(value)
    }
}

impl From<&Str> for Str {
    fn from(value: &Str) -> (r: Str) {
        value.copy()
    }
}

impl FromSpecImpl<&Str> for Str {
    open spec fn obeys_from_spec() -> bool {
        true
    }

    open spec fn from_spec(value: &Str) -> Str {
        *value
    }
}

/// The value of an attribute.
#[derive(Debug)]
pub enum Value {
    String(Str),
    Bool(bool),
    Int(i64),
    Double(OrderedNumber),
    ArrayAny(Vec<Value>),
    ArrayKv(Vec<KeyValue>),
    Bytes(Vec<u8>),
}

/// An attribute: a key, and a value where it has one.
#[derive(Debug)]
pub struct KeyValue {
    pub key: Str,
    pub value: Option<Value>,
}

pub ghost enum ValueView {
    String(Seq<char>),
    Bool(bool),
    Int(i64),
    Double(number::NumberView),
    ArrayAny(Seq<ValueView>),
    ArrayKv(Seq<KeyValueView>),
    Bytes(Seq<u8>),
}

pub ghost struct KeyValueView {
    pub key: Seq<char>,
    pub value: Option<ValueView>,
}

/// What a value holds.
pub open spec fn value_view(value: Value) -> ValueView
    decreases value,
{
    match value {
        Value::String(text) => ValueView::String(text@),
        Value::Bool(value) => ValueView::Bool(value),
        Value::Int(value) => ValueView::Int(value),
        Value::Double(value) => ValueView::Double(value@),
        Value::ArrayAny(values) => ValueView::ArrayAny(
            Seq::new(
                values@.len(),
                |i: int| if 0 <= i < values@.len() { value_view(values@[i]) } else { arbitrary() },
            ),
        ),
        Value::ArrayKv(attrs) => ValueView::ArrayKv(
            Seq::new(
                attrs@.len(),
                |i: int| if 0 <= i < attrs@.len() { attr_view(attrs@[i]) } else { arbitrary() },
            ),
        ),
        Value::Bytes(bytes) => ValueView::Bytes(bytes@),
    }
}

/// What an attribute holds.
pub open spec fn attr_view(attr: KeyValue) -> KeyValueView
    decreases attr,
{
    KeyValueView {
        key: attr.key@,
        value: match attr.value {
            Some(value) => Some(value_view(value)),
            None => None,
        },
    }
}

impl View for Value {
    type V = ValueView;

    open spec fn view(&self) -> ValueView {
        value_view(*self)
    }
}

impl View for KeyValue {
    type V = KeyValueView;

    open spec fn view(&self) -> KeyValueView {
        attr_view(*self)
    }
}

/// What a list of values holds.
pub open spec fn values_view(values: Seq<Value>) -> Seq<ValueView> {
    values.map_values(|value: Value| value@)
}

/// What a list of attributes holds.
pub open spec fn attrs_view(attrs: Seq<KeyValue>) -> Seq<KeyValueView> {
    attrs.map_values(|attr: KeyValue| attr@)
}

/// The place of a value's variant in the order of values.
pub open spec fn variant_index(value: ValueView) -> int {
    match value {
        ValueView::String(_) => 0,
        ValueView::Bool(_) => 1,
        ValueView::Int(_) => 2,
        ValueView::Double(_) => 3,
        ValueView::ArrayAny(_) => 4,
        ValueView::ArrayKv(_) => 5,
        ValueView::Bytes(_) => 6,
    }
}

/// Negative, zero or positive as `a` is less than, equal to or greater than `b`.
pub open spec fn rank_int(a: int, b: int) -> int {
    if a < b {
        -1
    } else if a == b {
        0
    } else {
        1
    }
}

pub open spec fn bool_index(value: bool) -> int {
    if value { 1 } else { 0 }
}

/// The order of values: by variant, then by content; arrays lexicographically.
pub open spec fn rank_value(a: ValueView, b: ValueView) -> int
    decreases a,
{
    match (a, b) {
        (ValueView::String(x), ValueView::String(y)) => text::rank_text(x, y),
        (ValueView::Bool(x), ValueView::Bool(y)) => rank_int(bool_index(x), bool_index(y)),
        (ValueView::Int(x), ValueView::Int(y)) => rank_int(x as int, y as int),
        (ValueView::Double(x), ValueView::Double(y)) => number::rank_bits(x.bits, y.bits),
        (ValueView::ArrayAny(x), ValueView::ArrayAny(y)) => rank_values(x, y),
        (ValueView::ArrayKv(x), ValueView::ArrayKv(y)) => rank_attrs(x, y),
        (ValueView::Bytes(x), ValueView::Bytes(y)) => text::rank_bytes(x, y),
        _ => rank_int(variant_index(a), variant_index(b)),
    }
}

pub open spec fn rank_values(a: Seq<ValueView>, b: Seq<ValueView>) -> int
    decreases a,
{
    if a.len() == 0 {
        if b.len() == 0 { 0 } else { -1 }
    } else if b.len() == 0 {
        1
    } else {
        let first = rank_value(a[0], b[0]);
        if first != 0 { first } else { rank_values(a.subrange(1, a.len() as int), b.drop_first()) }
    }
}

/// The order of attributes: by key, then by value, those without a value first.
pub open spec fn rank_attr(a: KeyValueView, b: KeyValueView) -> int
    decreases a,
{
    let key = text::rank_text(a.key, b.key);
    if key != 0 {
        key
    } else {
        match (a.value, b.value) {
            (None, None) => 0,
            (None, Some(_)) => -1,
            (Some(_), None) => 1,
            (Some(x), Some(y)) => rank_value(x, y),
        }
    }
}

/// The lexicographic order of attribute lists.
pub open spec fn rank_attrs(a: Seq<KeyValueView>, b: Seq<KeyValueView>) -> int
    decreases a,
{
    if a.len() == 0 {
        if b.len() == 0 { 0 } else { -1 }
    } else if b.len() == 0 {
        1
    } else {
        let first = rank_attr(a[0], b[0]);
        if first != 0 { first } else { rank_attrs(a.subrange(1, a.len() as int), b.drop_first()) }
    }
}


/// The order of values is antisymmetric.
pub proof fn lemma_rank_value_flip(a: ValueView, b: ValueView)
    ensures
        rank_value(a, b) == -rank_value(b, a),
        -1 <= rank_value(a, b) <= 1,
    decreases a,
{
    match (a, b) {
        (ValueView::String(x), ValueView::String(y)) => text::lemma_rank_text_flip(x, y),
        (ValueView::ArrayAny(x), ValueView::ArrayAny(y)) => lemma_rank_values_flip(x, y),
        (ValueView::ArrayKv(x), ValueView::ArrayKv(y)) => lemma_rank_attrs_flip(x, y),
        (ValueView::Bytes(x), ValueView::Bytes(y)) => text::lemma_rank_bytes_flip(x, y),
        _ => {},
    }
}

pub proof fn lemma_rank_values_flip(a: Seq<ValueView>, b: Seq<ValueView>)
    ensures
        rank_values(a, b) == -rank_values(b, a),
        -1 <= rank_values(a, b) <= 1,
    decreases a,
{
    if a.len() > 0 && b.len() > 0 {
        lemma_rank_value_flip(a[0], b[0]);
        let rest = a.subrange(1, a.len() as int);
        lemma_rank_values_flip(rest, b.drop_first());
        assert(rest =~= a.drop_first());
        assert(b.subrange(1, b.len() as int) =~= b.drop_first());
    }
}

/// The order of attributes is antisymmetric.
pub proof fn lemma_rank_attr_flip(a: KeyValueView, b: KeyValueView)
    ensures
        rank_attr(a, b) == -rank_attr(b, a),
        -1 <= rank_attr(a, b) <= 1,
    decreases a,
{
    text::lemma_rank_text_flip(a.key, b.key);
    match (a.value, b.value) {
        (Some(x), Some(y)) => lemma_rank_value_flip(x, y),
        _ => {},
    }
}

/// The order of attribute lists is antisymmetric.
pub proof fn lemma_rank_attrs_flip(a: Seq<KeyValueView>, b: Seq<KeyValueView>)
    ensures
        rank_attrs(a, b) == -rank_attrs(b, a),
        -1 <= rank_attrs(a, b) <= 1,
    decreases a,
{
    if a.len() > 0 && b.len() > 0 {
        lemma_rank_attr_flip(a[0], b[0]);
        let rest = a.subrange(1, a.len() as int);
        lemma_rank_attrs_flip(rest, b.drop_first());
        assert(rest =~= a.drop_first());
        assert(b.subrange(1, b.len() as int) =~= b.drop_first());
    }
}

/// The order of values is transitive, strictly so where one of the two steps is strict.
pub proof fn lemma_rank_value_transitive(a: ValueView, b: ValueView, c: ValueView)
    requires
        rank_value(a, b) <= 0,
        rank_value(b, c) <= 0,
    ensures
        rank_value(a, c) <= 0,
        rank_value(a, b) < 0 || rank_value(b, c) < 0 <==> rank_value(a, c) < 0,
    decreases a,
{
    match (a, b, c) {
        (ValueView::String(x), ValueView::String(y), ValueView::String(z)) => {
            text::lemma_rank_text_transitive(x, y, z)
        },
        (ValueView::ArrayAny(x), ValueView::ArrayAny(y), ValueView::ArrayAny(z)) => {
            lemma_rank_values_transitive(x, y, z)
        },
        (ValueView::ArrayKv(x), ValueView::ArrayKv(y), ValueView::ArrayKv(z)) => {
            lemma_rank_attrs_transitive(x, y, z)
        },
        (ValueView::Bytes(x), ValueView::Bytes(y), ValueView::Bytes(z)) => {
            text::lemma_rank_bytes_transitive(x, y, z)
        },
        _ => {},
    }
}

pub proof fn lemma_rank_values_transitive(
    a: Seq<ValueView>,
    b: Seq<ValueView>,
    c: Seq<ValueView>,
)
    requires
        rank_values(a, b) <= 0,
        rank_values(b, c) <= 0,
    ensures
        rank_values(a, c) <= 0,
        rank_values(a, b) < 0 || rank_values(b, c) < 0 <==> rank_values(a, c) < 0,
    decreases a,
{
    if a.len() > 0 && b.len() > 0 && c.len() > 0 {
        lemma_rank_value_transitive(a[0], b[0], c[0]);
        if rank_value(a[0], b[0]) == 0 && rank_value(b[0], c[0]) == 0 {
            let rest = a.subrange(1, a.len() as int);
            assert(b.subrange(1, b.len() as int) =~= b.drop_first());
            lemma_rank_values_transitive(rest, b.drop_first(), c.drop_first());
        }
    }
}

/// The order of attributes is transitive, strictly so where one of the two steps is strict.
pub proof fn lemma_rank_attr_transitive(a: KeyValueView, b: KeyValueView, c: KeyValueView)
    requires
        rank_attr(a, b) <= 0,
        rank_attr(b, c) <= 0,
    ensures
        rank_attr(a, c) <= 0,
        rank_attr(a, b) < 0 || rank_attr(b, c) < 0 <==> rank_attr(a, c) < 0,
    decreases a,
{
    text::lemma_rank_text_transitive(a.key, b.key, c.key);
    text::lemma_rank_text_flip(a.key, b.key);
    text::lemma_rank_text_flip(b.key, c.key);
    text::lemma_rank_text_flip(a.key, c.key);
    match (a.value, b.value, c.value) {
        (Some(x), Some(y), Some(z)) => {
            if a.key == b.key && b.key == c.key {
                lemma_rank_value_transitive(x, y, z)
            }
        },
        _ => {},
    }
}

/// The order of attribute lists is transitive, strictly so where one of the two steps is strict.
pub proof fn lemma_rank_attrs_transitive(
    a: Seq<KeyValueView>,
    b: Seq<KeyValueView>,
    c: Seq<KeyValueView>,
)
    requires
        rank_attrs(a, b) <= 0,
        rank_attrs(b, c) <= 0,
    ensures
        rank_attrs(a, c) <= 0,
        rank_attrs(a, b) < 0 || rank_attrs(b, c) < 0 <==> rank_attrs(a, c) < 0,
    decreases a,
{
    if a.len() > 0 && b.len() > 0 && c.len() > 0 {
        lemma_rank_attr_transitive(a[0], b[0], c[0]);
        if rank_attr(a[0], b[0]) == 0 && rank_attr(b[0], c[0]) == 0 {
            let rest = a.subrange(1, a.len() as int);
            assert(b.subrange(1, b.len() as int) =~= b.drop_first());
            lemma_rank_attrs_transitive(rest, b.drop_first(), c.drop_first());
        }
    }
}

/// Attribute lists are equal where neither stands before the other. That is an equivalence: every
/// list is equal to itself, equality goes both ways, and it carries over from one pair to the next.
pub proof fn equal_attrs_is_an_equivalence(
    a: Seq<KeyValueView>,
    b: Seq<KeyValueView>,
    c: Seq<KeyValueView>,
)
    ensures
        rank_attrs(a, a) == 0,
        rank_attrs(a, b) == 0 <==> rank_attrs(b, a) == 0,
        rank_attrs(a, b) == 0 && rank_attrs(b, c) == 0 ==> rank_attrs(a, c) == 0,
{
    lemma_rank_attrs_flip(a, a);
    lemma_rank_attrs_flip(a, b);
    if rank_attrs(a, b) == 0 && rank_attrs(b, c) == 0 {
        lemma_rank_attrs_transitive(a, b, c);
    }
}

impl order::Ranked for KeyValueView {
    open spec fn rank(a: KeyValueView, b: KeyValueView) -> int {
        rank_attr(a, b)
    }

    proof fn rank_flip(a: KeyValueView, b: KeyValueView) {
        lemma_rank_attr_flip(a, b);
    }

    proof fn rank_transitive(a: KeyValueView, b: KeyValueView, c: KeyValueView) {
        lemma_rank_attr_transitive(a, b, c);
    }
}

impl order::Comparable for KeyValue {
    fn compare(&self, other: &KeyValue) -> (r: i8) {
        compare_attr(self, other)
    }
}

pub(crate) proof fn lemma_array_any_view(values: Vec<Value>)
    ensures
        Value::ArrayAny(values)@ == ValueView::ArrayAny(values_view(values@)),
{
    let array = Value::ArrayAny(values);
    assert(array@->ArrayAny_0 =~= values_view(values@));
}

pub(crate) proof fn lemma_array_kv_view(attrs: Vec<KeyValue>)
    ensures
        Value::ArrayKv(attrs)@ == ValueView::ArrayKv(attrs_view(attrs@)),
{
    let array = Value::ArrayKv(attrs);
    assert(array@->ArrayKv_0 =~= attrs_view(attrs@));
}

fn variant_number(value: &Value) -> (r: i8)
    ensures
        r as int == variant_index(value@),
{
    match value {
        Value::String(_) => 0,
        Value::Bool(_) => 1,
        Value::Int(_) => 2,
        Value::Double(_) => 3,
        Value::ArrayAny(_) => 4,
        Value::ArrayKv(_) => 5,
        Value::Bytes(_) => 6,
    }
}

/// Compares two values.
pub fn compare_value(a: &Value, b: &Value) -> (r: i8)
    ensures
        r as int == rank_value(a@, b@),
    decreases a,
{
    match (a, b) {
        (Value::String(x), Value::String(y)) => text::compare_text(x.as_str(), y.as_str()),
        (Value::Bool(x), Value::Bool(y)) => {
            if !*x && *y {
                -1
            } else if *x == *y {
                0
            } else {
                1
            }
        },
        (Value::Int(x), Value::Int(y)) => {
            if *x < *y {
                -1
            } else if *x == *y {
                0
            } else {
                1
            }
        },
        (Value::Double(x), Value::Double(y)) => number::compare_double_bits(x.0.bits(), y.0.bits()),
        (Value::ArrayAny(x), Value::ArrayAny(y)) => {
            proof {
                lemma_array_any_view(*x);
                lemma_array_any_view(*y);
            }
            compare_values(x, y)
        },
        (Value::ArrayKv(x), Value::ArrayKv(y)) => {
            proof {
                lemma_array_kv_view(*x);
                lemma_array_kv_view(*y);
            }
            compare_attrs(x, y)
        },
        (Value::Bytes(x), Value::Bytes(y)) => text::compare_bytes(x.as_slice(), y.as_slice()),
        _ => {
            let x: i8 = variant_number(a);
            let y: i8 = variant_number(b);
            if x < y {
                -1
            } else if x == y {
                0
            } else {
                1
            }
        },
    }
}

fn compare_values(a: &Vec<Value>, b: &Vec<Value>) -> (r: i8)
    ensures
        r as int == rank_values(values_view(a@), values_view(b@)),
    decreases a,
{
    let ghost left = values_view(a@);
    let ghost right = values_view(b@);
    let mut i: usize = 0;
    assert(left.skip(0) =~= left);
    assert(right.skip(0) =~= right);
    while i < a.len() && i < b.len()
        invariant
            i <= a@.len(),
            i <= b@.len(),
            left == values_view(a@),
            right == values_view(b@),
            rank_values(left, right) == rank_values(left.skip(i as int), right.skip(i as int)),
        decreases a@.len() - i,
    {
        let first: i8 = compare_value(&a[i], &b[i]);
        if first != 0 {
            return first;
        }
        let ghost rest = left.skip(i as int);
        assert(rest.subrange(1, rest.len() as int) =~= left.skip(i + 1));
        assert(right.skip(i as int).drop_first() =~= right.skip(i + 1));
        i = i + 1;
    }
    if i < b.len() {
        -1
    } else if i < a.len() {
        1
    } else {
        0
    }
}

/// Compares two attributes.
pub fn compare_attr(a: &KeyValue, b: &KeyValue) -> (r: i8)
    ensures
        r as int == rank_attr(a@, b@),
    decreases a,
{
    let key: i8 = text::compare_text(a.key.as_str(), b.key.as_str());
    if key != 0 {
        return key;
    }
    match (&a.value, &b.value) {
        (None, None) => 0,
        (None, Some(_)) => -1,
        (Some(_), None) => 1,
        (Some(x), Some(y)) => compare_value(x, y),
    }
}

/// Compares two attribute lists.
pub fn compare_attrs(a: &Vec<KeyValue>, b: &Vec<KeyValue>) -> (r: i8)
    ensures
        r as int == rank_attrs(attrs_view(a@), attrs_view(b@)),
    decreases a,
{
    let ghost left = attrs_view(a@);
    let ghost right = attrs_view(b@);
    let mut i: usize = 0;
    assert(left.skip(0) =~= left);
    assert(right.skip(0) =~= right);
    while i < a.len() && i < b.len()
        invariant
            i <= a@.len(),
            i <= b@.len(),
            left == attrs_view(a@),
            right == attrs_view(b@),
            rank_attrs(left, right) == rank_attrs(left.skip(i as int), right.skip(i as int)),
        decreases a@.len() - i,
    {
        let first: i8 = compare_attr(&a[i], &b[i]);
        if first != 0 {
            return first;
        }
        let ghost rest = left.skip(i as int);
        assert(rest.subrange(1, rest.len() as int) =~= left.skip(i + 1));
        assert(right.skip(i as int).drop_first() =~= right.skip(i + 1));
        i = i + 1;
    }
    if i < b.len() {
        -1
    } else if i < a.len() {
        1
    } else {
        0
    }
}

impl PartialEq for Value {
    fn eq(&self, other: &Value) -> (r: bool) {
        compare_value(self, other) == 0
    }
}

impl vstd::std_specs::cmp::PartialEqSpecImpl for Value {
    open spec fn obeys_eq_spec() -> bool {
        true
    }

    open spec fn eq_spec(&self, other: &Value) -> bool {
        rank_value(self@, other@) == 0
    }
}

impl Eq for Value {

}

impl PartialEq for KeyValue {
    fn eq(&self, other: &KeyValue) -> (r: bool) {
        compare_attr(self, other) == 0
    }
}

impl vstd::std_specs::cmp::PartialEqSpecImpl for KeyValue {
    open spec fn obeys_eq_spec() -> bool {
        true
    }

    open spec fn eq_spec(&self, other: &KeyValue) -> bool {
        rank_attr(self@, other@) == 0
    }
}

impl Eq for KeyValue {

}

/// A byte list as `Debug` writes it, without the brackets.
pub open spec fn bytes_text(bytes: Seq<u8>) -> Seq<char>
    decreases bytes.len(),
{
    if bytes.len() == 0 {
        Seq::empty()
    } else {
        let before = bytes_text(bytes.drop_last());
        let separator = if bytes.len() > 1 { ", "@ } else { Seq::empty() };
        before + separator + text::decimal(bytes.last() as nat)
    }
}

/// What a value says to a reader: a string quoted, an array in brackets, an attribute list in
/// braces.
pub open spec fn value_text(value: ValueView) -> Seq<char>
    decreases value,
{
    match value {
        ValueView::String(content) => text::debug_text(content),
        ValueView::Bool(value) => if value { "true"@ } else { "false"@ },
        ValueView::Int(value) => text::decimal_int(value as int),
        ValueView::Double(value) => number::double_text(value.bits),
        ValueView::ArrayAny(values) => seq!['['] + values_text(values) + seq![']'],
        ValueView::ArrayKv(attrs) => seq!['{'] + attrs_text(attrs) + seq!['}'],
        ValueView::Bytes(bytes) => seq!['['] + bytes_text(bytes) + seq![']'],
    }
}

/// Values one after the other, with commas between them.
pub open spec fn values_text(values: Seq<ValueView>) -> Seq<char>
    decreases values,
{
    if values.len() == 0 {
        Seq::empty()
    } else {
        let before = values_text(values.subrange(0, values.len() - 1));
        let separator = if values.len() > 1 { seq![','] } else { Seq::empty() };
        before + separator + value_text(values[values.len() - 1])
    }
}

/// What an attribute says to a reader: its key, then an equals sign and its value where it has one.
pub open spec fn attr_text(attr: KeyValueView) -> Seq<char>
    decreases attr,
{
    match attr.value {
        Some(value) => attr.key + seq!['='] + value_text(value),
        None => attr.key,
    }
}

/// Attributes one after the other, with commas between them.
pub open spec fn attrs_text(attrs: Seq<KeyValueView>) -> Seq<char>
    decreases attrs,
{
    if attrs.len() == 0 {
        Seq::empty()
    } else {
        let before = attrs_text(attrs.subrange(0, attrs.len() - 1));
        let separator = if attrs.len() > 1 { seq![','] } else { Seq::empty() };
        before + separator + attr_text(attrs[attrs.len() - 1])
    }
}

fn push_bytes(out: &mut String, bytes: &Vec<u8>)
    ensures
        final(out)@ == old(out)@ + bytes_text(bytes@),
{
    let ghost before = out@;
    let mut i: usize = 0;
    assert(out@ =~= before + bytes_text(bytes@.take(0)));
    while i < bytes.len()
        invariant
            i <= bytes@.len(),
            out@ == before + bytes_text(bytes@.take(i as int)),
        decreases bytes@.len() - i,
    {
        if i > 0 {
            out.append(", ");
        }
        text::push_decimal(out, bytes[i] as u64);
        assert(bytes@.take(i + 1).drop_last() =~= bytes@.take(i as int));
        assert(out@ =~= before + bytes_text(bytes@.take(i + 1)));
        i = i + 1;
    }
    assert(bytes@.take(i as int) =~= bytes@);
}

/// Appends what a value says to a reader.
pub fn push_value(out: &mut String, value: &Value)
    ensures
        final(out)@ == old(out)@ + value_text(value@),
    decreases value,
{
    match value {
        Value::String(content) => {
            let quoted = text::debug_str(content.as_str());
            out.append(quoted.as_str());
        },
        Value::Bool(value) => {
            if *value {
                out.append("true");
            } else {
                out.append("false");
            }
        },
        Value::Int(value) => text::push_decimal_int(out, *value),
        Value::Double(value) => out.append(value.0.as_text()),
        Value::ArrayAny(values) => {
            proof {
                lemma_array_any_view(*values);
            }
            out.push('[');
            push_values(out, values);
            out.push(']');
            assert(out@ =~= old(out)@ + value_text(value@));
        },
        Value::ArrayKv(attrs) => {
            proof {
                lemma_array_kv_view(*attrs);
            }
            out.push('{');
            push_attrs(out, attrs);
            out.push('}');
            assert(out@ =~= old(out)@ + value_text(value@));
        },
        Value::Bytes(bytes) => {
            out.push('[');
            push_bytes(out, bytes);
            out.push(']');
            assert(out@ =~= old(out)@ + value_text(value@));
        },
    }
}

fn push_values(out: &mut String, values: &Vec<Value>)
    ensures
        final(out)@ == old(out)@ + values_text(values_view(values@)),
    decreases values,
{
    let ghost before = out@;
    let ghost all = values_view(values@);
    let mut i: usize = 0;
    assert(out@ =~= before + values_text(all.take(0)));
    while i < values.len()
        invariant
            i <= values@.len(),
            all == values_view(values@),
            out@ == before + values_text(all.take(i as int)),
        decreases values@.len() - i,
    {
        if i > 0 {
            out.push(',');
        }
        push_value(out, &values[i]);
        let ghost next = all.take(i + 1);
        assert(next.subrange(0, next.len() - 1) =~= all.take(i as int));
        assert(out@ =~= before + values_text(next));
        i = i + 1;
    }
    assert(all.take(i as int) =~= all);
}

/// Appends what an attribute says to a reader.
pub fn push_attr(out: &mut String, attr: &KeyValue)
    ensures
        final(out)@ == old(out)@ + attr_text(attr@),
    decreases attr,
{
    out.append(attr.key.as_str());
    match &attr.value {
        Some(value) => {
            out.push('=');
            push_value(out, value);
            assert(out@ =~= old(out)@ + attr_text(attr@));
        },
        None => {},
    }
}

fn push_attrs(out: &mut String, attrs: &Vec<KeyValue>)
    ensures
        final(out)@ == old(out)@ + attrs_text(attrs_view(attrs@)),
    decreases attrs,
{
    let ghost before = out@;
    let ghost all = attrs_view(attrs@);
    let mut i: usize = 0;
    assert(out@ =~= before + attrs_text(all.take(0)));
    while i < attrs.len()
        invariant
            i <= attrs@.len(),
            all == attrs_view(attrs@),
            out@ == before + attrs_text(all.take(i as int)),
        decreases attrs@.len() - i,
    {
        if i > 0 {
            out.push(',');
        }
        push_attr(out, &attrs[i]);
        let ghost next = all.take(i + 1);
        assert(next.subrange(0, next.len() - 1) =~= all.take(i as int));
        assert(out@ =~= before + attrs_text(next));
        i = i + 1;
    }
    assert(all.take(i as int) =~= all);
}

impl Value {
    /// What the value says to a reader.
    pub fn to_text(&self) -> (r: String)
        ensures
            r@ == value_text(self@),
    {
        let mut out = String::new();
        push_value(&mut out, self);
        assert(out@ =~= value_text(self@));
        out
    }

    /// A second value with the same content.
    pub fn copy(&self) -> (r: Value)
        ensures
            r@ == self@,
        decreases self,
    {
        match self {
            Value::String(content) => Value::String(content.copy()),
            Value::Bool(value) => Value::Bool(*value),
            Value::Int(value) => Value::Int(*value),
            Value::Double(value) => Value::Double(value.copy()),
            Value::ArrayAny(values) => {
                let copied = copy_values(values);
                proof {
                    lemma_array_any_view(*values);
                    lemma_array_any_view(copied);
                }
                Value::ArrayAny(copied)
            },
            Value::ArrayKv(attrs) => {
                let copied = copy_attrs(attrs);
                proof {
                    lemma_array_kv_view(*attrs);
                    lemma_array_kv_view(copied);
                }
                Value::ArrayKv(copied)
            },
            Value::Bytes(bytes) => {
                let copied = bytes.clone();
                assert(copied@ =~= bytes@);
                Value::Bytes(copied)
            },
        }
    }
}

fn copy_values(values: &Vec<Value>) -> (r: Vec<Value>)
    ensures
        values_view(r@) == values_view(values@),
    decreases values,
{
    let mut copied: Vec<Value> = Vec::new();
    let mut i: usize = 0;
    while i < values.len()
        invariant
            i <= values@.len(),
            copied@.len() == i,
            forall|j: int| 0 <= j < i ==> #[trigger] copied@[j]@ == values@[j]@,
        decreases values@.len() - i,
    {
        copied.push(values[i].copy());
        i = i + 1;
    }
    assert(values_view(copied@) =~= values_view(values@));
    copied
}

/// A second list of attributes with the same content.
pub fn copy_attrs(attrs: &Vec<KeyValue>) -> (r: Vec<KeyValue>)
    ensures
        attrs_view(r@) == attrs_view(attrs@),
    decreases attrs,
{
    let mut copied: Vec<KeyValue> = Vec::new();
    let mut i: usize = 0;
    while i < attrs.len()
        invariant
            i <= attrs@.len(),
            copied@.len() == i,
            forall|j: int| 0 <= j < i ==> #[trigger] copied@[j]@ == attrs@[j]@,
        decreases attrs@.len() - i,
    {
        copied.push(attrs[i].copy());
        i = i + 1;
    }
    assert(attrs_view(copied@) =~= attrs_view(attrs@));
    copied
}

impl Clone for Value {
    fn clone(&self) -> (r: Value)
        ensures
            r@ == self@,
    {
        self.copy()
    }
}

impl Clone for KeyValue {
    fn clone(&self) -> (r: KeyValue)
        ensures
            r@ == self@,
    {
        self.copy()
    }
}

impl KeyValue {
    /// An attribute with a value.
    pub fn new<K: Into<Str>, V: Into<Value>>(key: K, value: V) -> (r: KeyValue)
        ensures
            <K as IntoSpec<Str>>::obeys_into_spec() ==> r.key == <K as IntoSpec<Str>>::into_spec(key),
            <V as IntoSpec<Value>>::obeys_into_spec() ==> r.value == Some(
                <V as IntoSpec<Value>>::into_spec(value),
            ),
            r.value is Some,
    {
        KeyValue { key: key.into(), value: Some(value.into()) }
    }

    /// An attribute without a value.
    pub fn no_val<K: Into<Str>>(key: K) -> (r: KeyValue)
        ensures
            <K as IntoSpec<Str>>::obeys_into_spec() ==> r.key == <K as IntoSpec<Str>>::into_spec(key),
            r.value is None,
    {
        KeyValue { key: key.into(), value: None }
    }

    /// What the attribute says to a reader.
    pub fn to_text(&self) -> (r: String)
        ensures
            r@ == attr_text(self@),
    {
        let mut out = String::new();
        push_attr(&mut out, self);
        assert(out@ =~= attr_text(self@));
        out
    }

    /// A second attribute with the same content.
    pub fn copy(&self) -> (r: KeyValue)
        ensures
            r@ == self@,
        decreases self,
    {
        KeyValue {
            key: self.key.copy(),
            value: match &self.value {
                Some(value) => Some(value.copy()),
                None => None,
            },
        }
    }
}

/// Whether values are reported as totals or as changes.
#[derive(Debug, Clone, Copy, PartialEq, Eq, Structural)]
pub enum Temporality {
    Cumulative,
    Delta,
}

/// How values of a mode of observation relate in time: as they are, or since the poll before.
pub open spec fn temporality_of(mode: Mode) -> Temporality {
    if mode is Direct {
        Temporality::Cumulative
    } else {
        Temporality::Delta
    }
}

/// What a metric is called.
#[derive(Debug)]
pub struct NameIdentity {
    pub name: Str,
    pub description: Str,
    pub unit: Str,
}

#[verifier::ext_equal]
pub ghost struct NameIdentityView {
    pub name: Seq<char>,
    pub description: Seq<char>,
    pub unit: Seq<char>,
}

impl View for NameIdentity {
    type V = NameIdentityView;

    open spec fn view(&self) -> NameIdentityView {
        NameIdentityView {
            name: self.name@,
            description: self.description@,
            unit: self.unit@,
        }
    }
}

impl PartialEq for NameIdentity {
    fn eq(&self, other: &NameIdentity) -> (r: bool) {
        self.name == other.name && self.description == other.description && self.unit == other.unit
    }
}

impl vstd::std_specs::cmp::PartialEqSpecImpl for NameIdentity {
    open spec fn obeys_eq_spec() -> bool {
        true
    }

    open spec fn eq_spec(&self, other: &NameIdentity) -> bool {
        self@ == other@
    }
}

impl Eq for NameIdentity {

}

impl Clone for NameIdentity {
    fn clone(&self) -> (r: NameIdentity)
        ensures
            r == *self,
    {
        NameIdentity {
            name: self.name.copy(),
            description: self.description.copy(),
            unit: self.unit.copy(),
        }
    }
}

} // verus!
