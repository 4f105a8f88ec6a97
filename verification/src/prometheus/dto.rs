//! Metric families in the text exposition format.

use crate::atomic::histogram;
use crate::dto::Kind;
use crate::error;
use crate::error::Error;
use crate::model;
use crate::model::{KeyValue, NameIdentity, Value};
use crate::number;
use crate::number::{Number, OrderedNumber, ToNumber};
use crate::order;
use crate::order::Named;
use crate::prometheus;
use crate::prometheus::Error as PrometheusError;
use crate::text;
use std::sync::Arc;
use vstd::prelude::*;
use vstd::string::*;

verus! {

/// A metric family that can be rendered.
#[derive(Debug, Clone, PartialEq)]
pub struct Metric {
    pub id: Arc<NameIdentity>,
    pub kind: Kind,
    pub points: Vec<DataPoint>,
}

/// One sample that can be rendered.
#[derive(Debug, Clone, PartialEq)]
pub struct DataPoint {
    pub attrs: Arc<Vec<KeyValue>>,
    pub value: DataPointValue,
}

/// The value of a sample.
#[derive(Debug, Clone, PartialEq)]
pub enum DataPointValue {
    Number(OrderedNumber),
    Histogram(HistogramValue),
}

/// The value of a histogram sample. `bucket_counts` holds the counts of the single buckets; the
/// cumulative `le` series of the exposition format is computed while rendering.
#[derive(Debug, Clone, PartialEq)]
pub struct HistogramValue {
    pub boundaries: Vec<Number>,
    pub bucket_counts: Vec<u64>,
    pub count: u64,
    pub sum: OrderedNumber,
}

#[verifier::ext_equal]
pub ghost struct MetricView {
    pub id: model::NameIdentityView,
    pub kind: Kind,
    pub points: Seq<DataPointView>,
}

#[verifier::ext_equal]
pub ghost struct DataPointView {
    pub attrs: Seq<model::KeyValueView>,
    pub value: DataPointValueView,
}

pub ghost enum DataPointValueView {
    Number(number::NumberView),
    Histogram(HistogramValueView),
}

#[verifier::ext_equal]
pub ghost struct HistogramValueView {
    pub boundaries: Seq<number::NumberView>,
    pub bucket_counts: Seq<u64>,
    pub count: u64,
    pub sum: number::NumberView,
}

impl View for Metric {
    type V = MetricView;

    open spec fn view(&self) -> MetricView {
        MetricView { id: self.id@, kind: self.kind, points: order::views(self.points@) }
    }
}

impl View for DataPoint {
    type V = DataPointView;

    open spec fn view(&self) -> DataPointView {
        DataPointView { attrs: model::attrs_view(self.attrs@), value: self.value@ }
    }
}

impl View for DataPointValue {
    type V = DataPointValueView;

    open spec fn view(&self) -> DataPointValueView {
        match self {
            DataPointValue::Number(value) => DataPointValueView::Number(value@),
            DataPointValue::Histogram(value) => DataPointValueView::Histogram(value@),
        }
    }
}

impl View for HistogramValue {
    type V = HistogramValueView;

    open spec fn view(&self) -> HistogramValueView {
        HistogramValueView {
            boundaries: order::views(self.boundaries@),
            bucket_counts: self.bucket_counts@,
            count: self.count,
            sum: self.sum@,
        }
    }
}

pub open spec fn is_digit(c: char) -> bool {
    '0' <= c && c <= '9'
}

pub open spec fn is_letter(c: char) -> bool {
    ('a' <= c && c <= 'z') || ('A' <= c && c <= 'Z')
}

/// The characters of metric names.
pub open spec fn in_metric_alphabet(c: char) -> bool {
    is_digit(c) || is_letter(c) || c == '_' || c == ':'
}

/// The characters of label names.
pub open spec fn in_label_alphabet(c: char) -> bool {
    is_digit(c) || is_letter(c) || c == '_'
}

/// An underscore where the name begins with a digit.
pub open spec fn digit_guard(name: Seq<char>) -> Seq<char> {
    if name.len() > 0 && is_digit(name[0]) {
        seq!['_']
    } else {
        Seq::empty()
    }
}

/// A metric name in the alphabet of metric names: other characters become underscores, and a
/// leading digit gets one in front.
pub open spec fn metric_name(name: Seq<char>) -> Seq<char> {
    digit_guard(name) + name.map_values(|c: char| if in_metric_alphabet(c) { c } else { '_' })
}

/// A name in the alphabet of label names: other characters become underscores, and a leading digit
/// gets one in front.
pub open spec fn plain_label_name(name: Seq<char>) -> Seq<char> {
    digit_guard(name) + name.map_values(|c: char| if in_label_alphabet(c) { c } else { '_' })
}

/// A label name in the alphabet of label names, outside the reserved names that begin with two
/// underscores.
pub open spec fn label_name(name: Seq<char>) -> Seq<char> {
    let plain = plain_label_name(name);
    if plain.len() >= 2 && plain[0] == '_' && plain[1] == '_' {
        "label"@ + plain
    } else {
        plain
    }
}

/// Sanitized metric names keep to their alphabet and do not begin with a digit, and a name that is
/// not empty stays so.
pub proof fn metric_names_are_valid(name: Seq<char>)
    ensures
        forall|i: int| 0 <= i < metric_name(name).len() ==> in_metric_alphabet(#[trigger] metric_name(name)[i]),
        metric_name(name).len() > 0 ==> !is_digit(metric_name(name)[0]),
        metric_name(name).len() == 0 <==> name.len() == 0,
{
}

/// Sanitized label names keep to their alphabet, do not begin with a digit or with the reserved two
/// underscores, and a name that is not empty stays so.
pub proof fn label_names_are_valid(name: Seq<char>)
    ensures
        forall|i: int| 0 <= i < label_name(name).len() ==> in_label_alphabet(#[trigger] label_name(name)[i]),
        label_name(name).len() > 0 ==> !is_digit(label_name(name)[0]),
        !(label_name(name).len() >= 2 && label_name(name)[0] == '_' && label_name(name)[1] == '_'),
        label_name(name).len() == 0 <==> name.len() == 0,
{
    reveal_strlit("label");
}

/// Sanitizing a sanitized name changes nothing.
pub proof fn sanitizing_is_idempotent(name: Seq<char>)
    ensures
        metric_name(metric_name(name)) == metric_name(name),
        label_name(label_name(name)) == label_name(name),
{
    metric_names_are_valid(name);
    label_names_are_valid(name);
    assert(metric_name(metric_name(name)) =~= metric_name(name));
    assert(plain_label_name(label_name(name)) =~= label_name(name));
}

fn is_digit_char(c: char) -> (r: bool)
    ensures
        r == is_digit(c),
{
    '0' <= c && c <= '9'
}

fn is_label_char(c: char) -> (r: bool)
    ensures
        r == in_label_alphabet(c),
{
    is_digit_char(c) || ('a' <= c && c <= 'z') || ('A' <= c && c <= 'Z') || c == '_'
}

/// Maps a metric name onto the alphabet of metric names.
///
/// Characters outside `[a-zA-Z0-9_:]` become `_`, and a leading digit is prefixed with `_`.
pub fn sanitize_metric_name(name: &str) -> (r: String)
    ensures
        r@ == metric_name(name@),
{
    let chars = text::chars_of(name);
    let mut out = String::new();
    if chars.len() > 0 && is_digit_char(chars[0]) {
        out.push('_');
    }
    let mut i: usize = 0;
    assert(out@ =~= digit_guard(name@) + metric_name(name@).skip(digit_guard(name@).len() as int).take(0));
    while i < chars.len()
        invariant
            i <= chars@.len(),
            chars@ == name@,
            out@ == digit_guard(name@) + metric_name(name@).skip(digit_guard(name@).len() as int).take(i as int),
        decreases chars@.len() - i,
    {
        let ghost mapped = metric_name(name@).skip(digit_guard(name@).len() as int);
        let c = chars[i];
        assert(mapped[i as int] == if in_metric_alphabet(c) { c } else { '_' });
        if is_label_char(c) || c == ':' {
            out.push(c);
        } else {
            out.push('_');
        }
        assert(mapped.take(i + 1) =~= mapped.take(i as int).push(mapped[i as int]));
        i = i + 1;
        assert(out@ =~= digit_guard(name@) + mapped.take(i as int));
    }
    assert(out@ =~= metric_name(name@));
    out
}

/// Like [`sanitize_metric_name`], but `:` is reserved and rewritten too.
///
/// Label names only allow `[a-zA-Z0-9_]`. Names that begin with the reserved `__` prefix receive a
/// `label` prefix.
pub fn sanitize_label_name(name: &str) -> (r: String)
    ensures
        r@ == label_name(name@),
{
    let chars = text::chars_of(name);
    let mut out = String::new();
    if chars.len() > 0 && is_digit_char(chars[0]) {
        out.push('_');
    }
    let mut i: usize = 0;
    assert(out@ =~= digit_guard(name@) + plain_label_name(name@).skip(digit_guard(name@).len() as int).take(0));
    while i < chars.len()
        invariant
            i <= chars@.len(),
            chars@ == name@,
            out@ == digit_guard(name@) + plain_label_name(name@).skip(digit_guard(name@).len() as int).take(
                i as int,
            ),
        decreases chars@.len() - i,
    {
        let ghost mapped = plain_label_name(name@).skip(digit_guard(name@).len() as int);
        let c = chars[i];
        assert(mapped[i as int] == if in_label_alphabet(c) { c } else { '_' });
        if is_label_char(c) {
            out.push(c);
        } else {
            out.push('_');
        }
        assert(mapped.take(i + 1) =~= mapped.take(i as int).push(mapped[i as int]));
        i = i + 1;
        assert(out@ =~= digit_guard(name@) + mapped.take(i as int));
    }
    assert(out@ =~= plain_label_name(name@));
    if text::has_prefix(out.as_str(), "__") {
        let mut prefixed = "label".to_owned();
        prefixed.append(out.as_str());
        proof {
            reveal_strlit("__");
            assert(out@.take(2)[0] == '_' && out@.take(2)[1] == '_');
        }
        return prefixed;
    }
    proof {
        reveal_strlit("__");
        if out@.len() >= 2 && out@[0] == '_' && out@[1] == '_' {
            assert(out@.take(2) =~= "__"@);
        }
    }
    out
}

/// One character in escaped text: backslashes and line feeds are escaped, and double quotes where
/// the text stands between such quotes.
pub open spec fn escaped_char(c: char, quoted: bool) -> Seq<char> {
    if c == '\\' {
        seq!['\\', '\\']
    } else if c == '\n' {
        seq!['\\', 'n']
    } else if quoted && c == '"' {
        seq!['\\', '"']
    } else {
        seq![c]
    }
}

/// A text with its special characters escaped.
pub open spec fn escaped(text: Seq<char>, quoted: bool) -> Seq<char>
    decreases text.len(),
{
    if text.len() == 0 {
        Seq::empty()
    } else {
        escaped(text.drop_last(), quoted) + escaped_char(text.last(), quoted)
    }
}

/// The text that an escaped text stands for.
pub open spec fn unescaped(text: Seq<char>) -> Seq<char>
    decreases text.len(),
{
    if text.len() == 0 {
        Seq::empty()
    } else if text[0] == '\\' && text.len() >= 2 {
        seq![if text[1] == 'n' { '\n' } else { text[1] }] + unescaped(text.skip(2))
    } else {
        seq![text[0]] + unescaped(text.skip(1))
    }
}

proof fn lemma_escaped_front(text: Seq<char>, quoted: bool)
    requires
        text.len() > 0,
    ensures
        escaped(text, quoted) == escaped_char(text[0], quoted) + escaped(text.skip(1), quoted),
    decreases text.len(),
{
    if text.len() == 1 {
        assert(text.drop_last() =~= Seq::empty());
        assert(text.skip(1) =~= Seq::empty());
        assert(escaped(text.drop_last(), quoted) =~= Seq::empty());
    } else {
        lemma_escaped_front(text.drop_last(), quoted);
        assert(text.drop_last().skip(1) =~= text.skip(1).drop_last());
    }
    assert(escaped(text, quoted) =~= escaped_char(text[0], quoted) + escaped(text.skip(1), quoted));
}

/// Escaping loses nothing: the original text can be read back. An escaped text has no line feed, so
/// it cannot end its line.
pub proof fn escaping_is_reversible(text: Seq<char>, quoted: bool)
    ensures
        unescaped(escaped(text, quoted)) == text,
        !escaped(text, quoted).contains('\n'),
    decreases text.len(),
{
    if text.len() > 0 {
        lemma_escaped_front(text, quoted);
        escaping_is_reversible(text.skip(1), quoted);
        let head = escaped_char(text[0], quoted);
        let tail = escaped(text.skip(1), quoted);
        assert((head + tail).skip(head.len() as int) =~= tail);
        assert(seq![text[0]] + text.skip(1) =~= text);
        assert forall|i: int| 0 <= i < (head + tail).len() implies #[trigger] (head + tail)[i] != '\n' by {
            if i >= head.len() {
                assert(tail.contains(tail[i - head.len()]));
            }
        }
    }
}

/// Whether a double quote in `text` ends a quoted value there: it does unless a backslash escapes it.
pub open spec fn has_bare_quote(text: Seq<char>) -> bool
    decreases text.len(),
{
    if text.len() == 0 {
        false
    } else if text[0] == '\\' && text.len() >= 2 {
        has_bare_quote(text.skip(2))
    } else {
        text[0] == '"' || has_bare_quote(text.skip(1))
    }
}

/// An escaped label value does not end the quotes that it stands in.
pub proof fn escaped_values_stay_quoted(text: Seq<char>)
    ensures
        !has_bare_quote(escaped(text, true)),
    decreases text.len(),
{
    if text.len() > 0 {
        lemma_escaped_front(text, true);
        escaped_values_stay_quoted(text.skip(1));
        let head = escaped_char(text[0], true);
        let tail = escaped(text.skip(1), true);
        assert((head + tail).skip(head.len() as int) =~= tail);
    }
}

fn escape_into(text: &str, quoted: bool, out: &mut String)
    ensures
        final(out)@ == old(out)@ + escaped(text@, quoted),
{
    let chars = text::chars_of(text);
    let mut i: usize = 0;
    assert(out@ =~= old(out)@ + escaped(chars@.take(0), quoted));
    while i < chars.len()
        invariant
            i <= chars@.len(),
            chars@ == text@,
            out@ == old(out)@ + escaped(chars@.take(i as int), quoted),
        decreases chars@.len() - i,
    {
        let c = chars[i];
        let ghost before = out@;
        if c == '\\' {
            out.push('\\');
            out.push('\\');
        } else if c == '\n' {
            out.push('\\');
            out.push('n');
        } else if quoted && c == '"' {
            out.push('\\');
            out.push('"');
        } else {
            out.push(c);
        }
        assert(chars@.take(i + 1).drop_last() =~= chars@.take(i as int));
        assert(out@ =~= before + escaped_char(c, quoted));
        i = i + 1;
        assert(out@ =~= old(out)@ + escaped(chars@.take(i as int), quoted));
    }
    assert(chars@.take(i as int) =~= text@);
}

/// Appends a help text with backslashes and line feeds escaped.
pub fn escape_help_into(text: &str, out: &mut String)
    ensures
        final(out)@ == old(out)@ + escaped(text@, false),
{
    escape_into(text, false, out)
}

/// Appends a label value with backslashes, double quotes and line feeds escaped.
pub fn escape_label_value_into(text: &str, out: &mut String)
    ensures
        final(out)@ == old(out)@ + escaped(text@, true),
{
    escape_into(text, true, out)
}

/// A label of a sample: its name, and the attribute value behind it.
pub type LabelView = (Seq<char>, model::ValueView);

/// The label that an attribute gives: none where it has no value. An empty key, and a label name that
/// is reserved, is an error.
pub open spec fn label_of(metric: Seq<char>, attr: model::KeyValueView, reserved: Seq<Seq<char>>) -> Result<
    Option<LabelView>,
    prometheus::ErrorView,
> {
    match attr.value {
        None => Ok(None),
        Some(value) => {
            let name = label_name(attr.key);
            if attr.key.len() == 0 {
                Err(prometheus::ErrorView::EmptyLabelName(metric))
            } else if reserved.contains(name) {
                Err(prometheus::ErrorView::LabelCollision(name, metric))
            } else {
                Ok(Some((name, value)))
            }
        },
    }
}

/// The labels that attributes give, in the order of the attributes.
pub open spec fn named_labels(
    metric: Seq<char>,
    attrs: Seq<model::KeyValueView>,
    reserved: Seq<Seq<char>>,
) -> Result<Seq<LabelView>, prometheus::ErrorView> {
    order::gathered(attrs, |attr: model::KeyValueView| label_of(metric, attr, reserved))
}

/// What a label says of an attribute value: a text as it is, anything else as it is written.
pub open spec fn label_value(value: model::ValueView) -> Seq<char> {
    match value {
        model::ValueView::String(text) => text,
        other => model::value_text(other),
    }
}

/// Labels as a comma-separated list of `name="value"`.
pub open spec fn labels_text(labels: Seq<LabelView>) -> Seq<char>
    decreases labels.len(),
{
    if labels.len() == 0 {
        Seq::empty()
    } else {
        let before = labels.drop_last();
        let label = labels.last();
        labels_text(before) + (if before.len() > 0 {
            seq![',']
        } else {
            Seq::empty()
        }) + label.0 + "=\""@ + escaped(label_value(label.1), true) + seq!['"']
    }
}

/// The labels of a sample in the order of their names. Two labels of one name are an error.
pub open spec fn rendered_labels(
    metric: Seq<char>,
    attrs: Seq<model::KeyValueView>,
    reserved: Seq<Seq<char>>,
) -> Result<Seq<char>, prometheus::ErrorView> {
    match named_labels(metric, attrs, reserved) {
        Err(error) => Err(error),
        Ok(labels) => {
            let sorted = order::sorted(labels);
            match order::first_repeated(sorted) {
                Some(name) => Err(prometheus::ErrorView::LabelCollision(name, metric)),
                None => Ok(labels_text(sorted)),
            }
        },
    }
}

/// Rendered labels stand in the order of their names; no name occurs twice and none is reserved.
pub proof fn rendered_label_names_are_distinct(
    metric: Seq<char>,
    attrs: Seq<model::KeyValueView>,
    reserved: Seq<Seq<char>>,
)
    requires
        rendered_labels(metric, attrs, reserved) is Ok,
    ensures
        named_labels(metric, attrs, reserved) is Ok,
        ({
            let sorted = order::sorted(named_labels(metric, attrs, reserved)->Ok_0);
            &&& order::in_order(sorted)
            &&& forall|i: int, j: int|
                0 <= i < j < sorted.len() ==> #[trigger] sorted[i].0 != #[trigger] sorted[j].0
            &&& forall|i: int| 0 <= i < sorted.len() ==> !reserved.contains(#[trigger] sorted[i].0)
        }),
{
    broadcast use vstd::seq_lib::group_to_multiset_ensures;

    let named = named_labels(metric, attrs, reserved)->Ok_0;
    let sorted = order::sorted(named);
    order::sorted_is_an_ordered_permutation(named);
    order::repeated_names_are_neighbours(sorted);
    lemma_named_labels_avoid_reserved(metric, attrs, reserved);
    assert forall|i: int| 0 <= i < sorted.len() implies !reserved.contains(#[trigger] sorted[i].0) by {
        assert(sorted.to_multiset().count(sorted[i]) > 0);
        assert(named.contains(sorted[i]));
    }
}

proof fn lemma_named_labels_avoid_reserved(
    metric: Seq<char>,
    attrs: Seq<model::KeyValueView>,
    reserved: Seq<Seq<char>>,
)
    requires
        named_labels(metric, attrs, reserved) is Ok,
    ensures
        forall|i: int|
            0 <= i < named_labels(metric, attrs, reserved)->Ok_0.len() ==> !reserved.contains(
                #[trigger] named_labels(metric, attrs, reserved)->Ok_0[i].0,
            ),
    decreases attrs.len(),
{
    if attrs.len() > 0 {
        lemma_named_labels_avoid_reserved(metric, attrs.drop_last(), reserved);
    }
}

/// The rendered labels do not depend on the order of the attributes.
pub proof fn attribute_order_is_irrelevant(
    metric: Seq<char>,
    a: Seq<model::KeyValueView>,
    b: Seq<model::KeyValueView>,
    reserved: Seq<Seq<char>>,
)
    requires
        a.to_multiset() =~= b.to_multiset(),
        rendered_labels(metric, a, reserved) is Ok,
    ensures
        rendered_labels(metric, b, reserved) == rendered_labels(metric, a, reserved),
{
    order::gathered_permutes(a, b, |attr: model::KeyValueView| label_of(metric, attr, reserved));
    order::distinct_names_sort_alike(
        named_labels(metric, a, reserved)->Ok_0,
        named_labels(metric, b, reserved)->Ok_0,
    );
}

/// Whether a name is among the reserved ones.
fn is_reserved(name: &str, reserved: &[&str]) -> (r: bool)
    ensures
        r == order::views(reserved@).contains(name@),
{
    let mut i: usize = 0;
    while i < reserved.len()
        invariant
            i <= reserved@.len(),
            forall|j: int| 0 <= j < i ==> (#[trigger] reserved@[j])@ != name@,
        decreases reserved@.len() - i,
    {
        if text::same_text(reserved[i], name) {
            assert(order::views(reserved@)[i as int] == name@);
            return true;
        }
        i = i + 1;
    }
    assert forall|j: int| 0 <= j < reserved@.len() implies #[trigger] order::views(reserved@)[j]
        != name@ by {
        assert(reserved@[j]@ != name@);
    }
    false
}

/// The labels that attributes give.
fn name_labels<'a>(metric: &str, attrs: &'a [KeyValue], reserved: &[&str]) -> (r: Result<
    Vec<Named<&'a Value>>,
    PrometheusError,
>)
    ensures
        match r {
            Ok(labels) => named_labels(metric@, model::attrs_view(attrs@), order::views(reserved@)) == Ok::<
                Seq<LabelView>,
                prometheus::ErrorView,
            >(order::views(labels@)),
            Err(error) => named_labels(metric@, model::attrs_view(attrs@), order::views(reserved@))
                == Err::<Seq<LabelView>, prometheus::ErrorView>(error@),
        },
{
    let ghost all = model::attrs_view(attrs@);
    let ghost names = order::views(reserved@);
    let mut labels: Vec<Named<&'a Value>> = Vec::new();
    let mut i: usize = 0;
    assert(order::views(labels@) =~= Seq::<LabelView>::empty());
    while i < attrs.len()
        invariant
            i <= attrs@.len(),
            all == model::attrs_view(attrs@),
            names == order::views(reserved@),
            named_labels(metric@, all.take(i as int), names) == Ok::<Seq<LabelView>, prometheus::ErrorView>(
                order::views(labels@),
            ),
        decreases attrs@.len() - i,
    {
        let attr = &attrs[i];
        assert(all.take(i + 1).drop_last() =~= all.take(i as int));
        assert(all.take(i + 1).last() == attr@);
        if let Some(value) = &attr.value {
            if attr.key.as_str().is_empty() {
                proof {
                    order::lemma_gathered_error(all, |attr: model::KeyValueView| label_of(metric@, attr, names), i + 1);
                }
                return Err(PrometheusError::EmptyLabelName(metric.to_owned()));
            }
            let name = sanitize_label_name(attr.key.as_str());
            if is_reserved(name.as_str(), reserved) {
                proof {
                    order::lemma_gathered_error(all, |attr: model::KeyValueView| label_of(metric@, attr, names), i + 1);
                }
                return Err(PrometheusError::LabelCollision(name, metric.to_owned()));
            }
            let ghost before = order::views(labels@);
            labels.push(Named { name, item: value });
            assert(order::views(labels@) =~= before.push((name@, value@)));
        }
        i = i + 1;
    }
    assert(all.take(i as int) =~= all);
    Ok(labels)
}

/// Renders `attrs` as a comma-separated `name="value"` list without the surrounding braces.
///
/// Attributes without a value are skipped; values that are not text are written as they print.
///
/// An attribute with a value and an empty key is an error.
///
/// Two attribute keys (distinct or repeated) that sanitize to the same label name, or to a name
/// listed in `reserved` (labels that the caller generates itself, such as `le` for histogram bucket
/// lines), would duplicate a label within one sample: that is an error too. `metric` is the metric
/// name for the error.
pub fn render_labels(metric: &str, attrs: &[KeyValue], reserved: &[&str]) -> (r: Result<
    String,
    PrometheusError,
>)
    ensures
        match r {
            Ok(labels) => rendered_labels(metric@, model::attrs_view(attrs@), order::views(reserved@))
                == Ok::<Seq<char>, prometheus::ErrorView>(labels@),
            Err(error) => rendered_labels(metric@, model::attrs_view(attrs@), order::views(reserved@))
                == Err::<Seq<char>, prometheus::ErrorView>(error@),
        },
{
    let named = match name_labels(metric, attrs, reserved) {
        Ok(named) => named,
        Err(error) => {
            return Err(error);
        },
    };
    let sorted = order::sort(named);
    if let Some(at) = order::find_repeated(&sorted) {
        return Err(PrometheusError::LabelCollision(sorted[at].name.clone(), metric.to_owned()));
    }
    let ghost all = order::views(sorted@);
    let mut labels = String::new();
    let mut i: usize = 0;
    assert(labels@ =~= labels_text(all.take(0)));
    while i < sorted.len()
        invariant
            i <= sorted@.len(),
            all == order::views(sorted@),
            labels@ == labels_text(all.take(i as int)),
        decreases sorted@.len() - i,
    {
        let label = &sorted[i];
        let ghost before = labels@;
        if i > 0 {
            labels.push(',');
        }
        labels.append(label.name.as_str());
        labels.append("=\"");
        match label.item {
            Value::String(value) => escape_label_value_into(value.as_str(), &mut labels),
            value => escape_label_value_into(value.to_text().as_str(), &mut labels),
        }
        labels.push('"');
        proof {
            let taken = all.take(i + 1);
            assert(taken.drop_last() =~= all.take(i as int));
            assert(taken.last() == label@);
            assert(labels@ =~= labels_text(taken));
        }
        i = i + 1;
    }
    assert(all.take(i as int) =~= all);
    Ok(labels)
}

/// What the exposition format calls a kind.
pub open spec fn kind_text(kind: Kind) -> Seq<char> {
    match kind {
        Kind::Counter => "counter"@,
        Kind::Gauge => "gauge"@,
        Kind::Histogram => "histogram"@,
    }
}

/// What the exposition format calls a kind.
pub fn kind_str(kind: Kind) -> (r: &'static str)
    ensures
        r@ == kind_text(kind),
{
    match kind {
        Kind::Counter => "counter",
        Kind::Gauge => "gauge",
        Kind::Histogram => "histogram",
    }
}

/// How the exposition format writes a double.
pub open spec fn sample_text(value: number::NumberView) -> Seq<char> {
    if number::is_nan_bits(value.bits) {
        "NaN"@
    } else if number::magnitude(value.bits) == number::INFINITY_BITS {
        if value.bits < number::SIGN_BIT {
            "+Inf"@
        } else {
            "-Inf"@
        }
    } else {
        number::double_text(value.bits)
    }
}

/// Writes a sample or `le` value; infinities and what is not a number use the spellings `+Inf`,
/// `-Inf` and `NaN` of the exposition format.
pub fn write_f64(out: &mut String, value: &Number)
    ensures
        final(out)@ == old(out)@ + sample_text(value@),
{
    if value.is_nan() {
        out.append("NaN");
    } else if value.is_infinite() {
        out.append(if value.is_sign_positive() {
            "+Inf"
        } else {
            "-Inf"
        });
    } else {
        out.append(value.as_text());
    }
}

/// The sum of the first `n` counts; a count that is missing is none.
pub open spec fn sum_of_counts(counts: Seq<u64>, n: nat) -> nat
    decreases n,
{
    if n == 0 {
        0
    } else {
        let last = (n - 1) as nat;
        sum_of_counts(counts, last) + (if last < counts.len() {
            counts[last as int] as nat
        } else {
            0
        })
    }
}

/// How many values the first `n` buckets hold, as far as 64 bits can say.
pub open spec fn cumulative(counts: Seq<u64>, n: nat) -> nat {
    if sum_of_counts(counts, n) > u64::MAX {
        u64::MAX as nat
    } else {
        sum_of_counts(counts, n)
    }
}

/// The counts of the `le` series do not fall from one bucket to a later one.
pub proof fn cumulative_counts_do_not_fall(counts: Seq<u64>, m: nat, n: nat)
    requires
        m <= n,
    ensures
        cumulative(counts, m) <= cumulative(counts, n),
    decreases n,
{
    if m < n {
        cumulative_counts_do_not_fall(counts, m, (n - 1) as nat);
    }
}

proof fn lemma_sum_of_counts_grows(counts: Seq<u64>, m: nat, n: nat)
    requires
        m <= n || m > counts.len() && n == counts.len(),
    ensures
        sum_of_counts(counts, m) <= sum_of_counts(counts, n),
    decreases n, m,
{
    if m < n {
        lemma_sum_of_counts_grows(counts, m, (n - 1) as nat);
    } else if m > n {
        if m - 1 > n {
            lemma_sum_of_counts_grows(counts, (m - 1) as nat, n);
        }
    }
}

/// No bucket of the `le` series exceeds the `+Inf` bucket, where the count is that of all buckets.
pub proof fn buckets_stay_within_the_count(counts: Seq<u64>, count: u64, n: nat)
    requires
        sum_of_counts(counts, counts.len()) == count,
    ensures
        cumulative(counts, n) <= count,
{
    lemma_sum_of_counts_grows(counts, n, counts.len());
}

/// Labels in braces, or nothing where there are none.
pub open spec fn in_braces(labels: Seq<char>) -> Seq<char> {
    if labels.len() == 0 {
        Seq::empty()
    } else {
        seq!['{'] + labels + seq!['}']
    }
}

/// One line of the `le` series.
pub open spec fn bucket_line(name: Seq<char>, labels: Seq<char>, le: Seq<char>, count: nat) -> Seq<char> {
    name + "_bucket{"@ + (if labels.len() == 0 {
        Seq::empty()
    } else {
        labels + seq![',']
    }) + "le=\""@ + le + "\"} "@ + text::decimal(count) + seq!['\n']
}

/// The lines of the `le` series for the first `n` boundaries.
pub open spec fn bucket_lines(
    value: HistogramValueView,
    name: Seq<char>,
    labels: Seq<char>,
    n: nat,
) -> Seq<char>
    decreases n,
{
    if n == 0 {
        Seq::empty()
    } else {
        bucket_lines(value, name, labels, (n - 1) as nat) + bucket_line(
            name,
            labels,
            sample_text(value.boundaries[n - 1]),
            cumulative(value.bucket_counts, n),
        )
    }
}

/// The lines of a histogram sample: the `le` series, its `+Inf` line with the total count, the sum,
/// and the count.
pub open spec fn histogram_text(value: HistogramValueView, name: Seq<char>, labels: Seq<char>) -> Seq<
    char,
> {
    bucket_lines(value, name, labels, value.boundaries.len()) + bucket_line(
        name,
        labels,
        "+Inf"@,
        value.count as nat,
    ) + (name + "_sum"@ + in_braces(labels) + seq![' '] + sample_text(value.sum) + seq!['\n']) + (name
        + "_count"@ + in_braces(labels) + seq![' '] + text::decimal(value.count as nat) + seq!['\n'])
}

fn push_in_braces(labels: &str, out: &mut String)
    ensures
        final(out)@ == old(out)@ + in_braces(labels@),
{
    if !labels.is_empty() {
        out.push('{');
        out.append(labels);
        out.push('}');
    }
    assert(out@ =~= old(out)@ + in_braces(labels@));
}

fn push_bucket_start(name: &str, labels: &str, out: &mut String)
    ensures
        final(out)@ == old(out)@ + name@ + "_bucket{"@ + (if labels@.len() == 0 {
            Seq::empty()
        } else {
            labels@ + seq![',']
        }) + "le=\""@,
{
    out.append(name);
    out.append("_bucket{");
    if !labels.is_empty() {
        out.append(labels);
        out.push(',');
    }
    out.append("le=\"");
    assert(final(out)@ =~= old(out)@ + name@ + "_bucket{"@ + (if labels@.len() == 0 {
        Seq::empty()
    } else {
        labels@ + seq![',']
    }) + "le=\""@);
}

/// What ends a line of the `le` series, and a line of a count.
fn push_count_end(count: u64, out: &mut String)
    ensures
        final(out)@ == old(out)@ + text::decimal(count as nat) + seq!['\n'],
{
    text::push_decimal(out, count);
    out.push('\n');
    assert(final(out)@ =~= old(out)@ + text::decimal(count as nat) + seq!['\n']);
}

fn push_bucket_line(name: &str, labels: &str, le: &Number, count: u64, out: &mut String)
    ensures
        final(out)@ == old(out)@ + bucket_line(name@, labels@, sample_text(le@), count as nat),
{
    push_bucket_start(name, labels, out);
    write_f64(out, le);
    out.append("\"} ");
    push_count_end(count, out);
    assert(final(out)@ =~= old(out)@ + bucket_line(name@, labels@, sample_text(le@), count as nat));
}

fn push_last_bucket_line(name: &str, labels: &str, count: u64, out: &mut String)
    ensures
        final(out)@ == old(out)@ + bucket_line(name@, labels@, "+Inf"@, count as nat),
{
    push_bucket_start(name, labels, out);
    out.append("+Inf");
    out.append("\"} ");
    push_count_end(count, out);
    assert(final(out)@ =~= old(out)@ + bucket_line(name@, labels@, "+Inf"@, count as nat));
}

fn push_sum_line(name: &str, labels: &str, sum: &Number, out: &mut String)
    ensures
        final(out)@ == old(out)@ + (name@ + "_sum"@ + in_braces(labels@) + seq![' '] + sample_text(sum@) + seq![
            '\n',
        ]),
{
    out.append(name);
    out.append("_sum");
    push_in_braces(labels, out);
    out.push(' ');
    write_f64(out, sum);
    out.push('\n');
    assert(final(out)@ =~= old(out)@ + (name@ + "_sum"@ + in_braces(labels@) + seq![' '] + sample_text(sum@)
        + seq!['\n']));
}

fn push_count_line(name: &str, labels: &str, count: u64, out: &mut String)
    ensures
        final(out)@ == old(out)@ + (name@ + "_count"@ + in_braces(labels@) + seq![' '] + text::decimal(
            count as nat,
        ) + seq!['\n']),
{
    out.append(name);
    out.append("_count");
    push_in_braces(labels, out);
    out.push(' ');
    push_count_end(count, out);
    assert(final(out)@ =~= old(out)@ + (name@ + "_count"@ + in_braces(labels@) + seq![' '] + text::decimal(
        count as nat,
    ) + seq!['\n']));
}

impl HistogramValue {
    /// Emits the cumulative `<name>_bucket{le="..."}` series, the `le="+Inf"` bucket with the total
    /// count, and the `<name>_sum` and `<name>_count` samples.
    pub fn render_into(&self, name: &str, labels: &str, out: &mut String)
        ensures
            final(out)@ == old(out)@ + histogram_text(self@, name@, labels@),
    {
        self.render_buckets(name, labels, out);
        push_last_bucket_line(name, labels, self.count, out);
        push_sum_line(name, labels, &self.sum.0, out);
        push_count_line(name, labels, self.count, out);
        assert(final(out)@ =~= old(out)@ + histogram_text(self@, name@, labels@));
    }

    fn render_buckets(&self, name: &str, labels: &str, out: &mut String)
        ensures
            final(out)@ == old(out)@ + bucket_lines(self@, name@, labels@, self@.boundaries.len()),
    {
        let mut cumulative: u64 = 0;
        let mut idx: usize = 0;
        assert(out@ =~= old(out)@ + bucket_lines(self@, name@, labels@, 0));
        while idx < self.boundaries.len()
            invariant
                idx <= self.boundaries@.len(),
                cumulative == self::cumulative(self.bucket_counts@, idx as nat),
                out@ == old(out)@ + bucket_lines(self@, name@, labels@, idx as nat),
            decreases self.boundaries@.len() - idx,
        {
            let count: u64 = if idx < self.bucket_counts.len() {
                self.bucket_counts[idx]
            } else {
                0
            };
            cumulative = cumulative.saturating_add(count);
            assert(self@.boundaries[idx as int] == self.boundaries@[idx as int]@);
            push_bucket_line(name, labels, &self.boundaries[idx], cumulative, out);
            idx = idx + 1;
            assert(out@ =~= old(out)@ + bucket_lines(self@, name@, labels@, idx as nat));
        }
    }
}

/// The name of the samples of a metric: its sanitized name, with `_total` behind it for a counter
/// that does not carry that suffix already.
pub open spec fn family_name(metric: MetricView) -> Result<Seq<char>, prometheus::ErrorView> {
    let name = metric_name(metric.id.name);
    if metric.id.name.len() == 0 {
        Err(prometheus::ErrorView::EmptyMetricName)
    } else if metric.kind is Counter && !text::finishes_with(name, "_total"@) {
        Ok(name + "_total"@)
    } else {
        Ok(name)
    }
}

/// The label names that a sample generates itself.
pub open spec fn generated_labels(value: DataPointValueView) -> Seq<Seq<char>> {
    match value {
        DataPointValueView::Number(_) => Seq::empty(),
        DataPointValueView::Histogram(_) => seq!["le"@],
    }
}

/// A sample under its labels.
pub open spec fn labelled_point(metric: Seq<char>, point: DataPointView) -> Result<
    Option<(Seq<char>, DataPointView)>,
    prometheus::ErrorView,
> {
    match rendered_labels(metric, point.attrs, generated_labels(point.value)) {
        Err(error) => Err(error),
        Ok(labels) => Ok(Some((labels, point))),
    }
}

/// The samples of a metric under their labels, in the order of the samples.
pub open spec fn labelled_points(metric: Seq<char>, points: Seq<DataPointView>) -> Result<
    Seq<(Seq<char>, DataPointView)>,
    prometheus::ErrorView,
> {
    order::gathered(points, |point: DataPointView| labelled_point(metric, point))
}

/// The lines of one sample.
pub open spec fn point_text(name: Seq<char>, labels: Seq<char>, value: DataPointValueView) -> Seq<char> {
    match value {
        DataPointValueView::Number(value) => name + in_braces(labels) + seq![' '] + sample_text(value)
            + seq!['\n'],
        DataPointValueView::Histogram(value) => histogram_text(value, name, labels),
    }
}

/// The lines of labelled samples.
pub open spec fn points_text(name: Seq<char>, points: Seq<(Seq<char>, DataPointView)>) -> Seq<char>
    decreases points.len(),
{
    if points.len() == 0 {
        Seq::empty()
    } else {
        points_text(name, points.drop_last()) + point_text(name, points.last().0, points.last().1.value)
    }
}

/// The help line of a family, where it has a description.
pub open spec fn help_text(name: Seq<char>, description: Seq<char>) -> Seq<char> {
    if description.len() == 0 {
        Seq::empty()
    } else {
        "# HELP "@ + name + seq![' '] + escaped(description, false) + seq!['\n']
    }
}

/// The lines before the samples of a family.
pub open spec fn header_text(name: Seq<char>, description: Seq<char>, kind: Kind) -> Seq<char> {
    help_text(name, description) + ("# TYPE "@ + name + seq![' '] + kind_text(kind) + seq!['\n'])
}

/// The lines of a family: help, type, and the samples in the order of their labels. Two samples with
/// the same labels are an error.
pub open spec fn metric_text(metric: MetricView) -> Result<Seq<char>, prometheus::ErrorView> {
    match family_name(metric) {
        Err(error) => Err(error),
        Ok(name) => match labelled_points(metric.id.name, metric.points) {
            Err(error) => Err(error),
            Ok(labelled) => {
                let sorted = order::sorted(labelled);
                match order::first_repeated(sorted) {
                    Some(labels) => Err(prometheus::ErrorView::DuplicateSeries(labels, metric.id.name)),
                    None => Ok(
                        header_text(name, metric.id.description, metric.kind) + points_text(name, sorted),
                    ),
                }
            },
        },
    }
}

/// The text of a family does not depend on the order of its samples.
pub proof fn sample_order_is_irrelevant(metric: MetricView, points: Seq<DataPointView>)
    requires
        metric.points.to_multiset() =~= points.to_multiset(),
        metric_text(metric) is Ok,
    ensures
        metric_text(MetricView { points, ..metric }) == metric_text(metric),
{
    order::gathered_permutes(
        metric.points,
        points,
        |point: DataPointView| labelled_point(metric.id.name, point),
    );
    order::distinct_names_sort_alike(
        labelled_points(metric.id.name, metric.points)->Ok_0,
        labelled_points(metric.id.name, points)->Ok_0,
    );
}

/// The labels of one sample.
fn point_labels(metric: &str, point: &DataPoint) -> (r: Result<String, PrometheusError>)
    ensures
        match r {
            Ok(labels) => rendered_labels(metric@, point@.attrs, generated_labels(point@.value)) == Ok::<
                Seq<char>,
                prometheus::ErrorView,
            >(labels@),
            Err(error) => rendered_labels(metric@, point@.attrs, generated_labels(point@.value)) == Err::<
                Seq<char>,
                prometheus::ErrorView,
            >(error@),
        },
{
    // `le` is generated on `<name>_bucket` lines, so it is reserved for histogram samples only;
    // scalar samples may use it freely.
    match &point.value {
        DataPointValue::Number(_) => {
            let reserved: [&str; 0] = [];
            assert(order::views(reserved@) =~= Seq::<Seq<char>>::empty());
            render_labels(metric, &point.attrs, &reserved)
        },
        DataPointValue::Histogram(_) => {
            let reserved: [&str; 1] = ["le"];
            assert(order::views(reserved@) =~= seq!["le"@]);
            render_labels(metric, &point.attrs, &reserved)
        },
    }
}

/// The samples of a metric under their labels.
fn label_points<'a>(metric: &str, points: &'a Vec<DataPoint>) -> (r: Result<
    Vec<Named<&'a DataPoint>>,
    PrometheusError,
>)
    ensures
        match r {
            Ok(labelled) => labelled_points(metric@, order::views(points@)) == Ok::<
                Seq<(Seq<char>, DataPointView)>,
                prometheus::ErrorView,
            >(order::views(labelled@)),
            Err(error) => labelled_points(metric@, order::views(points@)) == Err::<
                Seq<(Seq<char>, DataPointView)>,
                prometheus::ErrorView,
            >(error@),
        },
{
    let ghost all = order::views(points@);
    let mut labelled: Vec<Named<&'a DataPoint>> = Vec::new();
    let mut i: usize = 0;
    assert(order::views(labelled@) =~= Seq::<(Seq<char>, DataPointView)>::empty());
    while i < points.len()
        invariant
            i <= points@.len(),
            all == order::views(points@),
            labelled_points(metric@, all.take(i as int)) == Ok::<
                Seq<(Seq<char>, DataPointView)>,
                prometheus::ErrorView,
            >(order::views(labelled@)),
        decreases points@.len() - i,
    {
        let point = &points[i];
        assert(all.take(i + 1).drop_last() =~= all.take(i as int));
        assert(all.take(i + 1).last() == point@);
        match point_labels(metric, point) {
            Err(error) => {
                proof {
                    order::lemma_gathered_error(all, |point: DataPointView| labelled_point(metric@, point), i + 1);
                }
                return Err(error);
            },
            Ok(labels) => {
                let ghost before = order::views(labelled@);
                labelled.push(Named { name: labels, item: point });
                assert(order::views(labelled@) =~= before.push((labels@, point@)));
            },
        }
        i = i + 1;
    }
    assert(all.take(i as int) =~= all);
    Ok(labelled)
}

fn render_header(name: &str, description: &str, kind: Kind, out: &mut String)
    ensures
        final(out)@ == old(out)@ + header_text(name@, description@, kind),
{
    if !description.is_empty() {
        out.append("# HELP ");
        out.append(name);
        out.push(' ');
        escape_help_into(description, out);
        out.push('\n');
    }
    assert(out@ =~= old(out)@ + help_text(name@, description@));
    let ghost helped = out@;
    out.append("# TYPE ");
    out.append(name);
    out.push(' ');
    out.append(kind_str(kind));
    out.push('\n');
    let ghost typed = "# TYPE "@ + name@ + seq![' '] + kind_text(kind) + seq!['\n'];
    assert(out@ =~= helped + typed);
    assert(out@ =~= old(out)@ + header_text(name@, description@, kind));
}

fn render_point(name: &str, labels: &str, value: &DataPointValue, out: &mut String)
    ensures
        final(out)@ == old(out)@ + point_text(name@, labels@, value@),
{
    match value {
        DataPointValue::Number(value) => {
            out.append(name);
            push_in_braces(labels, out);
            out.push(' ');
            write_f64(out, &value.0);
            out.push('\n');
            assert(out@ =~= old(out)@ + (name@ + in_braces(labels@) + seq![' '] + sample_text(value@)
                + seq!['\n']));
        },
        DataPointValue::Histogram(value) => value.render_into(name, labels, out),
    }
}

fn render_points(name: &str, points: &Vec<Named<&DataPoint>>, out: &mut String)
    ensures
        final(out)@ == old(out)@ + points_text(name@, order::views(points@)),
{
    let ghost all = order::views(points@);
    let mut i: usize = 0;
    assert(out@ =~= old(out)@ + points_text(name@, all.take(0)));
    while i < points.len()
        invariant
            i <= points@.len(),
            all == order::views(points@),
            out@ == old(out)@ + points_text(name@, all.take(i as int)),
        decreases points@.len() - i,
    {
        let labels = points[i].name.as_str();
        let point = points[i].item;
        render_point(name, labels, &point.value, out);
        proof {
            assert(all.take(i + 1).drop_last() =~= all.take(i as int));
            assert(all.take(i + 1).last() == (labels@, point@));
            assert(out@ =~= old(out)@ + points_text(name@, all.take(i + 1)));
        }
        i = i + 1;
    }
    assert(all.take(i as int) =~= all);
}

impl Metric {
    /// The final sample-family name: the metric name sanitized to the alphabet of metric names, with
    /// a `_total` suffix appended for counters that do not already carry one.
    ///
    /// An empty name is an error.
    pub fn family_name(&self) -> (r: Result<String, PrometheusError>)
        ensures
            match r {
                Ok(name) => family_name(self@) == Ok::<Seq<char>, prometheus::ErrorView>(name@),
                Err(error) => family_name(self@) == Err::<Seq<char>, prometheus::ErrorView>(error@),
            },
    {
        if self.id.name.as_str().is_empty() {
            return Err(PrometheusError::EmptyMetricName);
        }
        let mut name = sanitize_metric_name(self.id.name.as_str());
        if self.kind == Kind::Counter && !text::has_suffix(name.as_str(), "_total") {
            name.append("_total");
        }
        Ok(name)
    }

    /// Renders this family into `out` in the text exposition format.
    ///
    /// An empty metric name, an empty key of an emitted attribute, and colliding labels or duplicate
    /// series after sanitizing are errors. Validation completes before `out` is modified.
    pub fn render_into(&self, out: &mut String) -> (r: Result<(), PrometheusError>)
        ensures
            match r {
                Ok(()) => metric_text(self@) is Ok && final(out)@ == old(out)@ + metric_text(self@)->Ok_0,
                Err(error) => metric_text(self@) == Err::<Seq<char>, prometheus::ErrorView>(error@)
                    && final(out)@ == old(out)@,
            },
    {
        let name = match self.family_name() {
            Ok(name) => name,
            Err(error) => {
                return Err(error);
            },
        };
        let labelled = match label_points(self.id.name.as_str(), &self.points) {
            Ok(labelled) => labelled,
            Err(error) => {
                return Err(error);
            },
        };
        let points = order::sort(labelled);
        if let Some(at) = order::find_repeated(&points) {
            return Err(
                PrometheusError::DuplicateSeries(points[at].name.clone(), self.id.name.to_text()),
            );
        }
        render_header(name.as_str(), self.id.description.as_str(), self.kind, out);
        let ghost header = out@;
        render_points(name.as_str(), &points, out);
        assert(header == old(out)@ + header_text(name@, self@.id.description, self.kind));
        assert(out@ =~= old(out)@ + metric_text(self@)->Ok_0);
        Ok(())
    }
}

/// What a look at a cell gives, as the value of a sample. `metric` is the metric's identity, used only
/// for errors.
pub trait IntoDataPointValue: View + Sized {
    spec fn data_point_value(reading: Self::V, metric: model::NameIdentityView) -> Result<
        DataPointValueView,
        error::ErrorView,
    >;

    fn into_data_point_value(self, metric: &NameIdentity) -> (r: Result<DataPointValue, Error>)
        ensures
            match r {
                Ok(value) => Self::data_point_value(self@, metric@) == Ok::<
                    DataPointValueView,
                    error::ErrorView,
                >(value@),
                Err(error) => Self::data_point_value(self@, metric@) == Err::<
                    DataPointValueView,
                    error::ErrorView,
                >(error@),
            },
    ;
}

/// An amount as the value of a sample.
pub open spec fn number_value<T: ToNumber>(amount: T) -> Result<DataPointValueView, error::ErrorView> {
    match amount.number() {
        Some(number) => Ok(DataPointValueView::Number(number)),
        None => Err(error::ErrorView::ValueToF64),
    }
}

/// An amount as the value of a sample.
pub fn to_number_value<T: ToNumber>(amount: &T) -> (r: Result<DataPointValue, Error>)
    ensures
        match r {
            Ok(value) => number_value(*amount) == Ok::<DataPointValueView, error::ErrorView>(value@),
            Err(error) => number_value(*amount) == Err::<DataPointValueView, error::ErrorView>(error@),
        },
{
    match amount.to_number() {
        Ok(number) => Ok(DataPointValue::Number(OrderedNumber(number))),
        Err(error) => Err(error),
    }
}

impl IntoDataPointValue for u64 {
    open spec fn data_point_value(reading: u64, metric: model::NameIdentityView) -> Result<
        DataPointValueView,
        error::ErrorView,
    > {
        number_value(reading)
    }

    fn into_data_point_value(self, metric: &NameIdentity) -> (r: Result<DataPointValue, Error>) {
        to_number_value(&self)
    }
}

impl IntoDataPointValue for i64 {
    open spec fn data_point_value(reading: i64, metric: model::NameIdentityView) -> Result<
        DataPointValueView,
        error::ErrorView,
    > {
        number_value(reading)
    }

    fn into_data_point_value(self, metric: &NameIdentity) -> (r: Result<DataPointValue, Error>) {
        to_number_value(&self)
    }
}

impl IntoDataPointValue for Number {
    open spec fn data_point_value(reading: number::NumberView, metric: model::NameIdentityView) -> Result<
        DataPointValueView,
        error::ErrorView,
    > {
        Ok(DataPointValueView::Number(reading))
    }

    fn into_data_point_value(self, metric: &NameIdentity) -> (r: Result<DataPointValue, Error>) {
        Ok(DataPointValue::Number(OrderedNumber(self)))
    }
}

/// A boundary as the exposition format can have it: as a double that is finite.
pub open spec fn finite_boundary<T: ToNumber>(boundary: T, metric: model::NameIdentityView) -> Result<
    Option<number::NumberView>,
    error::ErrorView,
> {
    match boundary.number() {
        None => Err(error::ErrorView::ValueToF64),
        Some(number) => if number::is_finite_bits(number.bits) {
            Ok(Some(number))
        } else {
            Err(error::ErrorView::Prometheus(prometheus::ErrorView::NonFiniteBoundary(metric.name)))
        },
    }
}

/// The boundaries of a histogram as the exposition format can have them.
pub open spec fn finite_boundaries<T: ToNumber>(
    boundaries: Seq<T>,
    metric: model::NameIdentityView,
) -> Result<Seq<number::NumberView>, error::ErrorView> {
    order::gathered(boundaries, |boundary: T| finite_boundary(boundary, metric))
}

fn check_boundaries<T: ToNumber>(boundaries: &Vec<T>, metric: &NameIdentity) -> (r: Result<
    Vec<Number>,
    Error,
>)
    ensures
        match r {
            Ok(numbers) => finite_boundaries(boundaries@, metric@) == Ok::<
                Seq<number::NumberView>,
                error::ErrorView,
            >(order::views(numbers@)),
            Err(error) => finite_boundaries(boundaries@, metric@) == Err::<
                Seq<number::NumberView>,
                error::ErrorView,
            >(error@),
        },
{
    let ghost all = boundaries@;
    let mut numbers: Vec<Number> = Vec::new();
    let mut i: usize = 0;
    assert(order::views(numbers@) =~= Seq::<number::NumberView>::empty());
    while i < boundaries.len()
        invariant
            i <= boundaries@.len(),
            all == boundaries@,
            finite_boundaries(all.take(i as int), metric@) == Ok::<Seq<number::NumberView>, error::ErrorView>(
                order::views(numbers@),
            ),
        decreases boundaries@.len() - i,
    {
        assert(all.take(i + 1).drop_last() =~= all.take(i as int));
        assert(all.take(i + 1).last() == boundaries@[i as int]);
        match boundaries[i].to_number() {
            Err(error) => {
                proof {
                    order::lemma_gathered_error(all, |boundary: T| finite_boundary(boundary, metric@), i + 1);
                }
                return Err(error);
            },
            Ok(number) => {
                if !number.is_finite() {
                    proof {
                        order::lemma_gathered_error(
                            all,
                            |boundary: T| finite_boundary(boundary, metric@),
                            i + 1,
                        );
                    }
                    return Err(
                        Error::Prometheus(PrometheusError::NonFiniteBoundary(metric.name.to_text())),
                    );
                }
                let ghost before = order::views(numbers@);
                numbers.push(number);
                assert(order::views(numbers@) =~= before.push(number@));
            },
        }
        i = i + 1;
    }
    assert(all.take(i as int) =~= all);
    Ok(numbers)
}

impl<T: ToNumber> IntoDataPointValue for histogram::Snapshot<T> {
    open spec fn data_point_value(
        reading: histogram::SnapshotView<T>,
        metric: model::NameIdentityView,
    ) -> Result<DataPointValueView, error::ErrorView> {
        match finite_boundaries(reading.boundaries, metric) {
            Err(error) => Err(error),
            Ok(boundaries) => match reading.sum.number() {
                None => Err(error::ErrorView::ValueToF64),
                Some(sum) => Ok(
                    DataPointValueView::Histogram(
                        HistogramValueView {
                            boundaries,
                            bucket_counts: reading.bucket_counts,
                            count: reading.count,
                            sum,
                        },
                    ),
                ),
            },
        }
    }

    fn into_data_point_value(self, metric: &NameIdentity) -> (r: Result<DataPointValue, Error>) {
        let boundaries = match check_boundaries(&self.boundaries, metric) {
            Ok(boundaries) => boundaries,
            Err(error) => {
                return Err(error);
            },
        };
        let sum = match self.sum.to_number() {
            Ok(sum) => OrderedNumber(sum),
            Err(error) => {
                return Err(error);
            },
        };
        Ok(
            DataPointValue::Histogram(
                HistogramValue { boundaries, bucket_counts: self.bucket_counts, count: self.count, sum },
            ),
        )
    }
}

} // verus!
