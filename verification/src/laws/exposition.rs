//! Metrics in the Prometheus text format.

use crate::atomic::histogram;
use crate::dto::Kind;
use crate::error;
use crate::laws::lists;
use crate::model;
use crate::number;
use crate::number::{Number, ToNumber};
use crate::order;
use crate::prometheus;
use crate::prometheus::collector;
use crate::prometheus::dto as exposition;
use crate::prometheus::dto::{DataPointValueView, IntoDataPointValue};
use crate::text;
use vstd::prelude::*;
use vstd::seq_lib::group_to_multiset_ensures;

verus! {

/// The underscore that stands before a name that begins with a digit.
pub open spec fn guard_len(name: Seq<char>) -> int {
    if name.len() > 0 && '0' <= name[0] <= '9' {
        1
    } else {
        0
    }
}

/// Behind the underscore that guards a leading digit, a sanitized metric name has the characters of the
/// name: a letter of either case, a digit, an underscore and a colon as they are, any other as an
/// underscore.
pub proof fn metric_names_keep_their_characters(name: Seq<char>)
    ensures
        exposition::metric_name(name).len() == name.len() + guard_len(name),
        guard_len(name) == 1 ==> exposition::metric_name(name)[0] == '_',
        forall|i: int|
            0 <= i < name.len() ==> exposition::metric_name(name)[guard_len(name) + i] == if 'a' <= (
            #[trigger] name[i]) <= 'z' || 'A' <= name[i] <= 'Z' || '0' <= name[i] <= '9' || name[i] == '_'
                || name[i] == ':' {
                name[i]
            } else {
                '_'
            },
{
}

/// A name that is a metric name already is its own sanitized form.
pub proof fn valid_metric_names_stay(name: Seq<char>)
    requires
        forall|i: int|
            0 <= i < name.len() ==> 'a' <= (#[trigger] name[i]) <= 'z' || 'A' <= name[i] <= 'Z' || '0'
                <= name[i] <= '9' || name[i] == '_' || name[i] == ':',
        name.len() > 0 ==> !('0' <= name[0] <= '9'),
    ensures
        exposition::metric_name(name) == name,
{
    metric_names_keep_their_characters(name);
    assert forall|i: int| 0 <= i < name.len() implies exposition::metric_name(name)[i] == #[trigger] name[i] by {
        assert(exposition::metric_name(name)[guard_len(name) + i] == name[i]);
    }
    assert(exposition::metric_name(name) =~= name);
}

/// What a character becomes in a label name.
pub open spec fn label_char(c: char) -> char {
    if 'a' <= c <= 'z' || 'A' <= c <= 'Z' || '0' <= c <= '9' || c == '_' {
        c
    } else {
        '_'
    }
}

/// What stands before the characters of a label name: `label`, where two underscores would begin it, and
/// an underscore, where a digit would.
pub open spec fn label_guard(name: Seq<char>) -> Seq<char> {
    if name.len() >= 2 && label_char(name[0]) == '_' && label_char(name[1]) == '_' {
        seq!['l', 'a', 'b', 'e', 'l']
    } else if name.len() > 0 && '0' <= name[0] <= '9' {
        seq!['_']
    } else {
        seq![]
    }
}

/// Behind its guard, a label name has the characters of the key: a letter of either case, a digit and an
/// underscore as they are, any other as an underscore.
pub proof fn label_names_keep_their_characters(name: Seq<char>)
    ensures
        exposition::label_name(name).len() == label_guard(name).len() + name.len(),
        exposition::label_name(name).take(label_guard(name).len() as int) == label_guard(name),
        forall|i: int|
            0 <= i < name.len() ==> exposition::label_name(name)[label_guard(name).len() + i] == label_char(
                #[trigger] name[i],
            ),
{
    reveal_strlit("label");
    let plain = exposition::plain_label_name(name);
    if name.len() >= 2 && label_char(name[0]) == '_' && label_char(name[1]) == '_' {
        assert(plain[0] == '_' && plain[1] == '_');
        assert(exposition::label_name(name) =~= seq!['l', 'a', 'b', 'e', 'l'] + plain);
    } else if name.len() > 0 && '0' <= name[0] <= '9' {
        assert(plain[0] == '_' && plain[1] == name[0]);
    } else if name.len() >= 2 {
        assert(plain[0] == label_char(name[0]) && plain[1] == label_char(name[1]));
    }
    assert(exposition::label_name(name).take(label_guard(name).len() as int) =~= label_guard(name));
}

/// A key that is a label name already, and not one of the reserved ones, is its own sanitized form.
pub proof fn valid_label_names_stay(name: Seq<char>)
    requires
        forall|i: int|
            0 <= i < name.len() ==> 'a' <= (#[trigger] name[i]) <= 'z' || 'A' <= name[i] <= 'Z' || '0'
                <= name[i] <= '9' || name[i] == '_',
        name.len() > 0 ==> !('0' <= name[0] <= '9'),
        name.len() >= 2 ==> !(name[0] == '_' && name[1] == '_'),
    ensures
        exposition::label_name(name) == name,
{
    label_names_keep_their_characters(name);
    assert(label_guard(name).len() == 0);
    assert forall|i: int| 0 <= i < name.len() implies exposition::label_name(name)[i] == #[trigger] name[i] by {
        assert(exposition::label_name(name)[label_guard(name).len() + i] == name[i]);
    }
    assert(exposition::label_name(name) =~= name);
}

/// Texts are escaped character by character: a backslash is doubled, a newline becomes a backslash and an
/// `n`, and where the text is quoted, a quote has a backslash before it. Every other character stays.
pub proof fn escaping_goes_by_character(text: Seq<char>, more: Seq<char>, c: char, quoted: bool)
    ensures
        exposition::escaped(Seq::empty(), quoted) == Seq::<char>::empty(),
        exposition::escaped(text + more, quoted) == exposition::escaped(text, quoted) + exposition::escaped(
            more,
            quoted,
        ),
        exposition::escaped(seq!['\\'], quoted) == seq!['\\', '\\'],
        exposition::escaped(seq!['\n'], quoted) == seq!['\\', 'n'],
        exposition::escaped(seq!['"'], true) == seq!['\\', '"'],
        exposition::escaped(seq!['"'], false) == seq!['"'],
        c != '\\' && c != '\n' && c != '"' ==> exposition::escaped(seq![c], quoted) == seq![c],
    decreases more.len(),
{
    lemma_escaped_one('\\', quoted);
    lemma_escaped_one('\n', quoted);
    lemma_escaped_one('"', true);
    lemma_escaped_one('"', false);
    lemma_escaped_one(c, quoted);
    if more.len() == 0 {
        assert(text + more =~= text);
        assert(exposition::escaped(text, quoted) + Seq::<char>::empty() =~= exposition::escaped(text, quoted));
    } else {
        assert((text + more).drop_last() =~= text + more.drop_last());
        escaping_goes_by_character(text, more.drop_last(), c, quoted);
        assert(exposition::escaped(text + more, quoted) =~= exposition::escaped(text, quoted)
            + exposition::escaped(more, quoted));
    }
}

proof fn lemma_escaped_one(c: char, quoted: bool)
    ensures
        exposition::escaped(seq![c], quoted) == exposition::escaped_char(c, quoted),
{
    let one = seq![c];
    assert(one.drop_last() =~= Seq::<char>::empty());
    assert(exposition::escaped(one.drop_last(), quoted) == Seq::<char>::empty());
    assert(Seq::<char>::empty() + exposition::escaped_char(c, quoted) =~= exposition::escaped_char(c, quoted));
}

/// An attribute without a value has no label. One with a value has the label of its sanitized key with
/// that value, unless the key is empty or the label is one that the format itself generates.
pub proof fn attributes_become_labels(
    metric: Seq<char>,
    attr: model::KeyValueView,
    reserved: Seq<Seq<char>>,
)
    ensures
        match exposition::label_of(metric, attr, reserved) {
            Ok(None) => attr.value is None,
            Ok(Some((name, value))) => {
                &&& attr.value == Some(value)
                &&& attr.key.len() > 0
                &&& name == exposition::label_name(attr.key)
                &&& !reserved.contains(name)
            },
            Err(prometheus::ErrorView::EmptyLabelName(of)) => attr.value is Some && attr.key.len() == 0
                && of == metric,
            Err(prometheus::ErrorView::LabelCollision(label, of)) => {
                &&& attr.value is Some
                &&& attr.key.len() > 0
                &&& label == exposition::label_name(attr.key)
                &&& reserved.contains(label)
                &&& of == metric
            },
            Err(_) => false,
        },
{
}

/// The value of a label is a text as it is, and any other value as it prints.
pub proof fn label_values_are_texts(value: model::ValueView)
    ensures
        value matches model::ValueView::String(text) ==> exposition::label_value(value) == text,
        value !is String ==> exposition::label_value(value) == model::value_text(value),
{
}

/// Labels stand in their order, set apart by commas, each as its name, an equals sign and its escaped
/// value in quotes.
pub proof fn labels_are_set_apart(labels: Seq<exposition::LabelView>, name: Seq<char>, value: model::ValueView)
    ensures
        exposition::labels_text(Seq::empty()) == Seq::<char>::empty(),
        ({
            let label = name + seq!['=', '"'] + exposition::escaped(exposition::label_value(value), true) + seq![
                '"',
            ];
            exposition::labels_text(labels.push((name, value))) == if labels.len() == 0 {
                label
            } else {
                exposition::labels_text(labels) + seq![','] + label
            }
        }),
{
    reveal_strlit("=\"");
    let all = labels.push((name, value));
    let label = name + seq!['=', '"'] + exposition::escaped(exposition::label_value(value), true) + seq!['"'];
    assert(all.drop_last() =~= labels);
    assert("=\""@ =~= seq!['=', '"']);
    if labels.len() == 0 {
        assert(exposition::labels_text(labels) =~= Seq::<char>::empty());
        assert(exposition::labels_text(all) =~= label);
    } else {
        assert(exposition::labels_text(all) =~= exposition::labels_text(labels) + seq![','] + label);
    }
}

/// Whether a name stands in two places of a list, in some order of it.
pub open spec fn stands_twice<V>(list: Seq<(Seq<char>, V)>, name: Seq<char>) -> bool {
    exists|other: Seq<(Seq<char>, V)>, i: int|
        other.to_multiset() == list.to_multiset() && 0 <= i < other.len() - 1 && (#[trigger] other[i]).0 == name
            && other[i + 1].0 == name
}

proof fn lemma_first_repeated<V>(list: Seq<(Seq<char>, V)>) -> (at: int)
    ensures
        order::first_repeated(list) matches Some(name) ==> 0 <= at < list.len() - 1 && list[at].0 == name
            && list[at + 1].0 == name,
    decreases list.len(),
{
    if list.len() < 2 || list[0].0 == list[1].0 {
        0
    } else {
        let at = lemma_first_repeated(list.drop_first());
        if order::first_repeated(list) is Some {
            assert(list.drop_first()[at] == list[at + 1]);
            assert(list.drop_first()[at + 1] == list[at + 2]);
        }
        at + 1
    }
}

proof fn lemma_repeated<V>(list: Seq<(Seq<char>, V)>)
    ensures
        order::first_repeated(order::sorted(list)) matches Some(name) ==> stands_twice(list, name),
{
    let sorted = order::sorted(list);
    order::sorted_is_an_ordered_permutation(list);
    let at = lemma_first_repeated(sorted);
    if order::first_repeated(sorted) is Some {
        assert(sorted[at].0 == order::first_repeated(sorted)->0);
    }
}

/// Labels are rendered in the order of their names, every one of them and nothing else; two of one name
/// are refused.
pub proof fn labels_are_rendered_in_order(
    metric: Seq<char>,
    attrs: Seq<model::KeyValueView>,
    reserved: Seq<Seq<char>>,
)
    ensures
        match exposition::rendered_labels(metric, attrs, reserved) {
            Ok(rendered) => exists|labels: Seq<exposition::LabelView>|
                {
                    &&& rendered == #[trigger] exposition::labels_text(labels)
                    &&& order::in_order(labels)
                    &&& exposition::named_labels(metric, attrs, reserved) matches Ok(named)
                        && named.to_multiset() == labels.to_multiset()
                },
            Err(error) => exposition::named_labels(metric, attrs, reserved) matches Ok(named) ==> match error {
                prometheus::ErrorView::LabelCollision(label, of) => of == metric && stands_twice(named, label),
                _ => false,
            },
        },
        exposition::named_labels(metric, attrs, reserved) matches Err(error)
            ==> exposition::rendered_labels(metric, attrs, reserved) == Err::<
            Seq<char>,
            prometheus::ErrorView,
        >(error),
{
    match exposition::named_labels(metric, attrs, reserved) {
        Ok(named) => {
            order::sorted_is_an_ordered_permutation(named);
            lemma_repeated(named);
            if exposition::rendered_labels(metric, attrs, reserved) is Ok {
                assert(exposition::rendered_labels(metric, attrs, reserved)->Ok_0 == exposition::labels_text(
                    order::sorted(named),
                ));
            }
        },
        Err(_) => {},
    }
}

/// Each kind has a name of its own, in lower case.
pub proof fn kinds_have_names(kind: Kind)
    ensures
        kind is Counter ==> exposition::kind_text(kind) == seq!['c', 'o', 'u', 'n', 't', 'e', 'r'],
        kind is Gauge ==> exposition::kind_text(kind) == seq!['g', 'a', 'u', 'g', 'e'],
        kind is Histogram ==> exposition::kind_text(kind) == seq![
            'h',
            'i',
            's',
            't',
            'o',
            'g',
            'r',
            'a',
            'm',
        ],
{
    reveal_strlit("counter");
    reveal_strlit("gauge");
    reveal_strlit("histogram");
    assert("counter"@ =~= seq!['c', 'o', 'u', 'n', 't', 'e', 'r']);
    assert("gauge"@ =~= seq!['g', 'a', 'u', 'g', 'e']);
    assert("histogram"@ =~= seq!['h', 'i', 's', 't', 'o', 'g', 'r', 'a', 'm']);
}

/// A double whose exponent is full is spelled `NaN` where it has a fraction, and `+Inf` or `-Inf` by its
/// sign where it has none. Every other double prints as usual.
pub proof fn samples_are_spelled(value: number::NumberView)
    ensures
        ({
            let exponent = (value.bits / 0x10_0000_0000_0000) % 0x800;
            let fraction = value.bits % 0x10_0000_0000_0000;
            let negative = value.bits >= 0x8000_0000_0000_0000;
            exposition::sample_text(value) == if exponent == 0x7ff && fraction != 0 {
                "NaN"@
            } else if exponent == 0x7ff && !negative {
                "+Inf"@
            } else if exponent == 0x7ff {
                "-Inf"@
            } else {
                number::double_text(value.bits)
            }
        }),
{
}

/// The count of a bucket line is that of the line before and of the bucket itself, as far as 64 bits can
/// tell.
pub proof fn bucket_counts_accumulate(counts: Seq<u64>, n: nat)
    ensures
        exposition::cumulative(counts, 0) == 0,
        n < counts.len() ==> exposition::cumulative(counts, n + 1) == if exposition::cumulative(counts, n)
            + counts[n as int] > u64::MAX {
            u64::MAX as int
        } else {
            exposition::cumulative(counts, n) + counts[n as int]
        },
        n >= counts.len() ==> exposition::cumulative(counts, n + 1) == exposition::cumulative(counts, n),
{
}

/// Labels stand in braces, unless there are none.
pub open spec fn braced(labels: Seq<char>) -> Seq<char> {
    if labels.len() == 0 {
        seq![]
    } else {
        seq!['{'] + labels + seq!['}']
    }
}

/// The line of a bucket has the name with `_bucket` behind it, the labels and the bound, and the count.
pub open spec fn bucket_row(name: Seq<char>, labels: Seq<char>, le: Seq<char>, count: nat) -> Seq<char> {
    if labels.len() == 0 {
        name + "_bucket{le=\""@ + le + "\"} "@ + text::decimal(count) + seq!['\n']
    } else {
        name + "_bucket{"@ + labels + ",le=\""@ + le + "\"} "@ + text::decimal(count) + seq!['\n']
    }
}

proof fn lemma_bucket_row(name: Seq<char>, labels: Seq<char>, le: Seq<char>, count: nat)
    ensures
        exposition::bucket_line(name, labels, le, count) == bucket_row(name, labels, le, count),
{
    reveal_strlit("_bucket{le=\"");
    reveal_strlit("_bucket{");
    reveal_strlit(",le=\"");
    reveal_strlit("le=\"");
    assert("_bucket{le=\""@ =~= "_bucket{"@ + "le=\""@);
    assert(",le=\""@ =~= seq![','] + "le=\""@);
    assert(exposition::bucket_line(name, labels, le, count) =~= bucket_row(name, labels, le, count));
}

/// A histogram has one bucket line for each boundary, in their order, with the boundary as its bound and
/// all counts up to it. One for infinity, with the count, is behind them, and then the sum and the count.
pub proof fn histograms_have_their_lines(
    value: exposition::HistogramValueView,
    name: Seq<char>,
    labels: Seq<char>,
    n: nat,
)
    ensures
        exposition::bucket_lines(value, name, labels, 0) == Seq::<char>::empty(),
        exposition::bucket_lines(value, name, labels, n + 1) == exposition::bucket_lines(
            value,
            name,
            labels,
            n,
        ) + bucket_row(
            name,
            labels,
            exposition::sample_text(value.boundaries[n as int]),
            exposition::cumulative(value.bucket_counts, n + 1),
        ),
        exposition::histogram_text(value, name, labels) == exposition::bucket_lines(
            value,
            name,
            labels,
            value.boundaries.len(),
        ) + bucket_row(name, labels, "+Inf"@, value.count as nat) + (name + "_sum"@ + braced(labels) + seq![' ']
            + exposition::sample_text(value.sum) + seq!['\n']) + (name + "_count"@ + braced(labels) + seq![' ']
            + text::decimal(value.count as nat) + seq!['\n']),
{
    lemma_bucket_row(name, labels, "+Inf"@, value.count as nat);
    lemma_bucket_row(
        name,
        labels,
        exposition::sample_text(value.boundaries[n as int]),
        exposition::cumulative(value.bucket_counts, n + 1),
    );
    assert(exposition::in_braces(labels) =~= braced(labels));
}

/// A number prints on one line: the name, its labels in braces where there are any, and the value. The
/// points of a family follow one another.
pub proof fn points_have_their_lines(
    name: Seq<char>,
    points: Seq<(Seq<char>, exposition::DataPointView)>,
    labels: Seq<char>,
    point: exposition::DataPointView,
)
    ensures
        exposition::points_text(name, Seq::empty()) == Seq::<char>::empty(),
        exposition::points_text(name, points.push((labels, point))) == exposition::points_text(name, points)
            + match point.value {
            DataPointValueView::Number(value) => name + braced(labels) + seq![' '] + exposition::sample_text(
                value,
            ) + seq!['\n'],
            DataPointValueView::Histogram(value) => exposition::histogram_text(value, name, labels),
        },
{
    assert(points.push((labels, point)).drop_last() =~= points);
    assert(exposition::in_braces(labels) =~= braced(labels));
}

/// A family is introduced by its description, escaped, where it has one, and by its kind.
pub proof fn families_are_introduced(name: Seq<char>, description: Seq<char>, kind: Kind)
    ensures
        ({
            let kind_line = "# TYPE "@ + name + seq![' '] + exposition::kind_text(kind) + seq!['\n'];
            exposition::header_text(name, description, kind) == if description.len() == 0 {
                kind_line
            } else {
                "# HELP "@ + name + seq![' '] + exposition::escaped(description, false) + seq!['\n'] + kind_line
            }
        }),
{
    let kind_line = "# TYPE "@ + name + seq![' '] + exposition::kind_text(kind) + seq!['\n'];
    assert(Seq::<char>::empty() + kind_line =~= kind_line);
}

/// A family has the sanitized name of its metric. That of a counter ends in `_total`: as it stands, or
/// with `_total` behind it. Only a metric without a name has none.
pub proof fn families_have_names(metric: exposition::MetricView)
    ensures
        ({
            let name = exposition::metric_name(metric.id.name);
            match exposition::family_name(metric) {
                Ok(family) => {
                    &&& metric.id.name.len() > 0
                    &&& metric.kind !is Counter ==> family == name
                    &&& metric.kind is Counter ==> text::finishes_with(family, "_total"@)
                    &&& family == name || family == name + "_total"@
                    &&& metric.kind is Counter && text::finishes_with(name, "_total"@) ==> family == name
                },
                Err(error) => metric.id.name.len() == 0 && error is EmptyMetricName,
            }
        }),
{
    let name = exposition::metric_name(metric.id.name);
    assert((name + "_total"@).skip((name + "_total"@).len() - "_total"@.len()) =~= "_total"@);
}

/// A point of a histogram may have no label `le`, which its buckets have; a number may have any.
pub proof fn generated_labels_are_reserved(number: number::NumberView, histogram: exposition::HistogramValueView)
    ensures
        exposition::generated_labels(DataPointValueView::Number(number)).len() == 0,
        exposition::generated_labels(DataPointValueView::Histogram(histogram)).len() == 1,
        exposition::generated_labels(DataPointValueView::Histogram(histogram))[0] == seq!['l', 'e'],
{
    reveal_strlit("le");
    assert("le"@ =~= seq!['l', 'e']);
}

/// A metric is its header and the lines of its points, in the order of their labels, all of them with
/// the labels of their own attributes. What cannot be labelled, or is there twice, is refused.
pub proof fn metrics_are_rendered_whole(metric: exposition::MetricView)
    ensures
        match exposition::metric_text(metric) {
            Ok(rendered) => exists|points: Seq<(Seq<char>, exposition::DataPointView)>, name: Seq<char>|
                {
                    &&& exposition::family_name(metric) == Ok::<Seq<char>, prometheus::ErrorView>(name)
                    &&& rendered == exposition::header_text(name, metric.id.description, metric.kind)
                        + #[trigger] exposition::points_text(name, points)
                    &&& order::in_order(points)
                    &&& points.len() == metric.points.len()
                    &&& exists|labels: Seq<Seq<char>>|
                        {
                            &&& labels.len() == metric.points.len()
                            &&& points.to_multiset() == #[trigger] paired(labels, metric.points).to_multiset()
                            &&& forall|i: int|
                                0 <= i < metric.points.len() ==> exposition::rendered_labels(
                                    metric.id.name,
                                    (#[trigger] metric.points[i]).attrs,
                                    exposition::generated_labels(metric.points[i].value),
                                ) == Ok::<Seq<char>, prometheus::ErrorView>(labels[i])
                        }
                },
            Err(error) => match exposition::family_name(metric) {
                Err(nameless) => error == nameless,
                Ok(_) => match exposition::labelled_points(metric.id.name, metric.points) {
                    Err(unlabelled) => error == unlabelled,
                    Ok(labelled) => match error {
                        prometheus::ErrorView::DuplicateSeries(labels, of) => of == metric.id.name
                            && stands_twice(labelled, labels),
                        _ => false,
                    },
                },
            },
        },
{
    if exposition::labelled_points(metric.id.name, metric.points) is Ok {
        lemma_repeated(exposition::labelled_points(metric.id.name, metric.points)->Ok_0);
    }
    if exposition::metric_text(metric) is Ok {
        let name = exposition::family_name(metric)->Ok_0;
        let give = |point: exposition::DataPointView| exposition::labelled_point(metric.id.name, point);
        let labelled = order::gathered(metric.points, give)->Ok_0;
        assert(exposition::labelled_points(metric.id.name, metric.points) == order::gathered(
            metric.points,
            give,
        ));
        lists::gathering_fails_with_the_first_failure(metric.points, give);
        assert forall|i: int| 0 <= i < metric.points.len() implies give(#[trigger] metric.points[i]) is Ok
            && give(metric.points[i])->Ok_0 is Some by {}
        lists::gathering_keeps_the_order(metric.points, give);
        let labels = labelled.map_values(|pair: (Seq<char>, exposition::DataPointView)| pair.0);
        assert forall|i: int| 0 <= i < metric.points.len() implies exposition::rendered_labels(
            metric.id.name,
            (#[trigger] metric.points[i]).attrs,
            exposition::generated_labels(metric.points[i].value),
        ) == Ok::<Seq<char>, prometheus::ErrorView>(labels[i]) && labelled[i] == (
            labels[i],
            metric.points[i],
        ) by {
            assert(give(metric.points[i]) == Ok::<
                Option<(Seq<char>, exposition::DataPointView)>,
                prometheus::ErrorView,
            >(Some(labelled[i])));
        }
        assert(paired(labels, metric.points) =~= labelled);
        let points = order::sorted(labelled);
        order::sorted_is_an_ordered_permutation(labelled);
        assert(exposition::metric_text(metric)->Ok_0 == exposition::header_text(
            name,
            metric.id.description,
            metric.kind,
        ) + exposition::points_text(name, points));
    }
}

/// Points with their labels.
pub open spec fn paired(labels: Seq<Seq<char>>, points: Seq<exposition::DataPointView>) -> Seq<
    (Seq<char>, exposition::DataPointView),
> {
    Seq::new(points.len(), |i: int| (labels[i], points[i]))
}

/// The value of an integer is its number, and that of a double the double itself.
pub proof fn numbers_are_exposed_as_they_are(
    unsigned: u64,
    signed: i64,
    double: number::NumberView,
    id: model::NameIdentityView,
)
    ensures
        match <u64 as IntoDataPointValue>::data_point_value(unsigned, id) {
            Ok(DataPointValueView::Number(value)) => value.bits == number::nearest_to_unsigned(unsigned),
            _ => false,
        },
        match <i64 as IntoDataPointValue>::data_point_value(signed, id) {
            Ok(DataPointValueView::Number(value)) => value.bits == number::nearest_to_signed(signed),
            _ => false,
        },
        match <Number as IntoDataPointValue>::data_point_value(double, id) {
            Ok(DataPointValueView::Number(value)) => value.bits == double.bits,
            _ => false,
        },
{
}

/// Whether the boundary of a histogram can be the bound of a line: it is a number, and a finite one.
pub open spec fn is_bound<T: ToNumber>(boundary: T) -> bool {
    boundary.number() matches Some(number) && (number.bits / 0x10_0000_0000_0000) % 0x800 != 0x7ff
}

/// The value of a histogram has its count and its bucket counts, and the numbers of its sum and of its
/// boundaries, each in its place. It is there exactly where these are numbers and the boundaries finite.
pub proof fn histograms_are_exposed_as_they_are<T: ToNumber>(
    reading: histogram::SnapshotView<T>,
    id: model::NameIdentityView,
)
    ensures
        ({
            let result = <histogram::Snapshot<T> as IntoDataPointValue>::data_point_value(reading, id);
            let boundaries = reading.boundaries;
            &&& result is Ok <==> reading.sum.number() is Some && forall|i: int|
                0 <= i < boundaries.len() ==> is_bound(#[trigger] boundaries[i])
            &&& match result {
                Ok(DataPointValueView::Histogram(value)) => {
                    &&& value.count == reading.count
                    &&& value.bucket_counts == reading.bucket_counts
                    &&& reading.sum.number() == Some(value.sum)
                    &&& value.boundaries.len() == boundaries.len()
                    &&& forall|i: int|
                        0 <= i < boundaries.len() ==> (#[trigger] boundaries[i]).number() == Some(
                            value.boundaries[i],
                        )
                },
                Ok(DataPointValueView::Number(_)) => false,
                Err(error::ErrorView::ValueToF64) => reading.sum.number() is None || exists|i: int|
                    0 <= i < boundaries.len() && (#[trigger] boundaries[i]).number() is None,
                Err(error::ErrorView::Prometheus(prometheus::ErrorView::NonFiniteBoundary(name))) => name
                    == id.name && exists|i: int|
                    0 <= i < boundaries.len() && !is_bound(#[trigger] boundaries[i])
                        && boundaries[i].number() is Some,
                Err(_) => false,
            }
        }),
{
    let boundaries = reading.boundaries;
    let give = |boundary: T| exposition::finite_boundary(boundary, id);
    assert(exposition::finite_boundaries(boundaries, id) == order::gathered(boundaries, give));
    lists::gathering_fails_with_the_first_failure(boundaries, give);
    assert forall|i: int|
        0 <= i < boundaries.len() implies (give(#[trigger] boundaries[i]) is Ok <==> is_bound(
        boundaries[i],
    )) by {
        if boundaries[i].number() is Some {
            lemma_finite(boundaries[i].number()->0.bits);
        }
    }
    match order::gathered(boundaries, give) {
        Ok(list) => {
            assert forall|i: int| 0 <= i < boundaries.len() implies give(#[trigger] boundaries[i]) is Ok
                && give(boundaries[i])->Ok_0 is Some && is_bound(boundaries[i]) by {}
            lists::gathering_keeps_the_order(boundaries, give);
            assert forall|i: int| 0 <= i < boundaries.len() implies (#[trigger] boundaries[i]).number() == Some(
                list[i],
            ) by {
                assert(give(boundaries[i]) == Ok::<Option<number::NumberView>, error::ErrorView>(
                    Some(list[i]),
                ));
            }
        },
        Err(error) => {
            let i = choose|i: int|
                0 <= i < boundaries.len() && give(#[trigger] boundaries[i]) == Err::<
                    Option<number::NumberView>,
                    error::ErrorView,
                >(error) && forall|j: int| 0 <= j < i ==> give(#[trigger] boundaries[j]) is Ok;
            assert(give(boundaries[i]) is Err);
            assert(!is_bound(boundaries[i]));
        },
    }
}

proof fn lemma_finite(bits: u64)
    ensures
        number::is_finite_bits(bits) <==> (bits / 0x10_0000_0000_0000) % 0x800 != 0x7ff,
{
}

/// A scraped metric has the identity and the kind of its source and one point for each reading, in their
/// order, with the attributes and the value of the reading. Without readings there is none.
pub proof fn scrapes_hold_every_reading<S: IntoDataPointValue>(
    readings: Seq<(Seq<model::KeyValueView>, S::V)>,
    id: model::NameIdentityView,
    kind: Kind,
)
    ensures
        ({
            let result = collector::family_of::<S>(readings, id, kind);
            &&& result is Ok <==> forall|i: int|
                0 <= i < readings.len() ==> S::data_point_value((#[trigger] readings[i]).1, id) is Ok
            &&& result matches Ok(metric) ==> (metric is Some <==> readings.len() > 0)
            &&& result matches Ok(Some(metric)) ==> {
                &&& metric.id == id
                &&& metric.kind == kind
                &&& metric.points.len() == readings.len()
                &&& forall|i: int|
                    #![trigger readings[i]]
                    #![trigger metric.points[i]]
                    0 <= i < readings.len() ==> {
                        &&& metric.points[i].attrs == readings[i].0
                        &&& S::data_point_value(readings[i].1, id) == Ok::<
                            DataPointValueView,
                            error::ErrorView,
                        >(metric.points[i].value)
                    }
            }
        }),
{
    let give = |reading: (Seq<model::KeyValueView>, S::V)| collector::sample_of::<S>(reading, id);
    lists::gathering_fails_with_the_first_failure(readings, give);
    if order::gathered(readings, give) is Ok {
        assert forall|i: int| 0 <= i < readings.len() implies give(#[trigger] readings[i]) is Ok && give(
            readings[i],
        )->Ok_0 is Some && S::data_point_value(readings[i].1, id) is Ok by {}
        lists::gathering_keeps_the_order(readings, give);
        let points = order::gathered(readings, give)->Ok_0;
        assert forall|i: int| 0 <= i < readings.len() implies give(#[trigger] readings[i]) == Ok::<
            Option<exposition::DataPointView>,
            error::ErrorView,
        >(Some(points[i])) by {}
    } else if forall|i: int|
        0 <= i < readings.len() ==> S::data_point_value((#[trigger] readings[i]).1, id) is Ok {
        assert forall|i: int| 0 <= i < readings.len() implies give(#[trigger] readings[i]) is Ok by {
            assert(S::data_point_value(readings[i].1, id) is Ok);
        }
    }
}

/// The names that the samples of a family have: that of the family, and for a histogram those of its
/// buckets, its sum and its count too.
pub proof fn samples_have_names(name: Seq<char>, metric: exposition::MetricView)
    ensures
        ({
            let names = collector::sample_names((name, metric));
            &&& names[0] == name
            &&& metric.kind !is Histogram ==> names.len() == 1
            &&& metric.kind is Histogram ==> {
                &&& names.len() == 4
                &&& names[1] == name + "_bucket"@
                &&& names[2] == name + "_sum"@
                &&& names[3] == name + "_count"@
            }
        }),
{
    reveal_strlit("");
    assert(name + ""@ =~= name);
}

/// Families keep their names: all names are those of each family, one family after the other.
pub proof fn sample_names_add_up(families: collector::FamiliesView, family: (Seq<char>, exposition::MetricView))
    ensures
        collector::all_sample_names(Seq::empty()) == Seq::<Seq<char>>::empty(),
        collector::all_sample_names(families.push(family)) == collector::all_sample_names(families)
            + collector::sample_names(family),
{
    assert(families.push(family).drop_last() =~= families);
}

/// A name is reported as used twice exactly where one is, and then it is one that stands in two places.
pub proof fn reused_names_are_found(names: Seq<Seq<char>>)
    ensures
        collector::first_reused(names) is None <==> names.no_duplicates(),
        collector::first_reused(names) matches Some(name) ==> exists|i: int, j: int|
            0 <= i < j < names.len() && #[trigger] names[i] == name && #[trigger] names[j] == name,
    decreases names.len(),
{
    if names.len() > 0 {
        let before = names.drop_last();
        let last = names.len() - 1;
        reused_names_are_found(before);
        assert(names[last] == names.last());
        assert forall|i: int| 0 <= i < last implies #[trigger] names[i] == before[i] by {}
        match collector::first_reused(before) {
            Some(name) => {
                let (i, j) = choose|i: int, j: int|
                    0 <= i < j < before.len() && #[trigger] before[i] == name && #[trigger] before[j] == name;
                assert(names[i] == name && names[j] == name);
            },
            None => {
                if before.contains(names.last()) {
                    let i = choose|i: int| 0 <= i < before.len() && before[i] == names.last();
                    assert(names[i] == names[last]);
                } else {
                    assert forall|i: int, j: int|
                        0 <= i < names.len() && 0 <= j < names.len() && i != j implies names[i] != names[j] by {
                        if i == last {
                            assert(before.contains(before[j]));
                        } else if j == last {
                            assert(before.contains(before[i]));
                        }
                    }
                }
            },
        }
    }
}

/// Where a family stands: at a place that has its name, and nowhere only where no place has.
pub proof fn families_are_found_by_name(families: collector::FamiliesView, name: Seq<char>)
    ensures
        match collector::family_position(families, name) {
            Some(i) => 0 <= i < families.len() && families[i].0 == name,
            None => forall|i: int| 0 <= i < families.len() ==> (#[trigger] families[i]).0 != name,
        },
    decreases families.len(),
{
    if families.len() > 0 {
        families_are_found_by_name(families.drop_last(), name);
        if collector::family_position(families, name) is None {
            assert forall|i: int| 0 <= i < families.len() implies (#[trigger] families[i]).0 != name by {
                if i < families.len() - 1 {
                    assert(families[i] == families.drop_last()[i]);
                }
            }
        }
    }
}

/// A scraped metric joins the family of its name, which then has its points too, behind those it had;
/// where there is none yet, the metric is one of its own. It is refused where it has no name, and where the
/// family of that name has another identity or kind. The first scrape that fails is the error.
pub proof fn scrapes_join_their_family(scrapes: Seq<collector::ScrapeView>, scrape: collector::ScrapeView)
    ensures
        collector::families_of(Seq::empty()) == Ok::<collector::FamiliesView, error::ErrorView>(Seq::empty()),
        ({
            let after = collector::families_of(scrapes.push(scrape));
            match collector::families_of(scrapes) {
                Err(error) => after == Err::<collector::FamiliesView, error::ErrorView>(error),
                Ok(families) => match scrape {
                    Err(error) => after == Err::<collector::FamiliesView, error::ErrorView>(error),
                    Ok(None) => after == Ok::<collector::FamiliesView, error::ErrorView>(families),
                    Ok(Some(metric)) => match exposition::family_name(metric) {
                        Err(error) => after == Err::<collector::FamiliesView, error::ErrorView>(
                            error::ErrorView::Prometheus(error),
                        ),
                        Ok(name) => match collector::family_position(families, name) {
                            Some(i) => {
                                let family = families[i].1;
                                if family.id == metric.id && family.kind == metric.kind {
                                    &&& after is Ok
                                    &&& after->Ok_0.len() == families.len()
                                    &&& after->Ok_0[i].0 == name
                                    &&& after->Ok_0[i].1.id == metric.id
                                    &&& after->Ok_0[i].1.kind == metric.kind
                                    &&& after->Ok_0[i].1.points == family.points + metric.points
                                    &&& forall|j: int|
                                        0 <= j < families.len() && j != i ==> #[trigger] after->Ok_0[j]
                                            == families[j]
                                } else {
                                    after == Err::<collector::FamiliesView, error::ErrorView>(
                                        error::ErrorView::Prometheus(
                                            prometheus::ErrorView::FamilyCollision(name),
                                        ),
                                    )
                                }
                            },
                            None => after is Ok && after->Ok_0.to_multiset() == families.to_multiset().insert(
                                (name, metric),
                            ),
                        },
                    },
                },
            }
        }),
{
    assert(scrapes.push(scrape).drop_last() =~= scrapes);
    if let Ok(families) = collector::families_of(scrapes) {
        if let Ok(Some(metric)) = scrape {
            if let Ok(name) = exposition::family_name(metric) {
                families_are_found_by_name(families, name);
                lemma_inserted(families, (name, metric));
            }
        }
    }
}

proof fn lemma_inserted(list: collector::FamiliesView, item: (Seq<char>, exposition::MetricView))
    ensures
        order::inserted(list, item).to_multiset() =~= list.to_multiset().insert(item),
    decreases list.len(),
{
    broadcast use group_to_multiset_ensures;

    if list.len() > 0 {
        lemma_inserted(list.drop_last(), item);
        assert(list =~= list.drop_last().push(list.last()));
    }
}

/// A scrape prints family after family; the first that cannot be rendered is the error.
pub proof fn families_follow_one_another(
    families: collector::FamiliesView,
    family: (Seq<char>, exposition::MetricView),
)
    ensures
        collector::families_text(Seq::empty()) == Ok::<Seq<char>, error::ErrorView>(Seq::empty()),
        collector::families_text(families.push(family)) == match (
            collector::families_text(families),
            exposition::metric_text(family.1),
        ) {
            (Err(error), _) => Err::<Seq<char>, error::ErrorView>(error),
            (Ok(_), Err(error)) => Err(error::ErrorView::Prometheus(error)),
            (Ok(before), Ok(rendered)) => Ok(before + rendered),
        },
{
    assert(families.push(family).drop_last() =~= families);
}

/// Every message names what it is about: the metric first, then the label or the labels.
pub proof fn messages_name_their_subject(metric: Seq<char>, label: Seq<char>)
    ensures
        prometheus::error_text(prometheus::ErrorView::EmptyMetricName)
            == "prometheus metric name must not be empty"@,
        prometheus::error_text(prometheus::ErrorView::EmptyLabelName(metric)) == "metric '"@ + metric
            + "': prometheus label name must not be empty"@,
        prometheus::error_text(prometheus::ErrorView::FamilyCollision(metric))
            == "distinct metrics collide on prometheus family name '"@ + metric + "'"@,
        prometheus::error_text(prometheus::ErrorView::LabelCollision(label, metric)) == "metric '"@ + metric
            + "': attribute keys collide on prometheus label name '"@ + label + "'"@,
        prometheus::error_text(prometheus::ErrorView::DuplicateSeries(label, metric)) == "metric '"@ + metric
            + "': duplicate time series with labels '"@ + label + "'"@,
        prometheus::error_text(prometheus::ErrorView::NonFiniteBoundary(metric)) == "metric '"@ + metric
            + "': non-finite prometheus histogram boundary"@,
{
}

/// What exposed values are said to hold, their fields hold: no field stands for another.
pub proof fn points_are_seen_as_they_are(
    histogram: exposition::HistogramValue,
    point: exposition::DataPoint,
    metric: exposition::Metric,
)
    ensures
        histogram@.count == histogram.count,
        histogram@.sum == histogram.sum@,
        histogram@.bucket_counts == histogram.bucket_counts@,
        histogram@.boundaries.len() == histogram.boundaries@.len(),
        forall|i: int|
            0 <= i < histogram.boundaries@.len() ==> #[trigger] histogram@.boundaries[i]
                == histogram.boundaries@[i]@,
        point@.attrs == model::attrs_view(point.attrs@),
        point.value matches exposition::DataPointValue::Number(value) ==> point@.value
            == DataPointValueView::Number(value@),
        point.value matches exposition::DataPointValue::Histogram(value) ==> point@.value
            == DataPointValueView::Histogram(value@),
        metric@.id == metric.id@,
        metric@.kind == metric.kind,
        metric@.points.len() == metric.points@.len(),
        forall|i: int| 0 <= i < metric.points@.len() ==> #[trigger] metric@.points[i] == metric.points@[i]@,
{
}

} // verus!
