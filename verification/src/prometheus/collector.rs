//! A collector that is read by scrapes.

use crate::atomic::Record;
use crate::attr_map;
use crate::attr_map::Entry;
use crate::bucket_map;
use crate::collect::{AddSource, Handle};
use crate::dto::Kind;
use crate::error;
use crate::error::Error;
use crate::model;
use crate::model::NameIdentity;
use crate::observe::{MetricSource, Mode};
use crate::order;
use crate::order::Named;
use crate::prometheus;
use crate::prometheus::dto;
use crate::prometheus::dto::{DataPoint, IntoDataPointValue, Metric};
use crate::prometheus::Error as PrometheusError;
use crate::text;
use std::sync::Arc;
use vstd::prelude::*;
use vstd::string::*;

verus! {

/// What a scrape of one source gives: a metric family, nothing where nothing was recorded, or an
/// error.
pub type ScrapeView = Result<Option<dto::MetricView>, error::ErrorView>;

/// A registered metric source that a scrape can read. What is promised of it is up to the source: one
/// that is shared may change from one scrape to the next.
pub trait Source {
    open spec fn wf(&self) -> bool {
        true
    }

    /// Whether a scrape may give this.
    open spec fn may_give(&self, scrape: ScrapeView) -> bool {
        true
    }

    /// Reads the source's current state as a metric family, or nothing where nothing was recorded.
    fn scrape(&self) -> (r: Result<Option<Metric>, Error>)
        requires
            self.wf(),
        ensures
            self.may_give(scrape_view(r)),
    ;
}

/// What the result of a scrape holds.
pub open spec fn scrape_view(result: Result<Option<Metric>, Error>) -> ScrapeView {
    match result {
        Ok(Some(metric)) => Ok(Some(metric@)),
        Ok(None) => Ok(None),
        Err(error) => Err(error@),
    }
}

/// A metric source that a scrape reads as it is.
pub struct SourceHandle<Src: MetricSource> {
    pub source: Src,
}

/// The sample of one reading.
pub open spec fn sample_of<S: IntoDataPointValue>(
    reading: (Seq<model::KeyValueView>, S::V),
    id: model::NameIdentityView,
) -> Result<Option<dto::DataPointView>, error::ErrorView> {
    match S::data_point_value(reading.1, id) {
        Ok(value) => Ok(Some(dto::DataPointView { attrs: reading.0, value })),
        Err(error) => Err(error),
    }
}

/// The family of a list of readings.
pub open spec fn family_of<S: IntoDataPointValue>(
    readings: Seq<(Seq<model::KeyValueView>, S::V)>,
    id: model::NameIdentityView,
    kind: Kind,
) -> ScrapeView {
    match order::gathered(readings, |reading: (Seq<model::KeyValueView>, S::V)| sample_of::<S>(reading, id)) {
        Err(error) => Err(error),
        Ok(points) => if points.len() == 0 {
            Ok(None)
        } else {
            Ok(Some(dto::MetricView { id, kind, points }))
        },
    }
}

/// A scrape reports every cell of a source as it is: one sample for each, with its attributes and value.
/// Where there is none, it reports nothing.
pub proof fn cells_are_scraped_as_they_are<S: IntoDataPointValue>(
    readings: Seq<(Seq<model::KeyValueView>, S::V)>,
    id: model::NameIdentityView,
    kind: Kind,
)
    requires
        forall|i: int| 0 <= i < readings.len() ==> S::data_point_value((#[trigger] readings[i]).1, id) is Ok,
    ensures
        readings.len() == 0 ==> family_of::<S>(readings, id, kind) == Ok::<
            Option<dto::MetricView>,
            error::ErrorView,
        >(None),
        readings.len() > 0 ==> {
            &&& family_of::<S>(readings, id, kind) is Ok
            &&& family_of::<S>(readings, id, kind)->Ok_0 is Some
            &&& ({
                let family = family_of::<S>(readings, id, kind)->Ok_0->0;
                &&& family.id == id
                &&& family.kind == kind
                &&& family.points.len() == readings.len()
                &&& forall|i: int|
                    0 <= i < readings.len() ==> #[trigger] family.points[i] == (dto::DataPointView {
                        attrs: readings[i].0,
                        value: S::data_point_value(readings[i].1, id)->Ok_0,
                    })
            })
        },
{
    let give = |reading: (Seq<model::KeyValueView>, S::V)| sample_of::<S>(reading, id);
    assert forall|i: int| 0 <= i < readings.len() implies (#[trigger] give(readings[i])) is Ok && give(
        readings[i],
    )->Ok_0 is Some by {
        assert(S::data_point_value(readings[i].1, id) is Ok);
    }
    order::gathered_keeps_all(readings, give);
    let points = order::gathered(readings, give)->Ok_0;
    assert forall|i: int| 0 <= i < readings.len() implies #[trigger] points[i] == (dto::DataPointView {
        attrs: readings[i].0,
        value: S::data_point_value(readings[i].1, id)->Ok_0,
    }) by {
        assert(points[i] == give(readings[i])->Ok_0->0);
    }
}

/// Makes a metric family of what was read of a source, or nothing where nothing was recorded.
pub fn to_family<S: IntoDataPointValue>(id: &Arc<NameIdentity>, kind: Kind, readings: Vec<Entry<S>>) -> (r:
    Result<Option<Metric>, Error>)
    ensures
        scrape_view(r) == family_of::<S>(
            bucket_map::states(attr_map::entries_view(readings@)),
            id@,
            kind,
        ),
{
    let ghost all = bucket_map::states(attr_map::entries_view(readings@));
    let ghost give = |reading: (Seq<model::KeyValueView>, S::V)| sample_of::<S>(reading, id@);
    let mut rest = order::reversed(readings);
    let mut points: Vec<DataPoint> = Vec::new();
    assert(all.take(0) =~= Seq::empty());
    assert(order::views(points@) =~= Seq::<dto::DataPointView>::empty());
    while rest.len() > 0
        invariant
            rest@.len() <= all.len(),
            all == bucket_map::states(attr_map::entries_view(readings@)),
            give == (|reading: (Seq<model::KeyValueView>, S::V)| sample_of::<S>(reading, id@)),
            forall|k: int|
                0 <= k < rest@.len() ==> all[all.len() - 1 - k] == (
                    model::attrs_view((#[trigger] rest@[k]).attrs@),
                    rest@[k].value@,
                ),
            order::gathered(all.take(all.len() - rest@.len()), give) == Ok::<
                Seq<dto::DataPointView>,
                error::ErrorView,
            >(order::views(points@)),
        decreases rest@.len(),
    {
        let ghost done = all.len() - rest@.len();
        if let Some(entry) = rest.pop() {
            assert(all.take(done + 1).drop_last() =~= all.take(done));
            assert(all.take(done + 1).last() == (model::attrs_view(entry.attrs@), entry.value@));
            match entry.value.into_data_point_value(id) {
                Ok(value) => {
                    let ghost before = order::views(points@);
                    let point = DataPoint { attrs: entry.attrs, value };
                    points.push(point);
                    assert(order::views(points@) =~= before.push(point@));
                },
                Err(error) => {
                    proof {
                        order::lemma_gathered_error(all, give, done + 1);
                    }
                    return Err(error);
                },
            }
        }
    }
    assert(all.take(all.len() as int) =~= all);
    if points.len() == 0 {
        return Ok(None);
    }
    Ok(Some(Metric { id: model::share(id), kind, points }))
}

/// Reads a source's current state as a metric family, or nothing where nothing was recorded.
pub fn scrape_source<Src: MetricSource>(source: &Src) -> (r: Result<Option<Metric>, Error>) where
    <Src::Cell as Record<Src::Measure>>::Snapshot: IntoDataPointValue,

    requires
        source.wf(),
    ensures
        scrape_view(r) == family_of::<<Src::Cell as Record<Src::Measure>>::Snapshot>(
            bucket_map::readings::<Src::Measure, Src::Cell>(source.cells()),
            source.identity(),
            source.metric_kind(),
        ),
{
    to_family(source.id(), source.kind(), source.buckets().readings())
}

impl<Src: MetricSource> Source for SourceHandle<Src> where
    <Src::Cell as Record<Src::Measure>>::Snapshot: IntoDataPointValue,
 {
    open spec fn wf(&self) -> bool {
        self.source.wf()
    }

    /// The current state, as it is.
    open spec fn may_give(&self, scrape: ScrapeView) -> bool {
        scrape == family_of::<<Src::Cell as Record<Src::Measure>>::Snapshot>(
            bucket_map::readings::<Src::Measure, Src::Cell>(self.source.cells()),
            self.source.identity(),
            self.source.metric_kind(),
        )
    }

    fn scrape(&self) -> (r: Result<Option<Metric>, Error>) {
        scrape_source(&self.source)
    }
}

/// Families under their names.
pub type FamiliesView = Seq<(Seq<char>, dto::MetricView)>;

/// The position of the family of a name.
pub open spec fn family_position(families: FamiliesView, name: Seq<char>) -> Option<int>
    decreases families.len(),
{
    if families.len() == 0 {
        None
    } else if families.last().0 == name {
        Some(families.len() - 1)
    } else {
        family_position(families.drop_last(), name)
    }
}

/// Families with one more metric: it joins the family of its name where identity and kind agree. Where
/// they do not, that is an error.
pub open spec fn joined(families: FamiliesView, metric: dto::MetricView) -> Result<
    FamiliesView,
    error::ErrorView,
> {
    match dto::family_name(metric) {
        Err(error) => Err(error::ErrorView::Prometheus(error)),
        Ok(name) => match family_position(families, name) {
            Some(i) => if families[i].1.id != metric.id || families[i].1.kind != metric.kind {
                Err(error::ErrorView::Prometheus(prometheus::ErrorView::FamilyCollision(name)))
            } else {
                Ok(
                    families.update(
                        i,
                        (
                            name,
                            dto::MetricView {
                                points: families[i].1.points + metric.points,
                                ..families[i].1
                            },
                        ),
                    ),
                )
            },
            None => Ok(order::inserted(families, (name, metric))),
        },
    }
}

/// The families of a list of scrapes, in the order of their names.
pub open spec fn families_of(scrapes: Seq<ScrapeView>) -> Result<FamiliesView, error::ErrorView>
    decreases scrapes.len(),
{
    if scrapes.len() == 0 {
        Ok(Seq::empty())
    } else {
        match families_of(scrapes.drop_last()) {
            Err(error) => Err(error),
            Ok(families) => match scrapes.last() {
                Err(error) => Err(error),
                Ok(None) => Ok(families),
                Ok(Some(metric)) => joined(families, metric),
            },
        }
    }
}

/// What stands behind the family name in the names of its samples.
pub open spec fn suffixes(kind: Kind) -> Seq<Seq<char>> {
    match kind {
        Kind::Histogram => seq![""@, "_bucket"@, "_sum"@, "_count"@],
        _ => seq![""@],
    }
}

/// The sample names of a family.
pub open spec fn sample_names(family: (Seq<char>, dto::MetricView)) -> Seq<Seq<char>> {
    suffixes(family.1.kind).map_values(|suffix: Seq<char>| family.0 + suffix)
}

/// The sample names of all families.
pub open spec fn all_sample_names(families: FamiliesView) -> Seq<Seq<char>>
    decreases families.len(),
{
    if families.len() == 0 {
        Seq::empty()
    } else {
        all_sample_names(families.drop_last()) + sample_names(families.last())
    }
}

/// The first name that occurred before.
pub open spec fn first_reused(names: Seq<Seq<char>>) -> Option<Seq<char>>
    decreases names.len(),
{
    if names.len() == 0 {
        None
    } else {
        match first_reused(names.drop_last()) {
            Some(name) => Some(name),
            None => if names.drop_last().contains(names.last()) {
                Some(names.last())
            } else {
                None
            },
        }
    }
}

/// The text of all families.
pub open spec fn families_text(families: FamiliesView) -> Result<Seq<char>, error::ErrorView>
    decreases families.len(),
{
    if families.len() == 0 {
        Ok(Seq::empty())
    } else {
        match families_text(families.drop_last()) {
            Err(error) => Err(error),
            Ok(text) => match dto::metric_text(families.last().1) {
                Err(error) => Err(error::ErrorView::Prometheus(error)),
                Ok(family) => Ok(text + family),
            },
        }
    }
}

/// The text of a scrape.
pub open spec fn scrape_text(scrapes: Seq<ScrapeView>) -> Result<Seq<char>, error::ErrorView> {
    match families_of(scrapes) {
        Err(error) => Err(error),
        Ok(families) => match first_reused(all_sample_names(families)) {
            Some(name) => Err(
                error::ErrorView::Prometheus(prometheus::ErrorView::FamilyCollision(name)),
            ),
            None => families_text(families),
        },
    }
}

fn find_family(families: &Vec<Named<Metric>>, name: &str) -> (r: Option<usize>)
    ensures
        match r {
            Some(i) => family_position(order::views(families@), name@) == Some(i as int) && i
                < families@.len(),
            None => family_position(order::views(families@), name@) is None,
        },
{
    let ghost all = order::views(families@);
    let mut left: usize = families.len();
    assert(all.take(left as int) =~= all);
    while left > 0
        invariant
            left <= families@.len(),
            all == order::views(families@),
            family_position(all, name@) == family_position(all.take(left as int), name@),
        decreases left,
    {
        assert(all.take(left as int).last() == families@[left - 1]@);
        assert(all.take(left as int).drop_last() =~= all.take(left - 1));
        if text::same_text(families[left - 1].name.as_str(), name) {
            return Some(left - 1);
        }
        left = left - 1;
    }
    None
}

fn append_points(points: &mut Vec<DataPoint>, more: Vec<DataPoint>)
    ensures
        order::views(final(points)@) == order::views(old(points)@) + order::views(more@),
{
    let ghost all = more@;
    let mut rest = order::reversed(more);
    assert(order::views(points@) =~= order::views(old(points)@) + order::views(all.take(0)));
    while rest.len() > 0
        invariant
            rest@.len() <= all.len(),
            forall|k: int| 0 <= k < rest@.len() ==> #[trigger] rest@[k] == all[all.len() - 1 - k],
            order::views(points@) == order::views(old(points)@) + order::views(
                all.take(all.len() - rest@.len()),
            ),
        decreases rest@.len(),
    {
        let ghost done = all.len() - rest@.len();
        if let Some(point) = rest.pop() {
            let ghost before = order::views(points@);
            points.push(point);
            assert(order::views(points@) =~= before.push(point@));
            assert(all.take(done + 1) =~= all.take(done).push(point));
            assert(order::views(all.take(done + 1)) =~= order::views(all.take(done)).push(point@));
            assert(order::views(points@) =~= order::views(old(points)@) + order::views(all.take(done + 1)));
        }
    }
    assert(all.take(all.len() as int) =~= all);
}

/// Adds a metric to the families.
fn join(families: &mut Vec<Named<Metric>>, metric: Metric) -> (r: Result<(), Error>)
    ensures
        match r {
            Ok(()) => joined(order::views(old(families)@), metric@) == Ok::<FamiliesView, error::ErrorView>(
                order::views(final(families)@),
            ),
            Err(error) => joined(order::views(old(families)@), metric@) == Err::<
                FamiliesView,
                error::ErrorView,
            >(error@),
        },
{
    let ghost before = order::views(families@);
    let name = match metric.family_name() {
        Ok(name) => name,
        Err(error) => {
            return Err(Error::Prometheus(error));
        },
    };
    match find_family(families, name.as_str()) {
        Some(i) => {
            assert(before[i as int] == families@[i as int]@);
            if *families[i].item.id != *metric.id || families[i].item.kind != metric.kind {
                return Err(Error::Prometheus(PrometheusError::FamilyCollision(name)));
            }
            let ghost added = metric@.points;
            let family = &mut families[i];
            append_points(&mut family.item.points, metric.points);
            proof {
                lemma_family_position(before, name@);
                assert(order::views(families@) =~= before.update(
                    i as int,
                    (
                        name@,
                        dto::MetricView {
                            points: before[i as int].1.points + added,
                            ..before[i as int].1
                        },
                    ),
                ));
            }
        },
        None => order::insert(families, Named { name, item: metric }),
    }
    Ok(())
}

fn is_among(names: &Vec<String>, name: &str) -> (r: bool)
    ensures
        r == order::views(names@).contains(name@),
{
    let mut i: usize = 0;
    while i < names.len()
        invariant
            i <= names@.len(),
            forall|j: int| 0 <= j < i ==> (#[trigger] names@[j])@ != name@,
        decreases names@.len() - i,
    {
        if text::same_text(names[i].as_str(), name) {
            assert(order::views(names@)[i as int] == name@);
            return true;
        }
        i = i + 1;
    }
    assert forall|j: int| 0 <= j < names@.len() implies #[trigger] order::views(names@)[j] != name@ by {
        assert(names@[j]@ != name@);
    }
    false
}

/// Adds a sample name to those emitted.
fn emit(emitted: &mut Vec<String>, family: &str, suffix: &str) -> (r: Result<(), Error>)
    requires
        first_reused(order::views(old(emitted)@)) is None,
    ensures
        order::views(final(emitted)@) == order::views(old(emitted)@).push(family@ + suffix@),
        match r {
            Ok(()) => first_reused(order::views(final(emitted)@)) is None,
            Err(error) => first_reused(order::views(final(emitted)@)) == Some(family@ + suffix@) && error@
                == error::ErrorView::Prometheus(
                prometheus::ErrorView::FamilyCollision(family@ + suffix@),
            ),
        },
{
    let mut sample = family.to_owned();
    sample.append(suffix);
    let reused = is_among(emitted, sample.as_str());
    let error = Error::Prometheus(PrometheusError::FamilyCollision(sample.clone()));
    let ghost before = order::views(emitted@);
    emitted.push(sample);
    assert(order::views(emitted@) =~= before.push(family@ + suffix@));
    assert(before.push(family@ + suffix@).drop_last() =~= before);
    if reused {
        Err(error)
    } else {
        Ok(())
    }
}

proof fn lemma_first_reused_extends(names: Seq<Seq<char>>, more: Seq<Seq<char>>)
    requires
        first_reused(names) is Some,
    ensures
        first_reused(names + more) == first_reused(names),
    decreases more.len(),
{
    if more.len() == 0 {
        assert(names + more =~= names);
    } else {
        assert((names + more).drop_last() =~= names + more.drop_last());
        lemma_first_reused_extends(names, more.drop_last());
    }
}

/// Adds the sample names of a family to those emitted.
fn emit_family(emitted: &mut Vec<String>, family: &Named<Metric>) -> (r: Result<(), Error>)
    requires
        first_reused(order::views(old(emitted)@)) is None,
    ensures
        match r {
            Ok(()) => order::views(final(emitted)@) == order::views(old(emitted)@) + sample_names(family@)
                && first_reused(order::views(final(emitted)@)) is None,
            Err(error) => ({
                let reused = first_reused(order::views(old(emitted)@) + sample_names(family@));
                &&& reused is Some
                &&& error@ == error::ErrorView::Prometheus(
                    prometheus::ErrorView::FamilyCollision(reused->0),
                )
            }),
        },
{
    let kind = family.item.kind;
    let suffixes: Vec<&'static str> = match kind {
        Kind::Histogram => vec!["", "_bucket", "_sum", "_count"],
        _ => vec![""],
    };
    let ghost names = sample_names(family@);
    let ghost before = order::views(emitted@);
    assert(order::views(suffixes@) =~= self::suffixes(kind));
    let mut i: usize = 0;
    assert(order::views(emitted@) =~= before + names.take(0));
    while i < suffixes.len()
        invariant
            i <= suffixes@.len(),
            order::views(suffixes@) == self::suffixes(kind),
            kind == family.item.kind,
            names == sample_names(family@),
            before == order::views(old(emitted)@),
            order::views(emitted@) == before + names.take(i as int),
            first_reused(order::views(emitted@)) is None,
        decreases suffixes@.len() - i,
    {
        proof {
            assert(order::views(suffixes@)[i as int] == suffixes@[i as int]@);
            assert(names[i as int] == family.name@ + suffixes@[i as int]@);
            assert(names.take(i + 1) =~= names.take(i as int).push(names[i as int]));
            assert((before + names.take(i as int)).push(names[i as int]) =~= before + names.take(i + 1));
            assert(before + names =~= (before + names.take(i + 1)) + names.skip(i + 1));
        }
        match emit(emitted, family.name.as_str(), suffixes[i]) {
            Ok(()) => {},
            Err(error) => {
                proof {
                    lemma_first_reused_extends(before + names.take(i + 1), names.skip(i + 1));
                }
                return Err(error);
            },
        }
        i = i + 1;
    }
    assert(names.take(i as int) =~= names);
    Ok(())
}

pub(crate) proof fn lemma_family_position(families: FamiliesView, name: Seq<char>)
    ensures
        match family_position(families, name) {
            Some(i) => 0 <= i < families.len() && families[i].0 == name,
            None => forall|i: int| 0 <= i < families.len() ==> (#[trigger] families[i]).0 != name,
        },
    decreases families.len(),
{
    if families.len() > 0 && families.last().0 != name {
        lemma_family_position(families.drop_last(), name);
        if family_position(families, name) is None {
            assert forall|i: int| 0 <= i < families.len() implies (#[trigger] families[i]).0 != name by {
                if i < families.len() - 1 {
                    assert(families.drop_last()[i].0 != name);
                }
            }
        }
    }
}

proof fn lemma_sample_names_prefix(families: FamiliesView, n: int)
    requires
        0 <= n <= families.len(),
    ensures
        exists|more: Seq<Seq<char>>| all_sample_names(families) == #[trigger] (all_sample_names(
            families.take(n),
        ) + more),
    decreases families.len() - n,
{
    if n == families.len() {
        assert(families.take(n) =~= families);
        let more = Seq::<Seq<char>>::empty();
        assert(all_sample_names(families) =~= all_sample_names(families.take(n)) + more);
    } else {
        lemma_sample_names_prefix(families, n + 1);
        let rest = choose|rest: Seq<Seq<char>>| all_sample_names(families) == #[trigger] (all_sample_names(
            families.take(n + 1),
        ) + rest);
        assert(families.take(n + 1).drop_last() =~= families.take(n));
        let more = sample_names(families.take(n + 1).last()) + rest;
        assert(all_sample_names(families) =~= all_sample_names(families.take(n)) + more);
    }
}

/// Checks that no two families emit a sample of the same name.
fn check_samples(families: &Vec<Named<Metric>>) -> (r: Result<(), Error>)
    ensures
        match r {
            Ok(()) => first_reused(all_sample_names(order::views(families@))) is None,
            Err(error) => ({
                let reused = first_reused(all_sample_names(order::views(families@)));
                &&& reused is Some
                &&& error@ == error::ErrorView::Prometheus(
                    prometheus::ErrorView::FamilyCollision(reused->0),
                )
            }),
        },
{
    let ghost all = order::views(families@);
    let mut emitted: Vec<String> = Vec::new();
    let mut i: usize = 0;
    assert(order::views(emitted@) =~= all_sample_names(all.take(0)));
    while i < families.len()
        invariant
            i <= families@.len(),
            all == order::views(families@),
            order::views(emitted@) == all_sample_names(all.take(i as int)),
            first_reused(order::views(emitted@)) is None,
        decreases families@.len() - i,
    {
        proof {
            assert(all.take(i + 1).drop_last() =~= all.take(i as int));
            assert(all.take(i + 1).last() == families@[i as int]@);
        }
        match emit_family(&mut emitted, &families[i]) {
            Ok(()) => {},
            Err(error) => {
                proof {
                    lemma_sample_names_prefix(all, i + 1);
                    let more = choose|more: Seq<Seq<char>>| all_sample_names(all) == #[trigger] (
                    all_sample_names(all.take(i + 1)) + more);
                    lemma_first_reused_extends(all_sample_names(all.take(i + 1)), more);
                }
                return Err(error);
            },
        }
        i = i + 1;
    }
    assert(all.take(i as int) =~= all);
    Ok(())
}

proof fn lemma_families_text_error(families: FamiliesView, n: int)
    requires
        0 <= n <= families.len(),
        families_text(families.take(n)) is Err,
    ensures
        families_text(families) == families_text(families.take(n)),
    decreases families.len() - n,
{
    if n == families.len() {
        assert(families.take(n) =~= families);
    } else {
        assert(families.take(n + 1).drop_last() =~= families.take(n));
        lemma_families_text_error(families, n + 1);
    }
}

fn render_families(families: &Vec<Named<Metric>>) -> (r: Result<String, Error>)
    ensures
        match r {
            Ok(text) => families_text(order::views(families@)) == Ok::<Seq<char>, error::ErrorView>(text@),
            Err(error) => families_text(order::views(families@)) == Err::<Seq<char>, error::ErrorView>(
                error@,
            ),
        },
{
    let ghost all = order::views(families@);
    let mut out = String::new();
    let mut i: usize = 0;
    assert(out@ =~= Seq::<char>::empty());
    while i < families.len()
        invariant
            i <= families@.len(),
            all == order::views(families@),
            families_text(all.take(i as int)) == Ok::<Seq<char>, error::ErrorView>(out@),
        decreases families@.len() - i,
    {
        proof {
            assert(all.take(i + 1).drop_last() =~= all.take(i as int));
            assert(all.take(i + 1).last() == families@[i as int]@);
        }
        match families[i].item.render_into(&mut out) {
            Ok(()) => {},
            Err(error) => {
                proof {
                    lemma_families_text_error(all, i + 1);
                }
                return Err(Error::Prometheus(error));
            },
        }
        i = i + 1;
    }
    assert(all.take(i as int) =~= all);
    Ok(out)
}

/// Checks and renders families.
pub fn finish(families: &Vec<Named<Metric>>) -> (r: Result<String, Error>)
    ensures
        match first_reused(all_sample_names(order::views(families@))) {
            Some(name) => r is Err && r->Err_0@ == error::ErrorView::Prometheus(
                prometheus::ErrorView::FamilyCollision(name),
            ),
            None => match r {
                Ok(text) => families_text(order::views(families@)) == Ok::<Seq<char>, error::ErrorView>(
                    text@,
                ),
                Err(error) => families_text(order::views(families@)) == Err::<
                    Seq<char>,
                    error::ErrorView,
                >(error@),
            },
        },
{
    match check_samples(families) {
        Ok(()) => render_families(families),
        Err(error) => Err(error),
    }
}

/// A collector that is read by scrapes.
///
/// Instead of pushing batches on a timer, it holds the registered sources until it is rendered, and
/// then reports their current state in the text exposition format. There are no observers and no
/// observation mode involved: a scrape reads the metric values as they are, which is exactly the
/// cumulative view that Prometheus expects.
pub struct Collector<S: Source> {
    sources: Vec<S>,
}

impl<S: Source> View for Collector<S> {
    type V = Seq<S>;

    closed spec fn view(&self) -> Seq<S> {
        self.sources@
    }
}

/// Whether scrapes are those of a list of sources: of all of them, or of the first ones up to an error.
pub open spec fn are_scrapes_of<S: Source>(scrapes: Seq<ScrapeView>, sources: Seq<S>) -> bool {
    &&& scrapes.len() <= sources.len()
    &&& forall|i: int| 0 <= i < scrapes.len() ==> sources[i].may_give(#[trigger] scrapes[i])
    &&& scrapes.len() == sources.len() || families_of(scrapes) is Err
}

impl<S: Source> Collector<S> {
    /// An empty collector.
    pub fn new() -> (r: Collector<S>)
        ensures
            r@ == Seq::<S>::empty(),
    {
        Collector { sources: Vec::new() }
    }

    /// Whether every source is valid.
    pub open spec fn wf(&self) -> bool {
        forall|i: int| 0 <= i < self@.len() ==> (#[trigger] self@[i]).wf()
    }

    /// Adds a metric source. Every scrape reports the source's current state as it is, so unlike with
    /// collectors that push there is no mode.
    pub fn add(&mut self, source: S)
        ensures
            final(self)@ == old(self)@.push(source),
    {
        self.sources.push(source);
    }

    /// Reads every registered source and renders the result in the text exposition format
    /// (version 0.0.4).
    ///
    /// Metrics with the same rendered name are merged only where their identity and kind match. Any
    /// other collision, also of the suffixes of histograms, is an error.
    ///
    /// Families are sorted by name, so the output is deterministic. Without sources it is empty.
    pub fn render(&self) -> (r: Result<String, Error>)
        requires
            self.wf(),
        ensures
            exists|scrapes: Seq<ScrapeView>| #[trigger]
                are_scrapes_of(scrapes, self@) && match r {
                    Ok(text) => scrape_text(scrapes) == Ok::<Seq<char>, error::ErrorView>(text@),
                    Err(error) => scrape_text(scrapes) == Err::<Seq<char>, error::ErrorView>(error@),
                },
    {
        let ghost mut scrapes: Seq<ScrapeView> = Seq::empty();
        let mut families: Vec<Named<Metric>> = Vec::new();
        let mut i: usize = 0;
        assert(order::views(families@) =~= Seq::<(Seq<char>, dto::MetricView)>::empty());
        while i < self.sources.len()
            invariant
                self.wf(),
                i <= self.sources@.len(),
                scrapes.len() == i,
                forall|j: int| 0 <= j < scrapes.len() ==> self@[j].may_give(#[trigger] scrapes[j]),
                families_of(scrapes) == Ok::<FamiliesView, error::ErrorView>(order::views(families@)),
            decreases self.sources@.len() - i,
        {
            let ghost before = scrapes;
            assert(self@[i as int].wf());
            let scrape = self.sources[i].scrape();
            proof {
                scrapes = scrapes.push(scrape_view(scrape));
                assert(scrapes.drop_last() =~= before);
                assert forall|j: int| 0 <= j < scrapes.len() implies self@[j].may_give(
                    #[trigger] scrapes[j],
                ) by {
                    if j < i {
                        assert(scrapes[j] == before[j]);
                    }
                }
            }
            match scrape {
                Err(error) => {
                    assert(are_scrapes_of(scrapes, self@));
                    return Err(error);
                },
                Ok(None) => {},
                Ok(Some(metric)) => match join(&mut families, metric) {
                    Ok(()) => {},
                    Err(error) => {
                        assert(are_scrapes_of(scrapes, self@));
                        return Err(error);
                    },
                },
            }
            i = i + 1;
        }
        assert(are_scrapes_of(scrapes, self@));
        finish(&families)
    }
}

impl<S: Source> Default for Collector<S> {
    fn default() -> (r: Collector<S>)
        ensures
            r@ == Seq::<S>::empty(),
    {
        Collector::new()
    }
}

/// Scrapes report the source's current state as it is, so the observation mode, which only describes how
/// observers report, is ignored.
impl<S: Source + Handle> AddSource<S> for Collector<S> {
    open spec fn accepted(
        self,
        source: S,
        mode: Mode,
        result: Result<(), error::ErrorView>,
        after: Self,
    ) -> bool {
        result is Ok && after@ == self@.push(source)
    }

    fn add_source(&mut self, source: &S, mode: Mode) -> (r: Result<(), Error>) {
        self.add(source.share());
        Ok(())
    }
}

} // verus!
