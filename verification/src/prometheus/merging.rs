//! How the families of a scrape come about, and that the order of the sources does not matter for it.

use crate::error;
use crate::order;
use crate::prometheus;
use crate::prometheus::collector;
use crate::prometheus::collector::{FamiliesView, ScrapeView};
use crate::prometheus::dto;
use crate::text;
use vstd::multiset::*;
use vstd::prelude::*;
use vstd::seq_lib::*;

verus! {

/// Whether a scrape gave a metric of a family name.
pub open spec fn bears(scrape: ScrapeView, name: Seq<char>) -> bool {
    scrape is Ok && scrape->Ok_0 is Some && dto::family_name(scrape->Ok_0->0) == Ok::<
        Seq<char>,
        prometheus::ErrorView,
    >(name)
}

/// Whether a scrape gave nothing, or a metric that has a family name.
pub open spec fn can_be_named(scrape: ScrapeView) -> bool {
    scrape is Ok && (scrape->Ok_0 is Some ==> dto::family_name(scrape->Ok_0->0) is Ok)
}

/// Whether scrapes that gave metrics of one family name agree on identity and kind.
pub open spec fn agree(a: ScrapeView, b: ScrapeView) -> bool {
    forall|name: Seq<char>| #[trigger]
        bears(a, name) && bears(b, name) ==> a->Ok_0->0.id == b->Ok_0->0.id && a->Ok_0->0.kind
            == b->Ok_0->0.kind
}

/// Whether scrapes can be merged into families: each gave nothing or a metric that has a family name,
/// and those that share a family name agree.
pub open spec fn can_merge(scrapes: Seq<ScrapeView>) -> bool {
    &&& forall|scrape: ScrapeView| #[trigger] scrapes.contains(scrape) ==> can_be_named(scrape)
    &&& forall|a: ScrapeView, b: ScrapeView|
        #![trigger scrapes.contains(a), scrapes.contains(b)]
        scrapes.contains(a) && scrapes.contains(b) ==> agree(a, b)
}

/// All samples that scrapes gave under a family name.
pub open spec fn points_under(scrapes: Seq<ScrapeView>, name: Seq<char>) -> Seq<dto::DataPointView>
    decreases scrapes.len(),
{
    if scrapes.len() == 0 {
        Seq::empty()
    } else if bears(scrapes.last(), name) {
        points_under(scrapes.drop_last(), name) + scrapes.last()->Ok_0->0.points
    } else {
        points_under(scrapes.drop_last(), name)
    }
}

/// Whether families stand in the order of their names, with no name twice.
pub open spec fn is_strictly_ordered(families: FamiliesView) -> bool {
    forall|i: int, j: int|
        0 <= i < j < families.len() ==> text::rank_text((#[trigger] families[i]).0, (#[trigger] families[j]).0)
            < 0
}

/// Whether a family is what scrapes gave under its name: the identity and kind that they gave, and all
/// their samples.
pub open spec fn is_family_of(family: (Seq<char>, dto::MetricView), scrapes: Seq<ScrapeView>) -> bool {
    &&& exists|scrape: ScrapeView| #[trigger]
        scrapes.contains(scrape) && bears(scrape, family.0) && scrape->Ok_0->0.id == family.1.id
            && scrape->Ok_0->0.kind == family.1.kind
    &&& family.1.points == points_under(scrapes, family.0)
}

/// Whether some family has a name.
pub open spec fn is_named(families: FamiliesView, name: Seq<char>) -> bool {
    exists|i: int| 0 <= i < families.len() && (#[trigger] families[i]).0 == name
}

/// Whether families are what scrapes merge into: one for every family name that they gave, in the order
/// of the names.
pub open spec fn is_merge_of(families: FamiliesView, scrapes: Seq<ScrapeView>) -> bool {
    &&& is_strictly_ordered(families)
    &&& forall|i: int| 0 <= i < families.len() ==> is_family_of(#[trigger] families[i], scrapes)
    &&& forall|scrape: ScrapeView, name: Seq<char>| #[trigger]
        scrapes.contains(scrape) && #[trigger] bears(scrape, name) ==> is_named(families, name)
}

proof fn lemma_no_points(scrapes: Seq<ScrapeView>, name: Seq<char>)
    requires
        forall|scrape: ScrapeView| #[trigger] scrapes.contains(scrape) ==> !bears(scrape, name),
    ensures
        points_under(scrapes, name) == Seq::<dto::DataPointView>::empty(),
    decreases scrapes.len(),
{
    if scrapes.len() > 0 {
        let before = scrapes.drop_last();
        assert(scrapes.contains(scrapes[scrapes.len() - 1]));
        assert forall|scrape: ScrapeView| #[trigger] before.contains(scrape) implies !bears(scrape, name) by {
            lemma_contains_last(scrapes, scrape);
        }
        lemma_no_points(before, name);
    }
}

proof fn lemma_contains_last(scrapes: Seq<ScrapeView>, scrape: ScrapeView)
    requires
        scrapes.len() > 0,
    ensures
        scrapes.contains(scrape) <==> scrapes.drop_last().contains(scrape) || scrape == scrapes.last(),
{
    if scrapes.contains(scrape) {
        let i = choose|i: int| 0 <= i < scrapes.len() && scrapes[i] == scrape;
        if i < scrapes.len() - 1 {
            assert(scrapes.drop_last()[i] == scrape);
        }
    }
    if scrapes.drop_last().contains(scrape) {
        let i = choose|i: int| 0 <= i < scrapes.len() - 1 && scrapes.drop_last()[i] == scrape;
        assert(scrapes[i] == scrape);
    }
    assert(scrapes[scrapes.len() - 1] == scrapes.last());
}

proof fn lemma_can_merge_step(scrapes: Seq<ScrapeView>)
    requires
        scrapes.len() > 0,
    ensures
        can_merge(scrapes) <==> {
            &&& can_merge(scrapes.drop_last())
            &&& can_be_named(scrapes.last())
            &&& forall|a: ScrapeView| #[trigger]
                scrapes.drop_last().contains(a) ==> agree(a, scrapes.last())
        },
{
    let before = scrapes.drop_last();
    let last = scrapes.last();
    lemma_contains_last(scrapes, last);
    if can_merge(scrapes) {
        assert forall|a: ScrapeView| #[trigger] before.contains(a) implies can_be_named(a) && agree(a, last) by {
            lemma_contains_last(scrapes, a);
        }
        assert forall|a: ScrapeView, b: ScrapeView|
            #![trigger before.contains(a), before.contains(b)]
            before.contains(a) && before.contains(b) implies agree(a, b) by {
            lemma_contains_last(scrapes, a);
            lemma_contains_last(scrapes, b);
        }
    }
    if can_merge(before) && can_be_named(last) && forall|a: ScrapeView| #[trigger]
        before.contains(a) ==> agree(a, last) {
        assert forall|a: ScrapeView| #[trigger] scrapes.contains(a) implies can_be_named(a) by {
            lemma_contains_last(scrapes, a);
        }
        assert forall|a: ScrapeView, b: ScrapeView|
            #![trigger scrapes.contains(a), scrapes.contains(b)]
            scrapes.contains(a) && scrapes.contains(b) implies agree(a, b) by {
            lemma_contains_last(scrapes, a);
            lemma_contains_last(scrapes, b);
            assert(agree(last, last));
            if a == last && b != last {
                assert(agree(b, last));
                assert forall|name: Seq<char>| #[trigger] bears(a, name) && bears(b, name) implies a->Ok_0->0.id
                    == b->Ok_0->0.id && a->Ok_0->0.kind == b->Ok_0->0.kind by {
                    assert(bears(b, name));
                }
            }
        }
    }
}

/// A family of the earlier scrapes stays one where the last scrape gave nothing under its name.
proof fn lemma_family_stays(family: (Seq<char>, dto::MetricView), scrapes: Seq<ScrapeView>)
    requires
        scrapes.len() > 0,
        is_family_of(family, scrapes.drop_last()),
        !bears(scrapes.last(), family.0),
    ensures
        is_family_of(family, scrapes),
{
    let before = scrapes.drop_last();
    let scrape = choose|scrape: ScrapeView| #[trigger]
        before.contains(scrape) && bears(scrape, family.0) && scrape->Ok_0->0.id == family.1.id
            && scrape->Ok_0->0.kind == family.1.kind;
    lemma_contains_last(scrapes, scrape);
}

proof fn lemma_merge_unchanged(families: FamiliesView, scrapes: Seq<ScrapeView>)
    requires
        scrapes.len() > 0,
        is_merge_of(families, scrapes.drop_last()),
        scrapes.last() == Ok::<Option<dto::MetricView>, error::ErrorView>(None),
    ensures
        is_merge_of(families, scrapes),
{
    assert forall|i: int| 0 <= i < families.len() implies is_family_of(#[trigger] families[i], scrapes) by {
        lemma_family_stays(families[i], scrapes);
    }
    assert forall|scrape: ScrapeView, name: Seq<char>| #[trigger]
        scrapes.contains(scrape) && #[trigger] bears(scrape, name) implies is_named(families, name) by {
        lemma_contains_last(scrapes, scrape);
    }
}

proof fn lemma_merge_updated(families: FamiliesView, scrapes: Seq<ScrapeView>, at: int)
    requires
        scrapes.len() > 0,
        is_merge_of(families, scrapes.drop_last()),
        0 <= at < families.len(),
        bears(scrapes.last(), families[at].0),
        families[at].1.id == scrapes.last()->Ok_0->0.id,
        families[at].1.kind == scrapes.last()->Ok_0->0.kind,
    ensures
        is_merge_of(
            families.update(
                at,
                (
                    families[at].0,
                    dto::MetricView {
                        points: families[at].1.points + scrapes.last()->Ok_0->0.points,
                        ..families[at].1
                    },
                ),
            ),
            scrapes,
        ),
{
    let last = scrapes.last();
    let merged = dto::MetricView {
        points: families[at].1.points + last->Ok_0->0.points,
        ..families[at].1
    };
    let after = families.update(at, (families[at].0, merged));
    lemma_contains_last(scrapes, last);
    assert forall|i: int, j: int| 0 <= i < j < after.len() implies text::rank_text(
        (#[trigger] after[i]).0,
        (#[trigger] after[j]).0,
    ) < 0 by {
        assert(text::rank_text(families[i].0, families[j].0) < 0);
    }
    assert forall|i: int| 0 <= i < after.len() implies is_family_of(#[trigger] after[i], scrapes) by {
        assert(is_family_of(families[i], scrapes.drop_last()));
        if i == at {
            assert(scrapes.contains(last));
        } else {
            text::lemma_rank_text_flip(families[at].0, families[i].0);
            if i < at {
                assert(text::rank_text(families[i].0, families[at].0) < 0);
                text::lemma_rank_text_flip(families[i].0, families[at].0);
            } else {
                assert(text::rank_text(families[at].0, families[i].0) < 0);
            }
            lemma_family_stays(families[i], scrapes);
        }
    }
    assert forall|scrape: ScrapeView, name: Seq<char>| #[trigger]
        scrapes.contains(scrape) && #[trigger] bears(scrape, name) implies is_named(after, name) by {
        lemma_contains_last(scrapes, scrape);
        if scrapes.drop_last().contains(scrape) {
            assert(is_named(families, name));
            let i = choose|i: int| 0 <= i < families.len() && (#[trigger] families[i]).0 == name;
            assert(after[i].0 == name);
        } else {
            assert(after[at].0 == name);
        }
    }
}

proof fn lemma_inserted_strictly(families: FamiliesView, family: (Seq<char>, dto::MetricView)) -> (at: int)
    requires
        is_strictly_ordered(families),
        !is_named(families, family.0),
    ensures
        0 <= at <= families.len(),
        order::inserted(families, family) == families.insert(at, family),
        is_strictly_ordered(families.insert(at, family)),
{
    assert forall|i: int, j: int| 0 <= i <= j < families.len() implies <(
        Seq<char>,
        dto::MetricView,
    ) as order::Ranked>::rank(#[trigger] families[i], #[trigger] families[j]) <= 0 by {
        text::lemma_rank_text_flip(families[i].0, families[i].0);
        if i < j {
            assert(text::rank_text(families[i].0, families[j].0) < 0);
        }
    }
    order::lemma_inserted_in_order(families, family);
    order::lemma_inserted_somewhere(families, family);
    let at = choose|at: int|
        0 <= at <= families.len() && order::inserted(families, family) == #[trigger] families.insert(at, family);
    let after = families.insert(at, family);
    assert forall|i: int, j: int| 0 <= i < j < after.len() implies text::rank_text(
        (#[trigger] after[i]).0,
        (#[trigger] after[j]).0,
    ) < 0 by {
        assert(<(Seq<char>, dto::MetricView) as order::Ranked>::rank(after[i], after[j]) <= 0);
        text::lemma_rank_text_flip(after[i].0, after[j].0);
        if i == at {
            assert(after[j] == families[j - 1]);
        } else if j == at {
            assert(after[i] == families[i]);
        } else {
            let p = if i < at { i } else { i - 1 };
            let q = if j < at { j } else { j - 1 };
            assert(after[i] == families[p] && after[j] == families[q]);
        }
    }
    at
}

proof fn lemma_families_inserted(families: FamiliesView, scrapes: Seq<ScrapeView>, name: Seq<char>, at: int)
    requires
        scrapes.len() > 0,
        is_merge_of(families, scrapes.drop_last()),
        bears(scrapes.last(), name),
        !is_named(families, name),
        0 <= at <= families.len(),
    ensures
        forall|i: int|
            0 <= i < families.len() + 1 ==> is_family_of(
                #[trigger] families.insert(at, (name, scrapes.last()->Ok_0->0))[i],
                scrapes,
            ),
{
    let before = scrapes.drop_last();
    let last = scrapes.last();
    let family = (name, last->Ok_0->0);
    let after = families.insert(at, family);
    assert forall|scrape: ScrapeView| #[trigger] before.contains(scrape) implies !bears(scrape, name) by {
        if bears(scrape, name) {
            assert(is_named(families, name));
        }
    }
    lemma_no_points(before, name);
    lemma_contains_last(scrapes, last);
    assert(family.1.points =~= points_under(scrapes, name));
    assert forall|i: int| 0 <= i < after.len() implies is_family_of(#[trigger] after[i], scrapes) by {
        if i == at {
            assert(scrapes.contains(last));
        } else {
            let p = if i < at { i } else { i - 1 };
            assert(after[i] == families[p]);
            assert(families[p].0 != name);
            lemma_family_stays(families[p], scrapes);
        }
    }
}

proof fn lemma_names_inserted(families: FamiliesView, scrapes: Seq<ScrapeView>, name: Seq<char>, at: int)
    requires
        scrapes.len() > 0,
        is_merge_of(families, scrapes.drop_last()),
        bears(scrapes.last(), name),
        0 <= at <= families.len(),
    ensures
        forall|scrape: ScrapeView, other: Seq<char>| #[trigger]
            scrapes.contains(scrape) && #[trigger] bears(scrape, other) ==> is_named(
                families.insert(at, (name, scrapes.last()->Ok_0->0)),
                other,
            ),
{
    let after = families.insert(at, (name, scrapes.last()->Ok_0->0));
    assert forall|scrape: ScrapeView, other: Seq<char>| #[trigger]
        scrapes.contains(scrape) && #[trigger] bears(scrape, other) implies is_named(after, other) by {
        lemma_contains_last(scrapes, scrape);
        if scrapes.drop_last().contains(scrape) {
            assert(is_named(families, other));
            let i = choose|i: int| 0 <= i < families.len() && (#[trigger] families[i]).0 == other;
            let p = if i < at { i } else { i + 1 };
            assert(after[p] == families[i]);
        } else {
            assert(after[at].0 == other);
        }
    }
}

proof fn lemma_merge_inserted(families: FamiliesView, scrapes: Seq<ScrapeView>, name: Seq<char>)
    requires
        scrapes.len() > 0,
        is_merge_of(families, scrapes.drop_last()),
        bears(scrapes.last(), name),
        !is_named(families, name),
    ensures
        is_merge_of(order::inserted(families, (name, scrapes.last()->Ok_0->0)), scrapes),
{
    let at = lemma_inserted_strictly(families, (name, scrapes.last()->Ok_0->0));
    lemma_families_inserted(families, scrapes, name, at);
    lemma_names_inserted(families, scrapes, name, at);
}

/// Metrics are merged by their rendered names, and only where identity and kind match: scrapes merge
/// exactly where each gave nothing or a metric with a name, and those that share a name agree. What they
/// merge into has one family for every name, with all samples under that name, in the order of the names.
pub proof fn metrics_merge_by_name(scrapes: Seq<ScrapeView>)
    ensures
        collector::families_of(scrapes) is Ok <==> can_merge(scrapes),
        collector::families_of(scrapes) is Ok ==> is_merge_of(collector::families_of(scrapes)->Ok_0, scrapes),
    decreases scrapes.len(),
{
    if scrapes.len() > 0 {
        let before = scrapes.drop_last();
        let last = scrapes.last();
        metrics_merge_by_name(before);
        lemma_can_merge_step(scrapes);
        if collector::families_of(before) is Ok && can_be_named(last) {
            let families = collector::families_of(before)->Ok_0;
            if last->Ok_0 is None {
                assert forall|a: ScrapeView| #[trigger] before.contains(a) implies agree(a, last) by {}
                lemma_merge_unchanged(families, scrapes);
            } else {
                let metric = last->Ok_0->0;
                let name = dto::family_name(metric)->Ok_0;
                assert(bears(last, name));
                collector::lemma_family_position(families, name);
                match collector::family_position(families, name) {
                    Some(i) => {
                        assert(is_family_of(families[i], before));
                        let scrape = choose|scrape: ScrapeView| #[trigger]
                            before.contains(scrape) && bears(scrape, name) && scrape->Ok_0->0.id
                                == families[i].1.id && scrape->Ok_0->0.kind == families[i].1.kind;
                        if families[i].1.id == metric.id && families[i].1.kind == metric.kind {
                            lemma_merge_updated(families, scrapes, i);
                            assert forall|a: ScrapeView| #[trigger] before.contains(a) implies agree(a, last) by {
                                assert(agree(a, scrape));
                                assert forall|other: Seq<char>| #[trigger]
                                    bears(a, other) && bears(last, other) implies a->Ok_0->0.id
                                    == last->Ok_0->0.id && a->Ok_0->0.kind == last->Ok_0->0.kind by {
                                    assert(other == name);
                                    assert(bears(scrape, other));
                                }
                            }
                        } else {
                            assert(bears(scrape, name) && bears(last, name));
                            assert(!agree(scrape, last));
                        }
                    },
                    None => {
                        assert(!is_named(families, name));
                        lemma_merge_inserted(families, scrapes, name);
                        assert forall|a: ScrapeView| #[trigger] before.contains(a) implies agree(a, last) by {
                            assert forall|other: Seq<char>| #[trigger]
                                bears(a, other) && bears(last, other) implies a->Ok_0->0.id
                                == last->Ok_0->0.id && a->Ok_0->0.kind == last->Ok_0->0.kind by {
                                assert(is_named(families, other));
                            }
                        }
                    },
                }
            }
        }
    }
}

/// What one scrape gave under a family name.
spec fn given_points(scrape: ScrapeView, name: Seq<char>) -> Seq<dto::DataPointView> {
    if bears(scrape, name) {
        scrape->Ok_0->0.points
    } else {
        Seq::empty()
    }
}

proof fn lemma_points_remove(scrapes: Seq<ScrapeView>, name: Seq<char>, k: int)
    requires
        0 <= k < scrapes.len(),
    ensures
        points_under(scrapes, name).to_multiset() =~= points_under(scrapes.remove(k), name).to_multiset().add(
            given_points(scrapes[k], name).to_multiset(),
        ),
    decreases scrapes.len(),
{
    broadcast use group_to_multiset_ensures;

    let before = scrapes.drop_last();
    let last = given_points(scrapes.last(), name);
    assert(points_under(scrapes, name) =~= points_under(before, name) + last);
    lemma_multiset_commutative(points_under(before, name), last);
    if k == scrapes.len() - 1 {
        assert(scrapes.remove(k) =~= before);
    } else {
        lemma_points_remove(before, name, k);
        let shorter = scrapes.remove(k);
        assert(shorter.drop_last() =~= before.remove(k));
        assert(shorter.last() == scrapes.last());
        assert(points_under(shorter, name) =~= points_under(before.remove(k), name) + last);
        lemma_multiset_commutative(points_under(before.remove(k), name), last);
    }
}

proof fn lemma_points_permute(a: Seq<ScrapeView>, b: Seq<ScrapeView>, name: Seq<char>)
    requires
        a.to_multiset() =~= b.to_multiset(),
    ensures
        points_under(a, name).to_multiset() =~= points_under(b, name).to_multiset(),
    decreases b.len(),
{
    broadcast use group_to_multiset_ensures;

    assert(a.len() == a.to_multiset().len());
    assert(b.len() == b.to_multiset().len());
    if b.len() == 0 {
        assert(a =~= b);
    } else {
        let item = b.last();
        assert(b.to_multiset().count(b[b.len() - 1]) > 0);
        assert(a.contains(item));
        let k = choose|k: int| 0 <= k < a.len() && a[k] == item;
        assert(b.remove(b.len() - 1) =~= b.drop_last());
        assert(a.remove(k).to_multiset() =~= a.to_multiset().remove(item));
        assert(b.remove(b.len() - 1).to_multiset() =~= b.to_multiset().remove(item));
        lemma_points_permute(a.remove(k), b.drop_last(), name);
        lemma_points_remove(a, name, k);
        lemma_points_remove(b, name, b.len() - 1);
    }
}

proof fn lemma_same_members(a: Seq<ScrapeView>, b: Seq<ScrapeView>)
    requires
        a.to_multiset() =~= b.to_multiset(),
    ensures
        forall|scrape: ScrapeView|
            #![trigger a.contains(scrape)]
            #![trigger b.contains(scrape)]
            a.contains(scrape) <==> b.contains(scrape),
{
    broadcast use group_to_multiset_ensures;

    assert forall|scrape: ScrapeView|
        #![trigger a.contains(scrape)]
        #![trigger b.contains(scrape)]
        a.contains(scrape) <==> b.contains(scrape) by {
        assert(a.contains(scrape) <==> a.to_multiset().count(scrape) > 0);
        assert(b.contains(scrape) <==> b.to_multiset().count(scrape) > 0);
    }
}

proof fn lemma_strictly_ordered_prefix(families: FamiliesView)
    requires
        is_strictly_ordered(families),
        families.len() > 0,
    ensures
        is_strictly_ordered(families.drop_last()),
        forall|name: Seq<char>| #[trigger]
            is_named(families.drop_last(), name) <==> is_named(families, name) && name != families.last().0,
{
    let before = families.drop_last();
    assert forall|i: int, j: int| 0 <= i < j < before.len() implies text::rank_text(
        (#[trigger] before[i]).0,
        (#[trigger] before[j]).0,
    ) < 0 by {
        assert(text::rank_text(families[i].0, families[j].0) < 0);
    }
    assert forall|name: Seq<char>| #[trigger]
        is_named(before, name) <==> is_named(families, name) && name != families.last().0 by {
        if is_named(before, name) {
            let i = choose|i: int| 0 <= i < before.len() && (#[trigger] before[i]).0 == name;
            assert(families[i].0 == name);
            assert(text::rank_text(families[i].0, families[families.len() - 1].0) < 0);
            text::lemma_rank_text_flip(name, name);
        }
        if is_named(families, name) && name != families.last().0 {
            let i = choose|i: int| 0 <= i < families.len() && (#[trigger] families[i]).0 == name;
            assert(before[i].0 == name);
        }
    }
}

/// A name of strictly ordered families does not stand behind the last one.
proof fn lemma_last_name(families: FamiliesView, name: Seq<char>)
    requires
        is_strictly_ordered(families),
        is_named(families, name),
    ensures
        families.len() > 0,
        text::rank_text(name, families.last().0) <= 0,
{
    let i = choose|i: int| 0 <= i < families.len() && (#[trigger] families[i]).0 == name;
    text::lemma_rank_text_flip(name, name);
    if i < families.len() - 1 {
        assert(text::rank_text(families[i].0, families[families.len() - 1].0) < 0);
    }
}

proof fn lemma_same_names(a: FamiliesView, b: FamiliesView)
    requires
        is_strictly_ordered(a),
        is_strictly_ordered(b),
        forall|name: Seq<char>| #[trigger] is_named(a, name) <==> is_named(b, name),
    ensures
        a.len() == b.len(),
        forall|i: int| 0 <= i < a.len() ==> (#[trigger] a[i]).0 == b[i].0,
    decreases a.len(),
{
    if a.len() == 0 {
        if b.len() > 0 {
            assert(b[0].0 == b[0].0);
            assert(is_named(b, b[0].0));
            assert(is_named(a, b[0].0));
        }
    } else {
        let last = a.last().0;
        assert(a[a.len() - 1].0 == last);
        assert(is_named(a, last));
        lemma_last_name(b, last);
        assert(b[b.len() - 1].0 == b.last().0);
        assert(is_named(b, b.last().0));
        assert(is_named(a, b.last().0));
        lemma_last_name(a, b.last().0);
        text::lemma_rank_text_flip(last, b.last().0);
        lemma_strictly_ordered_prefix(a);
        lemma_strictly_ordered_prefix(b);
        assert forall|name: Seq<char>| #[trigger] is_named(a.drop_last(), name) <==> is_named(
            b.drop_last(),
            name,
        ) by {
            assert(is_named(a, name) <==> is_named(b, name));
        }
        lemma_same_names(a.drop_last(), b.drop_last());
        assert forall|i: int| 0 <= i < a.len() implies (#[trigger] a[i]).0 == b[i].0 by {
            if i < a.len() - 1 {
                assert(a.drop_last()[i].0 == b.drop_last()[i].0);
            }
        }
    }
}

/// Whether two families differ at most in the order of their samples.
pub open spec fn is_reordering(a: (Seq<char>, dto::MetricView), b: (Seq<char>, dto::MetricView)) -> bool {
    &&& a.0 == b.0
    &&& a.1.id == b.1.id
    &&& a.1.kind == b.1.kind
    &&& a.1.points.to_multiset() =~= b.1.points.to_multiset()
}

proof fn lemma_merges_are_named_alike(
    a: Seq<ScrapeView>,
    b: Seq<ScrapeView>,
    merged_a: FamiliesView,
    merged_b: FamiliesView,
)
    requires
        forall|scrape: ScrapeView| #[trigger] a.contains(scrape) ==> b.contains(scrape),
        is_merge_of(merged_a, a),
        is_merge_of(merged_b, b),
    ensures
        forall|name: Seq<char>| #[trigger] is_named(merged_a, name) ==> is_named(merged_b, name),
{
    assert forall|name: Seq<char>| #[trigger] is_named(merged_a, name) implies is_named(merged_b, name) by {
        let i = choose|i: int| 0 <= i < merged_a.len() && (#[trigger] merged_a[i]).0 == name;
        assert(is_family_of(merged_a[i], a));
        let scrape = choose|scrape: ScrapeView| #[trigger]
            a.contains(scrape) && bears(scrape, name) && scrape->Ok_0->0.id == merged_a[i].1.id
                && scrape->Ok_0->0.kind == merged_a[i].1.kind;
        assert(b.contains(scrape) && bears(scrape, name));
    }
}

/// The families of a scrape do not depend on the order in which the sources were registered, but for
/// the order of the samples within them.
pub proof fn families_permute(a: Seq<ScrapeView>, b: Seq<ScrapeView>)
    requires
        a.to_multiset() =~= b.to_multiset(),
        collector::families_of(a) is Ok,
    ensures
        collector::families_of(b) is Ok,
        collector::families_of(a)->Ok_0.len() == collector::families_of(b)->Ok_0.len(),
        forall|i: int|
            0 <= i < collector::families_of(a)->Ok_0.len() ==> is_reordering(
                #[trigger] collector::families_of(a)->Ok_0[i],
                collector::families_of(b)->Ok_0[i],
            ),
{
    lemma_same_members(a, b);
    metrics_merge_by_name(a);
    metrics_merge_by_name(b);
    assert(can_merge(b));
    let merged_a = collector::families_of(a)->Ok_0;
    let merged_b = collector::families_of(b)->Ok_0;
    lemma_merges_are_named_alike(a, b, merged_a, merged_b);
    lemma_merges_are_named_alike(b, a, merged_b, merged_a);
    lemma_same_names(merged_a, merged_b);
    assert forall|i: int| 0 <= i < merged_a.len() implies is_reordering(#[trigger] merged_a[i], merged_b[i]) by {
        let name = merged_a[i].0;
        assert(is_family_of(merged_a[i], a));
        assert(is_family_of(merged_b[i], b));
        let scrape_a = choose|scrape: ScrapeView| #[trigger]
            a.contains(scrape) && bears(scrape, name) && scrape->Ok_0->0.id == merged_a[i].1.id
                && scrape->Ok_0->0.kind == merged_a[i].1.kind;
        let scrape_b = choose|scrape: ScrapeView| #[trigger]
            b.contains(scrape) && bears(scrape, name) && scrape->Ok_0->0.id == merged_b[i].1.id
                && scrape->Ok_0->0.kind == merged_b[i].1.kind;
        assert(a.contains(scrape_a) && a.contains(scrape_b));
        assert(agree(scrape_a, scrape_b));
        assert(bears(scrape_a, name) && bears(scrape_b, name));
        lemma_points_permute(a, b, name);
    }
}

proof fn lemma_sample_names_alike(a: FamiliesView, b: FamiliesView)
    requires
        a.len() == b.len(),
        forall|i: int| 0 <= i < a.len() ==> is_reordering(#[trigger] a[i], b[i]),
    ensures
        collector::all_sample_names(a) == collector::all_sample_names(b),
    decreases a.len(),
{
    if a.len() > 0 {
        assert forall|i: int| 0 <= i < a.len() - 1 implies is_reordering(
            #[trigger] a.drop_last()[i],
            b.drop_last()[i],
        ) by {
            assert(is_reordering(a[i], b[i]));
        }
        lemma_sample_names_alike(a.drop_last(), b.drop_last());
        assert(is_reordering(a[a.len() - 1], b[a.len() - 1]));
    }
}

proof fn lemma_texts_alike(a: FamiliesView, b: FamiliesView)
    requires
        a.len() == b.len(),
        forall|i: int| 0 <= i < a.len() ==> is_reordering(#[trigger] a[i], b[i]),
        collector::families_text(a) is Ok,
    ensures
        collector::families_text(b) == collector::families_text(a),
    decreases a.len(),
{
    if a.len() > 0 {
        assert forall|i: int| 0 <= i < a.len() - 1 implies is_reordering(
            #[trigger] a.drop_last()[i],
            b.drop_last()[i],
        ) by {
            assert(is_reordering(a[i], b[i]));
        }
        lemma_texts_alike(a.drop_last(), b.drop_last());
        assert(is_reordering(a[a.len() - 1], b[a.len() - 1]));
        dto::sample_order_is_irrelevant(a.last().1, b.last().1.points);
        assert((dto::MetricView { points: b.last().1.points, ..a.last().1 }) == b.last().1);
    }
}

/// The text of a scrape does not depend on the order in which the sources were registered.
pub proof fn source_order_is_irrelevant(a: Seq<ScrapeView>, b: Seq<ScrapeView>)
    requires
        a.to_multiset() =~= b.to_multiset(),
        collector::scrape_text(a) is Ok,
    ensures
        collector::scrape_text(b) == collector::scrape_text(a),
{
    families_permute(a, b);
    let merged_a = collector::families_of(a)->Ok_0;
    let merged_b = collector::families_of(b)->Ok_0;
    lemma_sample_names_alike(merged_a, merged_b);
    lemma_texts_alike(merged_a, merged_b);
}

/// Where nothing was recorded, and so also where nothing was registered, the text is empty.
pub proof fn nothing_renders_nothing(scrapes: Seq<ScrapeView>)
    requires
        forall|i: int|
            0 <= i < scrapes.len() ==> #[trigger] scrapes[i] == Ok::<
                Option<dto::MetricView>,
                error::ErrorView,
            >(None),
    ensures
        collector::families_of(scrapes) == Ok::<FamiliesView, error::ErrorView>(Seq::empty()),
        collector::scrape_text(scrapes) == Ok::<Seq<char>, error::ErrorView>(Seq::empty()),
    decreases scrapes.len(),
{
    if scrapes.len() > 0 {
        assert(scrapes[scrapes.len() - 1] == scrapes.last());
        assert forall|i: int| 0 <= i < scrapes.len() - 1 implies #[trigger] scrapes.drop_last()[i] == Ok::<
            Option<dto::MetricView>,
            error::ErrorView,
        >(None) by {
            assert(scrapes[i] == scrapes.drop_last()[i]);
        }
        nothing_renders_nothing(scrapes.drop_last());
    }
}

/// A name is reused exactly where it occurs twice.
pub proof fn reused_names_occur_twice(names: Seq<Seq<char>>)
    ensures
        collector::first_reused(names) is None <==> names.no_duplicates(),
    decreases names.len(),
{
    if names.len() > 0 {
        let before = names.drop_last();
        reused_names_occur_twice(before);
        if before.no_duplicates() && !before.contains(names.last()) {
            assert forall|i: int, j: int|
                0 <= i < names.len() && 0 <= j < names.len() && i != j implies #[trigger] names[i] != #[trigger] names[j] by {
                if i < before.len() {
                    assert(before[i] == names[i]);
                }
                if j < before.len() {
                    assert(before[j] == names[j]);
                }
            }
        }
        if names.no_duplicates() {
            assert forall|i: int, j: int|
                0 <= i < before.len() && 0 <= j < before.len() && i != j implies #[trigger] before[i] != #[trigger] before[j] by {
                assert(names[i] != names[j]);
            }
            if before.contains(names.last()) {
                let i = choose|i: int| 0 <= i < before.len() && before[i] == names.last();
                assert(names[i] == names[names.len() - 1]);
            }
        }
    }
}

/// What is rendered is unambiguous: families have distinct names, and no two of them emit samples of
/// one name, the suffixes of histograms included.
pub proof fn rendered_names_are_distinct(scrapes: Seq<ScrapeView>)
    requires
        collector::scrape_text(scrapes) is Ok,
    ensures
        can_merge(scrapes),
        is_strictly_ordered(collector::families_of(scrapes)->Ok_0),
        collector::all_sample_names(collector::families_of(scrapes)->Ok_0).no_duplicates(),
{
    metrics_merge_by_name(scrapes);
    reused_names_occur_twice(collector::all_sample_names(collector::families_of(scrapes)->Ok_0));
}

} // verus!
