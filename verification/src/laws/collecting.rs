//! Collectors, their registrations and their clocks.

use crate::collect::periodic;
use crate::collect::timer;
use crate::collect;
use crate::collect::{AddSource, EntryView, RegisterAll};
use crate::dto;
use crate::error;
use crate::model;
use crate::observe::Mode;
use crate::time;
use vstd::prelude::*;

verus! {

/// Periods are refused where one is zero, that of polling first, and where polls would be rarer than
/// exports. All others are taken.
pub proof fn periods_are_refused_for_a_reason(poll: nat, export: nat)
    ensures
        match periodic::period_error(poll, export) {
            None => 0 < poll <= export,
            Some(error) => {
                ||| poll == 0 && error is ZeroPollPeriod
                ||| poll > 0 && export == 0 && error is ZeroExportPeriod
                ||| poll > export > 0 && error is PollPeriodExceedsExportPeriod
            },
        },
{
}

/// A source is refused where a gauge would be read as differences, and where its identity is one that is
/// drained already. All others are admitted.
pub proof fn sources_are_refused_for_a_reason(
    drained: Seq<model::NameIdentityView>,
    id: model::NameIdentityView,
    kind: dto::Kind,
    mode: Mode,
)
    ensures
        match periodic::admission_error(drained, id, kind, mode) {
            None => !(mode is Delta && kind is Gauge) && !drained.contains(id),
            Some(error) => {
                ||| mode is Delta && kind is Gauge && error is DeltaForGauge
                ||| !(mode is Delta && kind is Gauge) && drained.contains(id) && error is DuplicateDestructive
            },
        },
{
}

/// A batch has the metrics of the results and the failures have their errors, each in their order.
pub proof fn batches_keep_the_order<V>(
    results: Seq<Result<Option<V>, error::ErrorView>>,
    metric: V,
    error: error::ErrorView,
)
    ensures
        periodic::batch_of(Seq::<Result<Option<V>, error::ErrorView>>::empty()).len() == 0,
        periodic::failures_of(Seq::<Result<Option<V>, error::ErrorView>>::empty()).len() == 0,
        periodic::batch_of(results.push(Ok(Some(metric)))) == periodic::batch_of(results).push(metric),
        periodic::batch_of(results.push(Ok(None))) == periodic::batch_of(results),
        periodic::batch_of(results.push(Err(error))) == periodic::batch_of(results),
        periodic::failures_of(results.push(Ok(Some(metric)))) == periodic::failures_of(results),
        periodic::failures_of(results.push(Ok(None))) == periodic::failures_of(results),
        periodic::failures_of(results.push(Err(error))) == periodic::failures_of(results).push(error),
{
    assert(results.push(Ok(Some(metric))).drop_last() =~= results);
    assert(results.push(Ok(None)).drop_last() =~= results);
    assert(results.push(Err(error)).drop_last() =~= results);
}

/// A worker's dates run with its clock from its start on. It aligns timestamps to its polls, where it is
/// to align them.
pub proof fn workers_keep_time<O>(worker: periodic::WorkerView<O>, at: nat)
    ensures
        periodic::worker_date(worker, at) - worker.start_system == at - worker.start_instant,
        worker.align_timestamps ==> periodic::worker_align(worker) == Some(worker.poll_period),
        !worker.align_timestamps ==> periodic::worker_align(worker) is None,
{
}

/// The tick after an instant is the first whose place on the grid is behind it, or the first of all.
pub proof fn ticks_are_counted(start: nat, period: nat, now: nat)
    requires
        period > 0,
    ensures
        ({
            let tick = timer::next_tick(start, period, now);
            &&& tick >= 1
            &&& start + period * tick > now
            &&& tick > 1 ==> start + period * (tick - 1) <= now
        }),
{
    let passed = if now > start {
        (now - start) as nat
    } else {
        0nat
    };
    let whole = passed / period;
    vstd::arithmetic::div_mod::lemma_fundamental_div_mod(passed as int, period as int);
    vstd::arithmetic::div_mod::lemma_mod_bound(passed as int, period as int);
    assert(period * (whole + 1) == period * whole + period) by (nonlinear_arith);
    assert(timer::next_tick(start, period, now) == whole + 1);
    if whole == 0 {
        assert(period * whole == 0) by (nonlinear_arith)
            requires
                whole == 0,
        ;
    } else {
        assert(whole + 1 - 1 == whole);
    }
}

/// Where the grid runs out of what a clock can show, the next deadline is a period from now, and where
/// that does too, it is now.
pub proof fn deadlines_beyond_the_grid_are_relative(start: nat, period: nat, now: nat)
    requires
        period > 0,
        start + period * timer::next_tick(start, period, now) > 18_446_744_073_709_551_615_999_999_999,
    ensures
        now + period <= 18_446_744_073_709_551_615_999_999_999 ==> timer::next_deadline(start, period, now)
            == now + period,
        now + period > 18_446_744_073_709_551_615_999_999_999 ==> timer::next_deadline(start, period, now)
            == now,
{
}

/// A span is at most the largest number of seconds of 64 bits and the nanoseconds of one second less one. A
/// date is as far from the epoch as signed seconds of 64 bits reach.
pub proof fn times_have_limits(nanos: int)
    ensures
        nanos >= 0 ==> (time::is_span(nanos as nat) <==> nanos < (u64::MAX + 1) * 1_000_000_000),
        time::is_date(nanos) <==> i64::MIN * 1_000_000_000 <= nanos < (i64::MAX + 1) * 1_000_000_000,
        time::NANOS_PER_SEC == 1_000_000_000,
        time::MAX_NANOS == (u64::MAX + 1) * 1_000_000_000 - 1,
        time::LAST_NANOS == (i64::MAX + 1) * 1_000_000_000 - 1,
        time::FIRST_NANOS == i64::MIN * 1_000_000_000,
{
}

/// The nearest date is the distance from the epoch itself, on its side, where it is a date, and else the
/// last date of that side.
pub proof fn nearest_dates_are_near(distance: u128)
    ensures
        time::is_date(distance as int) ==> time::nearest_date(Ok(distance)) == distance,
        !time::is_date(distance as int) ==> time::nearest_date(Ok(distance)) == (i64::MAX + 1) * 1_000_000_000
            - 1,
        time::is_date(-(distance as int)) ==> time::nearest_date(Err(distance)) == -(distance as int),
        !time::is_date(-(distance as int)) ==> time::nearest_date(Err(distance)) == i64::MIN * 1_000_000_000,
{
}

/// A registration is found by identity and type, and is missing only where none has both.
pub proof fn registrations_are_found_by_identity<Src>(
    registry: Seq<EntryView<Src>>,
    id: model::NameIdentityView,
    type_key: u64,
)
    ensures
        match collect::registration(registry, id, type_key) {
            Some(i) => 0 <= i < registry.len() && registry[i].id == id && registry[i].type_key == type_key,
            None => forall|i: int|
                0 <= i < registry.len() ==> (#[trigger] registry[i]).id != id || registry[i].type_key
                    != type_key,
        },
    decreases registry.len(),
{
    if registry.len() > 0 {
        registrations_are_found_by_identity(registry.drop_last(), id, type_key);
        if collect::registration(registry, id, type_key) is None {
            assert forall|i: int| 0 <= i < registry.len() implies (#[trigger] registry[i]).id != id
                || registry[i].type_key != type_key by {
                if i < registry.len() - 1 {
                    assert(registry[i] == registry.drop_last()[i]);
                }
            }
        }
    }
}

/// A source that one collector took was accepted by it. One that was refused was refused by it
/// with that error.
pub proof fn one_collector_registers_a_source<Src, A: AddSource<Src>>(
    before: (A,),
    source: Src,
    mode: Mode,
    result: Result<(), error::ErrorView>,
    after: (A,),
)
    requires
        before.registered(source, mode, result, after),
    ensures
        result is Ok ==> before.0.accepted(source, mode, Ok::<(), error::ErrorView>(()), after.0),
        result is Err ==> before.0.accepted(source, mode, result, after.0),
{
}

/// A source that two collectors took was accepted by each of them. One that was refused was refused by one of
/// them with that error, accepted by those before it, and not offered to those behind.
pub proof fn two_collectors_register_a_source<Src, A: AddSource<Src>, B: AddSource<Src>>(
    before: (A, B),
    source: Src,
    mode: Mode,
    result: Result<(), error::ErrorView>,
    after: (A, B),
)
    requires
        before.registered(source, mode, result, after),
    ensures
        result is Ok ==> before.0.accepted(source, mode, Ok::<(), error::ErrorView>(()), after.0),
        result is Ok ==> before.1.accepted(source, mode, Ok::<(), error::ErrorView>(()), after.1),
        result is Err ==> {
            ||| {
                &&& before.0.accepted(source, mode, result, after.0)
                &&& after.1 == before.1
            }
            ||| {
                &&& before.0.accepted(source, mode, Ok::<(), error::ErrorView>(()), after.0)
                &&& before.1.accepted(source, mode, result, after.1)
            }
        },
{
}

/// A source that three collectors took was accepted by each of them. One that was refused was refused by one of
/// them with that error, accepted by those before it, and not offered to those behind.
pub proof fn three_collectors_register_a_source<Src, A: AddSource<Src>, B: AddSource<Src>, C: AddSource<Src>>(
    before: (A, B, C),
    source: Src,
    mode: Mode,
    result: Result<(), error::ErrorView>,
    after: (A, B, C),
)
    requires
        before.registered(source, mode, result, after),
    ensures
        result is Ok ==> before.0.accepted(source, mode, Ok::<(), error::ErrorView>(()), after.0),
        result is Ok ==> before.1.accepted(source, mode, Ok::<(), error::ErrorView>(()), after.1),
        result is Ok ==> before.2.accepted(source, mode, Ok::<(), error::ErrorView>(()), after.2),
        result is Err ==> {
            ||| {
                &&& before.0.accepted(source, mode, result, after.0)
                &&& after.1 == before.1
                &&& after.2 == before.2
            }
            ||| {
                &&& before.0.accepted(source, mode, Ok::<(), error::ErrorView>(()), after.0)
                &&& before.1.accepted(source, mode, result, after.1)
                &&& after.2 == before.2
            }
            ||| {
                &&& before.0.accepted(source, mode, Ok::<(), error::ErrorView>(()), after.0)
                &&& before.1.accepted(source, mode, Ok::<(), error::ErrorView>(()), after.1)
                &&& before.2.accepted(source, mode, result, after.2)
            }
        },
{
}

/// A source that four collectors took was accepted by each of them. One that was refused was refused by one of
/// them with that error, accepted by those before it, and not offered to those behind.
pub proof fn four_collectors_register_a_source<Src, A: AddSource<Src>, B: AddSource<Src>, C: AddSource<Src>, D: AddSource<Src>>(
    before: (A, B, C, D),
    source: Src,
    mode: Mode,
    result: Result<(), error::ErrorView>,
    after: (A, B, C, D),
)
    requires
        before.registered(source, mode, result, after),
    ensures
        result is Ok ==> before.0.accepted(source, mode, Ok::<(), error::ErrorView>(()), after.0),
        result is Ok ==> before.1.accepted(source, mode, Ok::<(), error::ErrorView>(()), after.1),
        result is Ok ==> before.2.accepted(source, mode, Ok::<(), error::ErrorView>(()), after.2),
        result is Ok ==> before.3.accepted(source, mode, Ok::<(), error::ErrorView>(()), after.3),
        result is Err ==> {
            ||| {
                &&& before.0.accepted(source, mode, result, after.0)
                &&& after.1 == before.1
                &&& after.2 == before.2
                &&& after.3 == before.3
            }
            ||| {
                &&& before.0.accepted(source, mode, Ok::<(), error::ErrorView>(()), after.0)
                &&& before.1.accepted(source, mode, result, after.1)
                &&& after.2 == before.2
                &&& after.3 == before.3
            }
            ||| {
                &&& before.0.accepted(source, mode, Ok::<(), error::ErrorView>(()), after.0)
                &&& before.1.accepted(source, mode, Ok::<(), error::ErrorView>(()), after.1)
                &&& before.2.accepted(source, mode, result, after.2)
                &&& after.3 == before.3
            }
            ||| {
                &&& before.0.accepted(source, mode, Ok::<(), error::ErrorView>(()), after.0)
                &&& before.1.accepted(source, mode, Ok::<(), error::ErrorView>(()), after.1)
                &&& before.2.accepted(source, mode, Ok::<(), error::ErrorView>(()), after.2)
                &&& before.3.accepted(source, mode, result, after.3)
            }
        },
{
}

/// A source that five collectors took was accepted by each of them. One that was refused was refused by one of
/// them with that error, accepted by those before it, and not offered to those behind.
pub proof fn five_collectors_register_a_source<Src, A: AddSource<Src>, B: AddSource<Src>, C: AddSource<Src>, D: AddSource<Src>, E: AddSource<Src>>(
    before: (A, B, C, D, E),
    source: Src,
    mode: Mode,
    result: Result<(), error::ErrorView>,
    after: (A, B, C, D, E),
)
    requires
        before.registered(source, mode, result, after),
    ensures
        result is Ok ==> before.0.accepted(source, mode, Ok::<(), error::ErrorView>(()), after.0),
        result is Ok ==> before.1.accepted(source, mode, Ok::<(), error::ErrorView>(()), after.1),
        result is Ok ==> before.2.accepted(source, mode, Ok::<(), error::ErrorView>(()), after.2),
        result is Ok ==> before.3.accepted(source, mode, Ok::<(), error::ErrorView>(()), after.3),
        result is Ok ==> before.4.accepted(source, mode, Ok::<(), error::ErrorView>(()), after.4),
        result is Err ==> {
            ||| {
                &&& before.0.accepted(source, mode, result, after.0)
                &&& after.1 == before.1
                &&& after.2 == before.2
                &&& after.3 == before.3
                &&& after.4 == before.4
            }
            ||| {
                &&& before.0.accepted(source, mode, Ok::<(), error::ErrorView>(()), after.0)
                &&& before.1.accepted(source, mode, result, after.1)
                &&& after.2 == before.2
                &&& after.3 == before.3
                &&& after.4 == before.4
            }
            ||| {
                &&& before.0.accepted(source, mode, Ok::<(), error::ErrorView>(()), after.0)
                &&& before.1.accepted(source, mode, Ok::<(), error::ErrorView>(()), after.1)
                &&& before.2.accepted(source, mode, result, after.2)
                &&& after.3 == before.3
                &&& after.4 == before.4
            }
            ||| {
                &&& before.0.accepted(source, mode, Ok::<(), error::ErrorView>(()), after.0)
                &&& before.1.accepted(source, mode, Ok::<(), error::ErrorView>(()), after.1)
                &&& before.2.accepted(source, mode, Ok::<(), error::ErrorView>(()), after.2)
                &&& before.3.accepted(source, mode, result, after.3)
                &&& after.4 == before.4
            }
            ||| {
                &&& before.0.accepted(source, mode, Ok::<(), error::ErrorView>(()), after.0)
                &&& before.1.accepted(source, mode, Ok::<(), error::ErrorView>(()), after.1)
                &&& before.2.accepted(source, mode, Ok::<(), error::ErrorView>(()), after.2)
                &&& before.3.accepted(source, mode, Ok::<(), error::ErrorView>(()), after.3)
                &&& before.4.accepted(source, mode, result, after.4)
            }
        },
{
}

/// A source that six collectors took was accepted by each of them. One that was refused was refused by one of
/// them with that error, accepted by those before it, and not offered to those behind.
pub proof fn six_collectors_register_a_source<Src, A: AddSource<Src>, B: AddSource<Src>, C: AddSource<Src>, D: AddSource<Src>, E: AddSource<Src>, F: AddSource<Src>>(
    before: (A, B, C, D, E, F),
    source: Src,
    mode: Mode,
    result: Result<(), error::ErrorView>,
    after: (A, B, C, D, E, F),
)
    requires
        before.registered(source, mode, result, after),
    ensures
        result is Ok ==> before.0.accepted(source, mode, Ok::<(), error::ErrorView>(()), after.0),
        result is Ok ==> before.1.accepted(source, mode, Ok::<(), error::ErrorView>(()), after.1),
        result is Ok ==> before.2.accepted(source, mode, Ok::<(), error::ErrorView>(()), after.2),
        result is Ok ==> before.3.accepted(source, mode, Ok::<(), error::ErrorView>(()), after.3),
        result is Ok ==> before.4.accepted(source, mode, Ok::<(), error::ErrorView>(()), after.4),
        result is Ok ==> before.5.accepted(source, mode, Ok::<(), error::ErrorView>(()), after.5),
        result is Err ==> {
            ||| {
                &&& before.0.accepted(source, mode, result, after.0)
                &&& after.1 == before.1
                &&& after.2 == before.2
                &&& after.3 == before.3
                &&& after.4 == before.4
                &&& after.5 == before.5
            }
            ||| {
                &&& before.0.accepted(source, mode, Ok::<(), error::ErrorView>(()), after.0)
                &&& before.1.accepted(source, mode, result, after.1)
                &&& after.2 == before.2
                &&& after.3 == before.3
                &&& after.4 == before.4
                &&& after.5 == before.5
            }
            ||| {
                &&& before.0.accepted(source, mode, Ok::<(), error::ErrorView>(()), after.0)
                &&& before.1.accepted(source, mode, Ok::<(), error::ErrorView>(()), after.1)
                &&& before.2.accepted(source, mode, result, after.2)
                &&& after.3 == before.3
                &&& after.4 == before.4
                &&& after.5 == before.5
            }
            ||| {
                &&& before.0.accepted(source, mode, Ok::<(), error::ErrorView>(()), after.0)
                &&& before.1.accepted(source, mode, Ok::<(), error::ErrorView>(()), after.1)
                &&& before.2.accepted(source, mode, Ok::<(), error::ErrorView>(()), after.2)
                &&& before.3.accepted(source, mode, result, after.3)
                &&& after.4 == before.4
                &&& after.5 == before.5
            }
            ||| {
                &&& before.0.accepted(source, mode, Ok::<(), error::ErrorView>(()), after.0)
                &&& before.1.accepted(source, mode, Ok::<(), error::ErrorView>(()), after.1)
                &&& before.2.accepted(source, mode, Ok::<(), error::ErrorView>(()), after.2)
                &&& before.3.accepted(source, mode, Ok::<(), error::ErrorView>(()), after.3)
                &&& before.4.accepted(source, mode, result, after.4)
                &&& after.5 == before.5
            }
            ||| {
                &&& before.0.accepted(source, mode, Ok::<(), error::ErrorView>(()), after.0)
                &&& before.1.accepted(source, mode, Ok::<(), error::ErrorView>(()), after.1)
                &&& before.2.accepted(source, mode, Ok::<(), error::ErrorView>(()), after.2)
                &&& before.3.accepted(source, mode, Ok::<(), error::ErrorView>(()), after.3)
                &&& before.4.accepted(source, mode, Ok::<(), error::ErrorView>(()), after.4)
                &&& before.5.accepted(source, mode, result, after.5)
            }
        },
{
}

/// A source that seven collectors took was accepted by each of them. One that was refused was refused by one of
/// them with that error, accepted by those before it, and not offered to those behind.
pub proof fn seven_collectors_register_a_source<Src, A: AddSource<Src>, B: AddSource<Src>, C: AddSource<Src>, D: AddSource<Src>, E: AddSource<Src>, F: AddSource<Src>, G: AddSource<Src>>(
    before: (A, B, C, D, E, F, G),
    source: Src,
    mode: Mode,
    result: Result<(), error::ErrorView>,
    after: (A, B, C, D, E, F, G),
)
    requires
        before.registered(source, mode, result, after),
    ensures
        result is Ok ==> before.0.accepted(source, mode, Ok::<(), error::ErrorView>(()), after.0),
        result is Ok ==> before.1.accepted(source, mode, Ok::<(), error::ErrorView>(()), after.1),
        result is Ok ==> before.2.accepted(source, mode, Ok::<(), error::ErrorView>(()), after.2),
        result is Ok ==> before.3.accepted(source, mode, Ok::<(), error::ErrorView>(()), after.3),
        result is Ok ==> before.4.accepted(source, mode, Ok::<(), error::ErrorView>(()), after.4),
        result is Ok ==> before.5.accepted(source, mode, Ok::<(), error::ErrorView>(()), after.5),
        result is Ok ==> before.6.accepted(source, mode, Ok::<(), error::ErrorView>(()), after.6),
        result is Err ==> {
            ||| {
                &&& before.0.accepted(source, mode, result, after.0)
                &&& after.1 == before.1
                &&& after.2 == before.2
                &&& after.3 == before.3
                &&& after.4 == before.4
                &&& after.5 == before.5
                &&& after.6 == before.6
            }
            ||| {
                &&& before.0.accepted(source, mode, Ok::<(), error::ErrorView>(()), after.0)
                &&& before.1.accepted(source, mode, result, after.1)
                &&& after.2 == before.2
                &&& after.3 == before.3
                &&& after.4 == before.4
                &&& after.5 == before.5
                &&& after.6 == before.6
            }
            ||| {
                &&& before.0.accepted(source, mode, Ok::<(), error::ErrorView>(()), after.0)
                &&& before.1.accepted(source, mode, Ok::<(), error::ErrorView>(()), after.1)
                &&& before.2.accepted(source, mode, result, after.2)
                &&& after.3 == before.3
                &&& after.4 == before.4
                &&& after.5 == before.5
                &&& after.6 == before.6
            }
            ||| {
                &&& before.0.accepted(source, mode, Ok::<(), error::ErrorView>(()), after.0)
                &&& before.1.accepted(source, mode, Ok::<(), error::ErrorView>(()), after.1)
                &&& before.2.accepted(source, mode, Ok::<(), error::ErrorView>(()), after.2)
                &&& before.3.accepted(source, mode, result, after.3)
                &&& after.4 == before.4
                &&& after.5 == before.5
                &&& after.6 == before.6
            }
            ||| {
                &&& before.0.accepted(source, mode, Ok::<(), error::ErrorView>(()), after.0)
                &&& before.1.accepted(source, mode, Ok::<(), error::ErrorView>(()), after.1)
                &&& before.2.accepted(source, mode, Ok::<(), error::ErrorView>(()), after.2)
                &&& before.3.accepted(source, mode, Ok::<(), error::ErrorView>(()), after.3)
                &&& before.4.accepted(source, mode, result, after.4)
                &&& after.5 == before.5
                &&& after.6 == before.6
            }
            ||| {
                &&& before.0.accepted(source, mode, Ok::<(), error::ErrorView>(()), after.0)
                &&& before.1.accepted(source, mode, Ok::<(), error::ErrorView>(()), after.1)
                &&& before.2.accepted(source, mode, Ok::<(), error::ErrorView>(()), after.2)
                &&& before.3.accepted(source, mode, Ok::<(), error::ErrorView>(()), after.3)
                &&& before.4.accepted(source, mode, Ok::<(), error::ErrorView>(()), after.4)
                &&& before.5.accepted(source, mode, result, after.5)
                &&& after.6 == before.6
            }
            ||| {
                &&& before.0.accepted(source, mode, Ok::<(), error::ErrorView>(()), after.0)
                &&& before.1.accepted(source, mode, Ok::<(), error::ErrorView>(()), after.1)
                &&& before.2.accepted(source, mode, Ok::<(), error::ErrorView>(()), after.2)
                &&& before.3.accepted(source, mode, Ok::<(), error::ErrorView>(()), after.3)
                &&& before.4.accepted(source, mode, Ok::<(), error::ErrorView>(()), after.4)
                &&& before.5.accepted(source, mode, Ok::<(), error::ErrorView>(()), after.5)
                &&& before.6.accepted(source, mode, result, after.6)
            }
        },
{
}

/// A source that eight collectors took was accepted by each of them. One that was refused was refused by one of
/// them with that error, accepted by those before it, and not offered to those behind.
pub proof fn eight_collectors_register_a_source<Src, A: AddSource<Src>, B: AddSource<Src>, C: AddSource<Src>, D: AddSource<Src>, E: AddSource<Src>, F: AddSource<Src>, G: AddSource<Src>, H: AddSource<Src>>(
    before: (A, B, C, D, E, F, G, H),
    source: Src,
    mode: Mode,
    result: Result<(), error::ErrorView>,
    after: (A, B, C, D, E, F, G, H),
)
    requires
        before.registered(source, mode, result, after),
    ensures
        result is Ok ==> before.0.accepted(source, mode, Ok::<(), error::ErrorView>(()), after.0),
        result is Ok ==> before.1.accepted(source, mode, Ok::<(), error::ErrorView>(()), after.1),
        result is Ok ==> before.2.accepted(source, mode, Ok::<(), error::ErrorView>(()), after.2),
        result is Ok ==> before.3.accepted(source, mode, Ok::<(), error::ErrorView>(()), after.3),
        result is Ok ==> before.4.accepted(source, mode, Ok::<(), error::ErrorView>(()), after.4),
        result is Ok ==> before.5.accepted(source, mode, Ok::<(), error::ErrorView>(()), after.5),
        result is Ok ==> before.6.accepted(source, mode, Ok::<(), error::ErrorView>(()), after.6),
        result is Ok ==> before.7.accepted(source, mode, Ok::<(), error::ErrorView>(()), after.7),
        result is Err ==> {
            ||| {
                &&& before.0.accepted(source, mode, result, after.0)
                &&& after.1 == before.1
                &&& after.2 == before.2
                &&& after.3 == before.3
                &&& after.4 == before.4
                &&& after.5 == before.5
                &&& after.6 == before.6
                &&& after.7 == before.7
            }
            ||| {
                &&& before.0.accepted(source, mode, Ok::<(), error::ErrorView>(()), after.0)
                &&& before.1.accepted(source, mode, result, after.1)
                &&& after.2 == before.2
                &&& after.3 == before.3
                &&& after.4 == before.4
                &&& after.5 == before.5
                &&& after.6 == before.6
                &&& after.7 == before.7
            }
            ||| {
                &&& before.0.accepted(source, mode, Ok::<(), error::ErrorView>(()), after.0)
                &&& before.1.accepted(source, mode, Ok::<(), error::ErrorView>(()), after.1)
                &&& before.2.accepted(source, mode, result, after.2)
                &&& after.3 == before.3
                &&& after.4 == before.4
                &&& after.5 == before.5
                &&& after.6 == before.6
                &&& after.7 == before.7
            }
            ||| {
                &&& before.0.accepted(source, mode, Ok::<(), error::ErrorView>(()), after.0)
                &&& before.1.accepted(source, mode, Ok::<(), error::ErrorView>(()), after.1)
                &&& before.2.accepted(source, mode, Ok::<(), error::ErrorView>(()), after.2)
                &&& before.3.accepted(source, mode, result, after.3)
                &&& after.4 == before.4
                &&& after.5 == before.5
                &&& after.6 == before.6
                &&& after.7 == before.7
            }
            ||| {
                &&& before.0.accepted(source, mode, Ok::<(), error::ErrorView>(()), after.0)
                &&& before.1.accepted(source, mode, Ok::<(), error::ErrorView>(()), after.1)
                &&& before.2.accepted(source, mode, Ok::<(), error::ErrorView>(()), after.2)
                &&& before.3.accepted(source, mode, Ok::<(), error::ErrorView>(()), after.3)
                &&& before.4.accepted(source, mode, result, after.4)
                &&& after.5 == before.5
                &&& after.6 == before.6
                &&& after.7 == before.7
            }
            ||| {
                &&& before.0.accepted(source, mode, Ok::<(), error::ErrorView>(()), after.0)
                &&& before.1.accepted(source, mode, Ok::<(), error::ErrorView>(()), after.1)
                &&& before.2.accepted(source, mode, Ok::<(), error::ErrorView>(()), after.2)
                &&& before.3.accepted(source, mode, Ok::<(), error::ErrorView>(()), after.3)
                &&& before.4.accepted(source, mode, Ok::<(), error::ErrorView>(()), after.4)
                &&& before.5.accepted(source, mode, result, after.5)
                &&& after.6 == before.6
                &&& after.7 == before.7
            }
            ||| {
                &&& before.0.accepted(source, mode, Ok::<(), error::ErrorView>(()), after.0)
                &&& before.1.accepted(source, mode, Ok::<(), error::ErrorView>(()), after.1)
                &&& before.2.accepted(source, mode, Ok::<(), error::ErrorView>(()), after.2)
                &&& before.3.accepted(source, mode, Ok::<(), error::ErrorView>(()), after.3)
                &&& before.4.accepted(source, mode, Ok::<(), error::ErrorView>(()), after.4)
                &&& before.5.accepted(source, mode, Ok::<(), error::ErrorView>(()), after.5)
                &&& before.6.accepted(source, mode, result, after.6)
                &&& after.7 == before.7
            }
            ||| {
                &&& before.0.accepted(source, mode, Ok::<(), error::ErrorView>(()), after.0)
                &&& before.1.accepted(source, mode, Ok::<(), error::ErrorView>(()), after.1)
                &&& before.2.accepted(source, mode, Ok::<(), error::ErrorView>(()), after.2)
                &&& before.3.accepted(source, mode, Ok::<(), error::ErrorView>(()), after.3)
                &&& before.4.accepted(source, mode, Ok::<(), error::ErrorView>(()), after.4)
                &&& before.5.accepted(source, mode, Ok::<(), error::ErrorView>(()), after.5)
                &&& before.6.accepted(source, mode, Ok::<(), error::ErrorView>(()), after.6)
                &&& before.7.accepted(source, mode, result, after.7)
            }
        },
{
}

} // verus!
