//! What can go wrong in registering, observing and exporting metrics.

use crate::prometheus;
use vstd::prelude::*;

verus! {

#[derive(Debug)]
pub enum Error {
    /// Histogram boundaries are empty or not in strictly increasing order.
    InvalidHistogramBoundaries,
    /// A gauge cannot be observed as deltas.
    DeltaForGauge,
    /// A source cannot be drained by more than one collector.
    DestructiveWithMultipleCollectors,
    /// A source was registered before, under another mode.
    ModeMismatch,
    /// An identity was registered before for draining observation.
    DuplicateDestructive,
    ZeroPollPeriod,
    ZeroExportPeriod,
    PollPeriodExceedsExportPeriod,
    /// A value has no double that stands for it.
    ValueToF64,
    /// A histogram boundary has no double that stands for it.
    BoundaryToF64,
    /// A value does not fit a signed integer of 64 bits.
    ValueToI64,
    /// A timestamp lies before the Unix epoch.
    TimeBeforeEpoch,
    /// A timestamp's nanoseconds since the Unix epoch do not fit 64 bits.
    TimeOverflowsU64,
    /// The receiving collector dropped data points.
    OtlpPartialExport { rejected_data_points: i64, error_message: String },
    Prometheus(prometheus::Error),
}

pub ghost enum ErrorView {
    InvalidHistogramBoundaries,
    DeltaForGauge,
    DestructiveWithMultipleCollectors,
    ModeMismatch,
    DuplicateDestructive,
    ZeroPollPeriod,
    ZeroExportPeriod,
    PollPeriodExceedsExportPeriod,
    ValueToF64,
    BoundaryToF64,
    ValueToI64,
    TimeBeforeEpoch,
    TimeOverflowsU64,
    OtlpPartialExport { rejected_data_points: i64, error_message: Seq<char> },
    Prometheus(prometheus::ErrorView),
}

impl View for Error {
    type V = ErrorView;

    open spec fn view(&self) -> ErrorView {
        match self {
            Error::InvalidHistogramBoundaries => ErrorView::InvalidHistogramBoundaries,
            Error::DeltaForGauge => ErrorView::DeltaForGauge,
            Error::DestructiveWithMultipleCollectors => ErrorView::DestructiveWithMultipleCollectors,
            Error::ModeMismatch => ErrorView::ModeMismatch,
            Error::DuplicateDestructive => ErrorView::DuplicateDestructive,
            Error::ZeroPollPeriod => ErrorView::ZeroPollPeriod,
            Error::ZeroExportPeriod => ErrorView::ZeroExportPeriod,
            Error::PollPeriodExceedsExportPeriod => ErrorView::PollPeriodExceedsExportPeriod,
            Error::ValueToF64 => ErrorView::ValueToF64,
            Error::BoundaryToF64 => ErrorView::BoundaryToF64,
            Error::ValueToI64 => ErrorView::ValueToI64,
            Error::TimeBeforeEpoch => ErrorView::TimeBeforeEpoch,
            Error::TimeOverflowsU64 => ErrorView::TimeOverflowsU64,
            Error::OtlpPartialExport { rejected_data_points, error_message } => {
                ErrorView::OtlpPartialExport {
                    rejected_data_points: *rejected_data_points,
                    error_message: error_message@,
                }
            },
            Error::Prometheus(error) => ErrorView::Prometheus(error@),
        }
    }
}

} // verus!
