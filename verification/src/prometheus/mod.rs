//! Pull-based Prometheus exporter.
//!
//! Collection is driven by scrapes: rendering a collector reads every registered source and returns
//! the current cumulative state in the Prometheus text exposition format (version 0.0.4). Serve the
//! text with the content type `text/plain; version=0.0.4; charset=utf-8`.

pub mod collector;
pub mod dto;
pub mod merging;

use vstd::prelude::*;
use vstd::string::*;

verus! {

/// Errors produced while mapping metrics onto the Prometheus exposition format.
#[derive(Debug)]
pub enum Error {
    EmptyMetricName,
    /// The metric's name.
    EmptyLabelName(String),
    /// The family or sample name on which two metrics meet.
    FamilyCollision(String),
    /// The label name, then the metric's name.
    LabelCollision(String, String),
    /// The rendered labels, then the metric's name.
    DuplicateSeries(String, String),
    /// The metric's name.
    NonFiniteBoundary(String),
}

pub ghost enum ErrorView {
    EmptyMetricName,
    EmptyLabelName(Seq<char>),
    FamilyCollision(Seq<char>),
    LabelCollision(Seq<char>, Seq<char>),
    DuplicateSeries(Seq<char>, Seq<char>),
    NonFiniteBoundary(Seq<char>),
}

impl View for Error {
    type V = ErrorView;

    open spec fn view(&self) -> ErrorView {
        match self {
            Error::EmptyMetricName => ErrorView::EmptyMetricName,
            Error::EmptyLabelName(metric) => ErrorView::EmptyLabelName(metric@),
            Error::FamilyCollision(name) => ErrorView::FamilyCollision(name@),
            Error::LabelCollision(label, metric) => ErrorView::LabelCollision(label@, metric@),
            Error::DuplicateSeries(labels, metric) => ErrorView::DuplicateSeries(labels@, metric@),
            Error::NonFiniteBoundary(metric) => ErrorView::NonFiniteBoundary(metric@),
        }
    }
}

/// What an error says to a reader.
pub open spec fn error_text(error: ErrorView) -> Seq<char> {
    match error {
        ErrorView::EmptyMetricName => "prometheus metric name must not be empty"@,
        ErrorView::EmptyLabelName(metric) => "metric '"@ + metric
            + "': prometheus label name must not be empty"@,
        ErrorView::FamilyCollision(name) => "distinct metrics collide on prometheus family name '"@
            + name + "'"@,
        ErrorView::LabelCollision(label, metric) => "metric '"@ + metric
            + "': attribute keys collide on prometheus label name '"@ + label + "'"@,
        ErrorView::DuplicateSeries(labels, metric) => "metric '"@ + metric
            + "': duplicate time series with labels '"@ + labels + "'"@,
        ErrorView::NonFiniteBoundary(metric) => "metric '"@ + metric
            + "': non-finite prometheus histogram boundary"@,
    }
}

impl Error {
    /// The message for a reader.
    pub fn message(&self) -> (r: String)
        ensures
            r@ == error_text(self@),
    {
        let mut out = String::new();
        match self {
            Error::EmptyMetricName => {
                out.append("prometheus metric name must not be empty");
            },
            Error::EmptyLabelName(metric) => {
                out.append("metric '");
                out.append(metric.as_str());
                out.append("': prometheus label name must not be empty");
            },
            Error::FamilyCollision(name) => {
                out.append("distinct metrics collide on prometheus family name '");
                out.append(name.as_str());
                out.append("'");
            },
            Error::LabelCollision(label, metric) => {
                out.append("metric '");
                out.append(metric.as_str());
                out.append("': attribute keys collide on prometheus label name '");
                out.append(label.as_str());
                out.append("'");
            },
            Error::DuplicateSeries(labels, metric) => {
                out.append("metric '");
                out.append(metric.as_str());
                out.append("': duplicate time series with labels '");
                out.append(labels.as_str());
                out.append("'");
            },
            Error::NonFiniteBoundary(metric) => {
                out.append("metric '");
                out.append(metric.as_str());
                out.append("': non-finite prometheus histogram boundary");
            },
        }
        assert(out@ =~= error_text(self@));
        out
    }
}

} // verus!
