//! What is written to a terminal.

use crate::console::dto;
use crate::console::dto::Metric;
use crate::order;
use vstd::prelude::*;
use vstd::string::*;

verus! {

/// Sends metrics to standard output as a multi-line text block per metric.
#[derive(Debug, Clone, Copy)]
pub struct Stdout;

/// The text of a batch: that of every metric, each with a line feed behind it.
pub open spec fn batch_text(metrics: Seq<dto::MetricView>) -> Seq<char>
    decreases metrics.len(),
{
    if metrics.len() == 0 {
        Seq::empty()
    } else {
        batch_text(metrics.drop_last()) + dto::metric_text(metrics.last()) + seq!['\n']
    }
}

impl Stdout {
    /// The text of a batch.
    pub fn render(&self, metrics: &Vec<Metric>) -> (r: String)
        ensures
            r@ == batch_text(order::views(metrics@)),
    {
        let ghost all = order::views(metrics@);
        let mut out = String::new();
        let mut i: usize = 0;
        assert(out@ =~= batch_text(all.take(0)));
        while i < metrics.len()
            invariant
                i <= metrics@.len(),
                all == order::views(metrics@),
                out@ == batch_text(all.take(i as int)),
            decreases metrics@.len() - i,
        {
            out.append(metrics[i].render().as_str());
            out.push('\n');
            proof {
                let taken = all.take(i + 1);
                assert(taken.drop_last() =~= all.take(i as int));
                assert(taken.last() == metrics@[i as int]@);
                assert(out@ =~= batch_text(taken));
            }
            i = i + 1;
        }
        assert(all.take(i as int) =~= all);
        out
    }
}

} // verus!
