# ohnotel

A metrics library: counters, gauges and histograms that are kept per attribute set, observers that
turn their state into series, and the forms in which those series leave the process.

The library is verified with Verus. What it does is stated in the contracts of its functions and in
the public proof functions beside them.

| Where | What |
| --- | --- |
| `src/model.rs`, `src/convert.rs`, `src/ordering.rs` | attribute values, their order, equality and text |
| `src/number.rs`, `src/text.rs`, `src/order.rs`, `src/time.rs` | doubles by their bits, text, sorting, clocks and dates |
| `src/atomic/` | amounts, the cells that accumulate them, and histograms |
| `src/attr_map.rs`, `src/bucket_map.rs`, `src/metric.rs` | cells per attribute set, and the metrics made of them |
| `src/lock.rs` | a sequence lock |
| `src/observe.rs`, `src/dto.rs`, `src/reporting.rs` | observers, series, and what polls report |
| `src/collect/` | registration, the poll and export grid, and the worker of a periodic collector |
| `src/console/`, `src/otel/`, `src/prometheus/` | the text for a terminal, OTLP metrics, and the Prometheus exposition format |
| `app/` | ordinary Rust around the library: shared handles, threads and tasks, gRPC, standard output, the environment, doubles, serde |

What rests on code outside the library is stated, not proved: the hash map of `hashbrown`, the
conversion to doubles of `num-traits`, and a few functions of the standard library. Each stands behind
a small function whose doc comment says what is relied on.
