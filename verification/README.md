# metricpipe

Takes in OpenTelemetry metrics (OTLP), lays each data point out as one flat row,
and gets the rows ready for a table in ClickHouse. The library is written in
Verus: what its functions return is stated in their contracts and proved.

* `src/otlp` decodes export requests in JSON, fills in what the decoder would
  stumble over, and takes requests apart into events, one for each data point.
* `src/event` is the event and its forms: wall-clock timestamps, rows with and
  without column names, lines for people, and an estimate of its size.
* `src/sink` has the statements that make the table, the inserts and the
  requests that carry them, and the health check.
* `src/source` has the batches that events travel in.
* `src/json`, `src/document`, `src/double`, `src/text`, `src/scan` and `src/count`
  are what these stand on.
* `app` is ordinary Rust around the library: serde, the queue, the HTTP client.

Doubles are carried as their bit patterns (`Double`); turning them into text and
back is left to `app`. Public proof functions named `lemma_..` state what holds
across functions: one event a data point, rows that line up with the columns of
the statement, bodies that read back, timestamps that tell moments apart, tables
that pass the check they were made for.
