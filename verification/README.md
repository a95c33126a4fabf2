# pq

`pq` parses and queries streams of log records. A program names a decoder
(a regular expression `/.../` or `json`), optionally maps the decoded fields to
a record (`map {...}`), queries the records with a PromQL-like language
(`select ...`) and chooses an output format (`to_json`, `to_promapi`).

The library in `src/` is written in Verus: each function carries a contract
that Verus proves.

- `text`, `parse`, `lexer`: the character-level model of the input, positions
  (line and byte offset) and the error values of the parsers.
- `duration`: duration literals (`1h30m`), in milliseconds.
- `query::parser`: the query grammar (`ast`, `vector`, `expr`), each parser
  proved equal to a spec function of the grammar.
- `program`: the program grammar.
- `model`: label matchers, label sets and their signatures (sorted pairs,
  ordered lexicographically).
- `query::value`, `query::sample`, `query::aggregate`, `query::evaluator`: the
  values of a query (generic over the sample value), one-to-one vector
  matching, the distribution of samples to cursors, the grouping of
  aggregations and the selection of `topk`/`bottomk`, the tree of evaluators
  of a query (`evaluation_plan`) and the decisions of the evaluation.
- `time`, `parsing`, `decoding`, `runner`: timestamps, line parsers, JSON
  decoding and the decisions of a run.

Calls into the `regex`, `nom`, `chrono` and `serde_json` crates stand behind
small functions whose contracts name what those crates compute.

`app/` holds the floating-point side of the evaluation (arithmetic,
comparisons, the steps of the folds of aggregations and the ranking of
`topk`/`bottomk`), which Verus does not reason about.
