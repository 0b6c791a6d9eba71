# kova_query

KQL is a SQL-shaped language for hybrid searches that combine vector
similarity with metadata filters. This crate holds its pipeline, verified with
Verus: text, syntax tree, bound statement, physical plan, rows.

```sql
SELECT id, embedding <-> $query AS distance, metadata
FROM vectors
WHERE category = 'docs' AND year >= 2024
ORDER BY embedding <-> $query LIMIT 10
```

## Layout of `src/`

| Stage | Modules |
|---|---|
| Text | `keyword`, `lexer`, `grammar`, `parser`, `ast`, `syntax` |
| Printing | `canon`, `printer`, `shortest`, and the round trip in `shape`, `relex`, `reparse`, `yields`, `roundtrip` |
| Numbers | `bignat`, `ieee`, `text` |
| Values and parameters | `value`, `value_laws`, `params` |
| Binding | `logical`, `binder`, `normal_form` |
| Planning | `physical`, `planner`, `cost`, `plan_laws` |
| Rows | `eval`, `assign`, `rows`, `select`, `knn_laws` |
| Indexes | `treemap`, `index_eval` |
| Execution | `steps`, `executor`, `exec_laws`, `distance_laws` |

Floating-point numbers are handled through their bit patterns.

Execution is a conversation with a shard: `executor::start` and
`executor::resume` make every decision and say what to ask of the shard next.
`app/` performs what is asked, and holds the cost formulas, which compute in
floating point.

What is believed without proof: the bitmaps of the `roaring` crate
(`treemap.rs`) and `String::push` (`text.rs`).
