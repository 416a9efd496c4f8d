# decision_tables_service

Decision tables read from a workbook: each column before the last is a rule
(a query field, a comparison and one cell per variant, `*` for any value),
the last column, `out`, holds the results. A query, a JSON object, selects
the results of the variants whose every rule accepts it, in the table's order.

The library in `src/` is verified with Verus:

- `values.rs`, `conditions.rs`, `lib.rs`: the values rules compare and the
  comparisons;
- `json.rs`, `json_parseable.rs`: queries, and reading a query field as a
  rule's value type;
- `datetime.rs`: the calls into chrono;
- `text.rs`: integer parsing and character helpers;
- `decession_table.rs`: rules, the table, building it from a source, and the
  laws the checks obey;
- `xlsx_dt_data_source.rs`: reading a worksheet's header rows and cells;
- `error.rs`: the errors.

`app/` opens workbooks with calamine, parses queries with simd-json, holds the
Java bindings, and turns errors into messages.

Two maps are held as vectors. What a rule remembers is a list of (query
value, answer) pairs searched by the value type's equality: a hash map keyed
by strings or date-times cannot be specified by Verus for those key types (its
contract rests on `Hash` and `Eq` impls that Verus does not read), while a
list searched with verified comparisons can. The rules of a worksheet, which
are numbered `0..n` without gaps, are a vector indexed by their number.
Chunks of the multi-threaded check are checked one after another, in order,
which gives the same answer as running them on threads and joining them.
