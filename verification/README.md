# miplog

Reads the logs of MIP and LP solvers into one schema. Every solver writes its
log differently: other column names, other words for "optimal", other units.
`miplog` reads the log of any supported solver and gives back the same shape.

Supported: SCIP 10-11, Gurobi 11-13, Xpress 9, HiGHS 1.12-1.14, CPLEX
12.7-12.8, CBC 2.9, COPT 8.0, OptVerse 2.0, Mosek 11.0.

The library is written in Verus: what each function returns is stated in its
contract and proved.

## Layout

- `src/lib.rs`: detecting the solver and reading a log.
- `src/schema.rs`: the schema. Numbers keep the literals they were written
  with (`src/quantity.rs`, `src/numbers.rs`); `src/doubles.rs` says which
  double a literal stands for.
- `src/solvers/`: one reader for each solver. Regular expressions are searched
  by the `regex` crate (`src/matching.rs`); what is made of the findings is
  stated over named results of the search.
- `src/input.rs`: the bytes of a log file as text, decompressed by the `flate2`
  crate where they have to be; taking apart a text that holds several runs.
- `src/text.rs`: the summary for people.
- `src/fields.rs`, `src/document.rs`, `src/printed.rs`, `src/writing.rs`,
  `src/roundtrip.rs`: the text form of a log. It is written with the numbers as
  the caller prints them, and read back as it was written
  (`law_document_is_read_back`).
- `src/chars.rs`, `src/table.rs`, `src/json.rs`: text, sorted lists of names,
  and free-form values.
- `app/`: the command line, files, JSON and the Python bindings.

Public proof functions whose names start with `law_` state what holds of the
library as a whole.

## Command line

```
miplog run.log                    # summary
miplog run.log --format json      # JSON
miplog run.log -o run.json.gz     # compressed, by its extension
cat run.log | miplog -            # standard input
```
