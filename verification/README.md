# scrut

A testing toolkit for command line applications. Test documents (Markdown
or Cram) hold shell expressions together with the output and exit code they
are expected to produce; scrut runs the expressions and compares.

The library in `src/` holds the logic, verified with Verus: the parsers of
test documents, the expectation rules and the comparison of output with
expectations, the escaping of non-printable output, the interpolation of
environment variables, the generators that write documents from outcomes,
and the decisions of the executors (the script that runs all expressions of
a document, the dividers by which its output is split among them, and what
each output means for the test cases). Laws that span functions stand as
public proof functions beside them: `diff_laws.rs` (what every comparison
result satisfies), `rendering_laws.rs` (rendered output reads back as
expectations that match it), `executors/protocol_laws.rs` (script output
divides back into the outputs of the expressions), `parsers/cram_laws.rs`
and `generators/cram_laws.rs` (a generated Cram document reads back as its
test case).

`app/` is the command line program around the library: it finds and reads
documents, reads YAML configuration, runs the shell (in Cram mode one
script for all test cases, else one bash process per test case, with the
shell state carried from one to the next), and prints reports.

`tests/` exercises the library on concrete values.
