# rust_ast_gen

Generates JSON representations of the syntax trees of Rust source files, and
models the Rust grammar (in Ungrammar notation) for generating bindings to
that JSON.

The library under `src/` is verified with Verus:

- `grammar::ungrammar` reads a grammar through the `ungrammar` crate and lists
  its rule names and tokens;
- `grammar::model` builds the cardinality model of a grammar: for each node,
  the elements its rule uses and how often each occurs (one, optional, many),
  and the nodes reachable from a node;
- `scala_gen::names` maps grammar names to JSON kinds and binding names;
- `config` and `cli` check the directories and map each source file to the
  path of its JSON file, mirroring the input directory's layout;
- `syntax` parses a source text with rust-analyzer's parser into a plain
  syntax tree and checks that the tree fits the text;
- `line_index`, `json_gen` and `json` turn the syntax tree of a source file
  into the JSON records (comments and whitespace left out).

`app/` is the command-line program: it walks the input directory, reads each
file, has the library build its JSON and writes the JSON out.
