# treesitter_mcp

The core of a tree-sitter based code-navigation server for coding agents,
written in Verus. Every function of the library carries a contract; the
verifier proves them all except those of the few trusted wrappers (marked
`#[verifier::external_body]`) around the outside calls: the cl100k
tokenizer, regular expressions, JSON string quoting and std path, string
and UTF-8 functions. Each wrapper's doc comment says what its contract
claims of the call.

Layout:

- `src/` — the verified library. Compact row encoding (`rows`), token
  budgets (`budget`, `batch`), search (`search`), call graphs and call paths
  over syntax trees (`syntax`, `walk`, `call_graph`, `graph_rows`,
  `graph_tool`, `callpath`), include chains (`depends`), argument flow
  (`flow_text`, `argflow`), writes (`writes`), LSP bridges (`lsp`,
  `diagnostics`, `references`), symbol edits and renames (`edit`,
  `rename`), listings (`typemap`, `modmap`, `boot`), the persistent index
  (`index`), the parse cache (`cache`), relevant tests (`relevant`), the
  context planner (`planner`), hints and did-you-mean messages (`hints`,
  `suggest`), and the tool argument types (`tools`).
- `tests/` — tests of the library on concrete values.
- `app/` — the MCP server around it: tool schemas, the request handler and
  the file-system work (walking a project, reading files).

Laws of the library are public proof functions named `law_*`.
