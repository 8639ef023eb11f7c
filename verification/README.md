# pkmt

A personal knowledge management tool for notes in the LogSeq, Obsidian and zk markdown
flavours: it reads notes in each format, writes them as LogSeq or zk notes, converts between the formats, builds checklists of
note trees, finds problems in a notebook (empty notes, similar names, quoted titles, compact tag
lists) and imports Todoist inbox tasks (YouTube videos and playlists, Stronger by Science
articles, or any link assigned to a template by hand) into a LogSeq journal or a zk notebook.

The library in `src/` is written in Verus: every function carries a contract, stated over
mathematical models of the documents (sequences of characters, components and properties),
and Verus proves the code against it. Calls into other crates (`regex`, `scraper`,
`edit-distance`, `pathdiff`, `json`, `url` through `reqwest`, and a few parts of `std::path`)
stand behind small trusted wrappers whose contracts say what those crates compute.

Layout of `src/`:

- `text`, `order`, `paths`: character sequences, the order of strings, file paths.
- `document`, `search`, `edit`, `collapse`, `tidy`, `mentions`, `redirect`: the document model,
  finding and editing components, merging texts, tidying text, mentioned files, redirecting
  links.
- `md_lexer`, `md_parsing`, `logseq_lexer`, `logseq_parsing`, `obsidian_lexer`,
  `obsidian_parsing`, `zk_lexer`, `zk_parsing`, `resolve`, `parse`: reading notes.
- `render_spec`, `render`: writing notes.
- `config`, `tasks`, `imports`, `youtube`, `handlers`: the Todoist import.
- `similar`, `duplicates`, `checklist`, `ui_state`, `util`: notebook inspection, checklists and
  the state of the terminal dialogs.

`app/` holds the command line program around the library: argument parsing, files, network
access, the terminal user interface and the stored configuration. `tests/` holds the tests.
