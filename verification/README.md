# mteam_query

A command-line client for the M-Team torrent site, with its logic in a library
verified by Verus.

- `src/` is the verified library:
  - `text.rs`: characters of strings, trimming, substrings, decimal numbers and
    parsing of unsigned integers, each specified over `Seq<char>`;
  - `models.rs`: the configuration, torrent and answer types, and the category table;
  - `sorting.rs`: a stable sort by integer keys, with what a stable sort is, and
    proofs that it orders by key, is unique, is idempotent and, with keys that
    order the other way round, gives the reverse order;
  - `utils.rs`: size formatting, Chinese subtitle detection, titles, category
    names and the ordering of torrents;
  - `json.rs`: JSON string literals, with the escaping rules stated and proved;
  - `client.rs`: search and download-token request bodies, endpoint addresses and the reading of the
    site's answers;
  - `config.rs`: the check of a loaded configuration;
  - `menu.rs`: the decisions of the interactive session;
  - `printer.rs`: the content of the result table and of the detail view.
- `app/` holds the program: command line, configuration file, HTTP requests,
  prompts and terminal output.
- `tests/` runs the library on concrete values.
