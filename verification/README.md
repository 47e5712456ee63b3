# svn_desktop_tool

The core of a desktop Subversion client, verified with Verus.

`src/` is the library.  Every function in it carries a contract and is
proved; the few calls into other crates and into std sit behind small
trusted wrappers whose doc comments say what is assumed of them.

- `parser` reads svn's `--xml` output (info, list, log, status,
  proplist), `svn blame`, `svn auth` and `{U+XXXX}` escapes; `xml` turns
  the bytes into events with `quick_xml`.
- `models` holds the data types and the classification of svn errors.
- `conflict` parses conflicted files into blocks and assembles the
  result of a per-block choice, byte for byte.
- `diff` turns a `similar` line diff into byte-offset chunks.
- `commands` builds svn argument lists, checks user input and shapes the
  results of the commands; `ignore` plans additions to `svn:ignore`.
- `task`, `favorites`, `history`, `watch` and `settings` are the small
  state machines behind the UI.

`app/` is the unverified shell: it runs `svn`, reads and writes files,
keeps the JSON stores, runs background threads and watches directories,
and leaves every decision to the library.

`tests/` exercises the library on concrete inputs.
