# flectar_mail_core

The core of a mail client, written in Rust and verified with Verus: what is stored and queried of
accounts, messages, threads, contacts and labels, the file workspace over JMAP and WebDAV, and the
grid of HTML tables. The rules stand in the library with contracts that Verus proves; the program
around it sends requests, runs statements and reads files. What is computed in floating point stands
in the program: the scores by which search results are fused and boosted, and the lengths of table
styles.

## Layout

- `src/` is the verified library.
  - `text`, `sorting`, `error`, `config`: texts, orders, failures and directories.
  - `db`: how stores are opened and how coherent snapshots of them are taken.
  - `files`: storage over JMAP (`jmap`, `listing`, `changes`, `copying`, `transfer`) and WebDAV
    (`xml`, `dav`, `davwrite`, `folder`), what is recorded of it (`sync`, `projection`, `tree`,
    `store`, `cache`), search in mail (`mail_search`, `text_index`) and the workspace itself
    (`service`, `course`, `perform`, `refresh`, `edit`, `render`, `progress`).
  - `repo`: accounts, queued actions, attachments, contacts and their CardDAV copies, counts,
    folded texts, labels, messages, search, sender identities and threads.
  - `layout`: the grid of a table.
- `app/` is ordinary Rust around the library: SQLite, HTTP, the file system and the credential
  store.
- `tests/` runs the library, with the outside crates that it calls.

## Reading the contracts

Types have a model, reached by `@`; contracts speak of models. Laws that relate several functions
are public proof functions beside them. What an outside crate computes is called through small
wrappers marked `external_body`; their doc comments say what is believed of it. A result that
takes pages to state has a name, a spec function without a body, and contracts speak of that name.
