# alx

`alx` is a local store of tasks, of the artifacts that belong to them, and of annotations on the
artifacts. The library in `src/` is verified with Verus; `app/` is the program around it: the
command line, the SQLite database, the web server and the background service.

## How it is laid out

| Module | What it holds |
| --- | --- |
| `model` | tasks, artifacts, annotations and their views |
| `state` | what the store holds, and what each operation does to it |
| `store` | the store itself |
| `app` | the store with the clock and the source of UUIDs |
| `laws`, `behaviour` | what every operation keeps, and how operations act together |
| `changes` | what has to be written to the database after an operation |
| `schema` | the steps that bring a database up to date |
| `ident`, `text`, `like`, `order` | UUIDs, texts, patterns, and the order of lists |
| `markdown` | feedback, review and context as Markdown, and Markdown as safe HTML |
| `dump`, `grep` | the file tree of an export, and the search for a pattern |
| `cli` | the commands and what they print |
| `bind`, `service`, `readback` | addresses, and the files and commands of the service |
| `web`, `password`, `gates`, `review` | sessions, logins, hosts and origins, and reviews in the browser |

A store is read from the database in one transaction, an operation runs on it, and what it changed
is written in the same transaction. So each operation sees and leaves a valid store.

The functions that call other crates stand behind small functions marked
`#[verifier::external_body]`. The comment above each says what is taken on trust.
