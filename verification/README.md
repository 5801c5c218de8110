# litmine

A library and a command line program that mine scholarly literature into a corpus: works
are found in OpenAlex, Crossref and arXiv, screened for academic value and relevance, their
open PDFs downloaded and rendered, their pages indexed in a vector database, and their
citations exported.

`src/` is the library, verified by Verus. Every executable function states in its contract
what it returns, over mathematical models of its arguments: `Seq<char>` for texts, a `View`
for each record, `Map` for tables of texts, and a `StateView` of sequences of rows for the
state of a corpus.

| Module | What it holds |
| --- | --- |
| `text`, `util` | texts, persistent identifiers, fingerprints, slugs, digests |
| `score` | floating-point numbers as bits, with their orders |
| `json`, `table`, `order`, `model` | JSON values, tables of texts, stable sorting, copies |
| `domain` | plans, works, candidates, and how works are merged |
| `config`, `retry` | settings, and how often a request is made |
| `discovery` | what sources are asked, what their answers say, and what is one work |
| `quality`, `citations` | academic value; CSL JSON, BibTeX and RIS |
| `download`, `render`, `nvidia`, `qdrant` | PDFs, pages, models and the vector database |
| `state`, `pipeline` | the tables of a corpus, and the stages that change them |
| `adapters` | the calls into other crates, with what is claimed of each |

What relates several functions is proved in functions whose names begin with `law_`.

`app/` is the program around the library: the command line, HTTP, SQLite, files, PDFium and
the figures that need floating point. `tests/` runs the library on concrete values.
