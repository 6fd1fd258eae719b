# rigg

rigg manages Azure AI Search and Microsoft Foundry resources as files in a
workspace: projects hold resource definitions per environment, and
environments bind the names the definitions use to real Azure resources.
This crate holds the logic of that tool as a verified library: selecting
and planning adoptions, editing environments and bindings, naming and
resolving proposed bindings, comparing and canonicalising stored
definitions, and rendering reports. The program in `app/` runs copy, env,
docs-check and version; `adopt` and `auth easy-auth` run their local
usage checks and then stop, and every other command stops with an error
at once, since the service clients and the remaining command code are not
part of this crate.

## Layout

- `src/` is the library, verified with Verus. Every public function states
  what it returns in its `ensures`, over spec functions on plain values
  (`Seq`, `Map`, `int`) and a JSON model (`json::Json`). Laws that relate
  several functions are public proof functions named `law_*`.
- `tests/` runs the library on concrete values.
- `app/` is the command-line program around the library: argument parsing,
  files, terminal prompts and serde conversions.

## Modules

| module | what it holds |
| --- | --- |
| `text` | string and character-sequence helpers with their specs |
| `json` | the JSON model and reading/writing members of documents |
| `resources`, `store`, `workspace` | resource kinds, the on-disk layout, workspaces and environments |
| `canonical`, `sorting` | canonical form, equality and annotation carry-over of stored documents; orders and stable sorting |
| `binding`, `environments`, `proposals` | environment bindings: parsing, editing, learning names |
| `ask` | questions, answers, and scripted answering |
| `adopt`, `commands` | usage checks, wizard list, selection and planning for adoption; small command helpers |
| `auth`, `site_auth`, `credentials`, `endpoints` | auth report model, settings-check verdicts, fixes; Entra settings merge and easy-auth preconditions; connection credentials |
| `diff_output` | rendering of diff results |
| `project_graph`, `project_report`, `ordering` | resource summaries, the project report (JSON and text), dependency order |
| `rewrite`, `agent`, `indexer_runs`, `long_text`, `docs`, `api_versions` | copy renaming, agent replies, indexer run problems, long text properties, documentation scans, API versions |
