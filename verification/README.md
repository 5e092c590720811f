# ncrawler

A two-phase scrape -> build toolkit for observability surfaces. Scrapes leave
artifacts on disk; builders derive reports and embeddings from them, offline.

`src/` is the verified library:

- `text`, `order`, `collect`, `json`, `time`, `path`, `digest`: the vocabulary.
  `json_laws` shows that printing tells JSON values apart.
- `artifact`, `sidecar`, `error`: what is stored, and what can go wrong.
- `store`, `since`: the layout of the artifact store, and its listing.
  `store_laws` shows what a disk gives back once the plans are carried out.
- `secrets`, `redact`, `masking`: what a secret is, how it is masked, and what
  masking guarantees.
- `report_md`: the Markdown report of an artifact, its secrets masked unless the
  options turn that off.
- `grafana`: the report and the audit of a Grafana instance. `sql`, `model` and
  `render` make the pages, `fingerprint` and `audit` the findings, `options` and
  `report` put them together. `laws` holds what spans them, `fingerprint_laws`
  what a fingerprint tells.
- `vector`: chunks, word-count embedding, records, the in-memory store, and the
  decisions of the database backends.
- `ai`: the decisions of the AI report pipeline.
- `cli`: what the command line decides and prints.

Every function states in its contract what it returns. Proof functions whose
names start with `law_` state what holds across functions.

`tests/` holds the tests. `app/` is the program around the library: files,
network, asynchronous runs, serialised shapes and floating point.
