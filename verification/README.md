# Lexica

A local-first English dictionary with spaced review. The rules of the application
live in the verified library under `src/`; the desktop shell under `app/` does the
I/O (SQLite, HTTP, the credential store, the Tauri commands) and the floating-point
memory arithmetic.

## Library (`src/`, verified with Verus)

- `domain` – typed ids and comprehension levels.
- `text`, `scan` – string primitives, trimming, first-match search.
- `dictionary` – head-word normalisation, the lookup chain (exact, folded,
  inflected form, suggestions), entry assembly, prefix bounds and
  suggestion merging, ECDICT row mapping, seed rows, setup decisions.
- `memory` – event decoding, the integer projection of a word's event stream
  (counts, weak streak, priority), the visit and comprehension policies,
  statistics and the review queue.
- `review` – cloze construction, masks, edit distance and grading, prompts, the
  review group, hint rules and pending reviews.
- `ai` – configuration, cache keys, request texts and bodies, validation and
  blanking of generated sentences, the generation flow's decisions.
- `library`, `commands`, `database`, `error` – notes and activity chart, the
  command results and list joins, migrations to apply, error codes and messages.

## Review sessions

A review session holds at most 10 words (`REVIEW_SESSION_LIMIT`). The product
description speaks of up to 12 questions; the library follows the session tests,
which expect 10.

## Application (`app/`)

`main.rs` sets up the database and registers the commands; the other modules
query SQLite, talk to the network and the credential store, and hand plain values
to the library.

## Tests

`tests/` exercises the library on concrete values, including every law that the
library states.
