# minutes_core

Meeting and voice-memo processing: whisper transcripts cleaned of
hallucinated repetition, titles and structured intent taken from the text and
from LLM summaries, people and projects linked, and the saved record — with
each function's behaviour stated in Verus contracts and proved.

- `src/` — the verified library.
  - `text` — character-level primitives (trimming, searching, splitting,
    lowercasing through `std`, UTF-8 byte offsets, lexicographic order).
  - `segments` — the three transcript-cleaning passes and `clean_transcript`.
  - `transcribe` — model lookup, audio kinds, whisper segment lines, and the
    transcription sequence over a `TranscribeBackend`.
  - `summary`, `speakers` — prompt chunks, reply parsing, markdown rendering,
    the requests made of an LLM through a caller-supplied `ask`, and the
    speaker labels of diarized lines.
  - `engines` — the HTTP call each API engine's request becomes, what its
    reply yields, and where an agent CLI is found.
  - `title`, `intents`, `entities` — titles, action items/decisions/intents,
    and the sorted people and project lists.
  - `pipeline` — the processing decisions, the saved record, and
    `process_with_progress` over `PipelineServices`.
  - `screens`, `frontmatter`, `cli`, `config` — screenshots (their names,
    directory and order), reading saved records, command-line decisions,
    settings.
- `tests/` — tests of the library.
- `app/` — the `minutes` command line: files, processes, HTTP, audio decoding,
  whisper, pyannote and screen capture.
