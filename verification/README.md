# Aegis host

A download broker for Chromium browsers. A download is written into a quarantine
directory, scanned as it arrives and again when it is complete, and moved to the
Downloads folder only if nothing speaks against it.

## Layout

- `src/` is the library, verified with Verus. It holds every decision: what a
  file is, what in it is suspicious, how risks add up, when a download is
  stopped, which names and paths are safe, what is answered to the extension.
  It does no input or output.
- `app/` is the host program around it: pipes, files, the clock, logging, and
  the calls into Windows.
- `tests/` runs the library on concrete files and messages.

## Model

Risks are integers, `RISK_ONE` (10,000) for certainty; entropies are integers in
billionths of a bit, which the program measures and the library judges. Each
type has a view, each analysis a spec function that says what it
reports, and the laws stand as `law_...` proof functions at the end of each
module.

What the library takes on trust is marked `external_body` or
`assume_specification`, and each such item says what it claims: a few functions
of the standard library on text (`src/text.rs`), JSON (`src/json.rs`), and UUIDs
(`src/identifiers.rs`).
