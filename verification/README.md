# euro_office_lite

The verified core of Euro-Office Lite, a lightweight desktop office suite:
the backend logic, proved with Verus, and the Tauri shell around it.

## Layout

- `src/` — the library: every function carries its contract and is proved.
  - `notes.rs` — scanning WordprocessingML for elements and attributes, real
    notes, and emptying the special notes that draw the separator rules.
  - `package.rs` — the `.docx` surgery: reading the package through `zip`,
    deciding from its notes parts, rewriting it in one pass.
  - `recent.rs` — the recent-files list and what the start screen sees.
  - `assets.rs` — the `ascdesktop` protocol: URI to request, percent
    decoding, content types, safe download names.
  - `converter.rs` — recognising x2t, staging its runtime, its task files
    and the answers of a conversion.
  - `session.rs` — the open document's state and the file commands'
    decisions.
  - `clipboard.rs`, `bridge.rs`, `encoding.rs`, `formats.rs` — pasted images,
    window titles and bridge answers, base64 payloads, document formats.
  - `bytes.rs`, `text.rs`, `platform.rs` — UTF-8 scanning, strings, and the
    platform the rules differ on.
- `tests/` — tests of the library against the real `zip` and `base64`.
- `app/` — the Tauri application: commands, file system, processes, the
  clipboard and the network, calling the library for every decision.

Laws that span functions are public proof functions named `law_*`, next to
the functions they speak of.
