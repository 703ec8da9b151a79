# handy_clipboard

The text-output logic of a dictation app: spoken trigger words become key
presses or replacement text, consecutive text is merged, and each piece is
delivered through the clipboard, simulated key events or a Linux input tool.

- `src/` is verified with Verus:
  - `text.rs`: characters, UTF-8 byte offsets, trimming, and the few standard
    library calls whose results are named (`lowercase`, `is_alphanumeric`,
    `is_white_space`);
  - `segments.rs`: output segments and their merging, with its laws;
  - `triggers.rs`: trigger words and the word-boundary search;
  - `process.rs`: the rewriting of a transcript by trigger words, specified
    round by round, with its laws;
  - `text_case.rs`: texts that differ only in case are rewritten alike;
  - `output.rs`: choice of the Linux input tool and the command lines it runs;
  - `paste.rs`: what a paste delivers, segment by segment.
- `app/` performs the deliveries (Tauri clipboard plugin, enigo, processes).
- `tests/` runs the library on concrete inputs.
