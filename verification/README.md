# ips_gui

Image Prompt Search: finds the generation prompts stored in the metadata of
PNG, JPEG and WebP images (A1111/Forge, ComfyUI, NovelAI, InvokeAI) and
matches them against a query, exactly (ignoring case), fuzzily (Skim
scores) or by regular expression.

## Layout

- `src/` — the library, verified with Verus.
  - `png`, `jpeg`, `webp`: metadata containers read from file bytes; each
    scan yields the prompt records and what, if anything, stopped it early.
  - `exif`: the TIFF/EXIF `UserComment` decoder.
  - `a1111`, `comfyui`, `json`: structured fields (model, LoRAs, positive
    and negative prompt) from A1111 text and ComfyUI workflow JSON.
  - `matcher`: exact, fuzzy and regex matching of records.
  - `discovery`, `extract`: which walked files are read, and in which format.
  - `order`: the stable order of results by path.
  - `session`: whether a search may start, dropped files, and result-view
    navigation.
  - `export`: text forms of result fields for display and export.
  - `text`, `unicode`, `types`: shared text utilities and record types.
  - `laws`: properties that span the operations above, stated and proved.
- `tests/` — tests of the library on concrete data.
- `app/` — the desktop program (eframe): directory walk, file reading,
  thumbnails, threads and JSON/CSV export around the library.
