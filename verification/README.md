# pdf_shard

The verified core of a PDF viewer: the logic that sits between the PDFium
engine and the user interface, written in Verus and proved against its
contracts.

- `src/` — the library, verified with Verus:
  - `renderer` — the registry of open documents (session keys from 1,
    never reused) and the rendering, outline and search operations around
    the PDF engine's per-page work;
  - `tile_cache` — the bounded first-in-first-out cache of rendered tiles;
  - `outline` — the bookmark outline, safe against cyclic bookmark links;
  - `search` — page-by-page search accumulation with its hit limit;
  - `tile_path` — the `tile/<doc>/<page>/<width>` request path and replies;
  - `pdf_doc` — PDF documents under construction (lopdf), seen as a map
    from object ids to values;
  - `corpus_pdf` — the documents of the synthetic test corpus, the form
    document's AcroForm field included;
  - `model`, `error`, `selection`, `platform`, `corpus`, `png`, `text`.
- `tests/` — tests of the library.
- `app/` — the program around it: PDFium binding and page work, the render
  thread, the operations the interface calls, recent files on disk,
  printing, writing the test corpus to disk (`corpus`) and the
  headless render check (`render-check`).
