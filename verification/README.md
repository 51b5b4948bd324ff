# synthetrix

The logic of Synthetrix — an IP asset forge around ComfyUI, a CivitAI model
catalogue and a lore bible — as a library verified with Verus, plus a small
command-line shell.

- `src/` — the verified library. Each public function states its result in
  its `ensures` over spec functions on `Seq`/`Map`/integers; the laws that
  relate several functions are public `law_*` proof functions.
  - `text` — character-sequence primitives (trimming, searching, lines,
    decimal numerals) shared by the parsers.
  - `png` — PNG text chunks: reading `tEXt`/`zTXt`/`iTXt`, inserting a
    `tEXt` chunk before `IEND` (CRC-32 included), and the read-back law.
  - `convert` — the A1111 `parameters` text: LoRA tags, sections, settings
    fields, sampler/schedule names, and writing a recipe back as text.
  - `a1111` — what a `parameters` text says: prompts, LoRA tags, settings.
  - `apirecipe` — a ComfyUI workflow as plain graph values: the recipe read
    from an API- or UI-format graph, and the API graph a recipe becomes.
  - `comfy` — model-file name tokens and fuzzy matching, URL encoding (and
    its decoding law), loader node kinds.
  - `pipelines` — composite pipelines and the run state machine.
  - `catalog` — the picker's SQL query (with quoting), the file life cycle
    (download check, hotload, evict, lock), the audit and the heal plan.
  - `wfgraph` — the workflow canvas: model references, widget text, and the
    column/row layout of an API-format graph.
  - `release`, `worker`, `project`, `lore`, `config`, `version`, `ui`,
    `runtime`, `paths` — the remaining rules of each area.
- `tests/` — scenario tests run against the compiled library.
- `app/` — the shell: file I/O, the SQLite manifest (its statements; the
  query, transitions, audit and heal plan come from the library), JSON read
  into and written from the library's graph values, floating-point numbers,
  running the ComfyUI manager.
