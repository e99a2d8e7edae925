# tread

A terminal reader for Markdown files, EPUB books and web pages, with a dashboard of recent
reading. The decisions of the reader are a library verified with Verus; a thin program
around it does the terminal, file and network work.

## Layout

- `src/` — the verified library. Every function carries a `requires`/`ensures` contract
  over mathematical models (`Seq`, `Map`, views of the library's types), and the laws of the
  library are public proof functions (`lemma_*`).
  - `text`, `search`, `hashing`: strings, display widths, SHA-256 keys.
  - `markdown`, `xml`, `xhtml`, `web`: Markdown documents, EPUB chapters and extracted web
    pages turned into styled lines.
  - `epub`: the EPUB package (container, OPF, NCX), chapters, paragraph merging, the chapter
    cache format.
  - `image`, `style`: content lines, images and links, styles and their stored form.
  - `app`, `screen`, `keys`: the reading view — wrapping, focus, keys, what is drawn.
  - `history`, `dashboard`, `shelf`, `session`, `prompt`, `suggest`, `cli`: the reading
    history, the dashboard and its prompt, the command line and where readers start.
  - `webload`, `headless`: the steps of loading a web page and saved browser sessions.
- `tests/` — tests of the library on concrete values.
- `app/` — the `tread` program: terminal drawing and keys, files under `~/.tread`, HTTP,
  browser cookies and the interactive browser.

Calls into outside crates (`quick-xml`, `pulldown-cmark`, `zip`, `dom_smoothie`, `sha2`,
`unicode-width`, `dirs`) stand behind small trusted wrappers whose contracts name what the
crate computes.
