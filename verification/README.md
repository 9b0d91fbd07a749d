# writermd

The editing core of a desktop Markdown editor that shows each line rendered
and switches a line to its raw source while it is being edited.

- `src/` is the library, verified with Verus:
  - `text` — UTF-8/UTF-16 lengths of character sequences, Unicode white space, trimming;
  - `lines` — classifying a source line (heading, list item, task, quote, rule,
    code fence, table, HTML, …) into the prefix it hides, the text it shows,
    its rail marker and its CSS classes;
  - `blocks` — the document as a list of line blocks with stable ids;
  - `cursor` — mapping cursors between UTF-16 offsets, byte offsets and the
    visible part of a line;
  - `render` — inline Markdown rendering through `pulldown-cmark`, with block
    wrappers removed;
  - `editing` — focus, raw view, typing, splitting and merging lines;
  - `document` — window title, counters, snippets, shortcuts, undo/redo;
  - `settings` and `chat` — AI server settings and the chat panel's logic.
- `tests/` exercises the library on concrete values.
- `app/` is the Leptos window and the Tauri backend around it: DOM access,
  IPC and file dialogs.
  IPC goes through `tauri-wasm`, whose `invoke` answers with a raw JavaScript
  value; `serde-wasm-bindgen` decodes that value into the reply types.
