# pruzkumnik

A terminal file explorer with three panes (parent folder, current folder,
preview), whose logic is a verified library.

- `src/` is the library, verified with Verus:
  - `app.rs` and `app/` hold the explorer's state machine: how each key changes
    the state and which work (listing a folder, reading a preview, copying,
    deleting, opening a file) it asks of the outside world, and how the
    results of that work are taken in; `app/render.rs` lays out the screen.
  - `fs_operations.rs` and `explorer_fs.rs` hold directory order, volume lists,
    mount table parsing, previews of text files and ZIP archives, and the
    names of pasted copies; `zip_preview.rs` reads archives with the `zip` crate.
  - `text.rs` and `chars.rs` fit, clip and wrap text.
- `app/main.rs` is the program: the terminal (through `crossterm`), the event
  loop, and the file system and process calls.
- `tests/` runs the library on concrete values.
