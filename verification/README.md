# treefold

A disk usage explorer with a terminal interface and a graphical one. It scans a directory
tree, lists the entries of the shown directory largest first, and draws them as a treemap.

The logic of the program is a Verus library whose functions carry contracts that Verus
proves; the program around it (scanning the disk, the terminal and the window, launching the
file browser) is ordinary Rust.

## Layout

- `src/`: the verified library.
  - `entry.rs`: the scanned tree, how a directory is built from its children (sorted, summed),
    error counts and error messages.
  - `order.rs`: the listing order (size descending, then name) as a stable merge sort.
  - `treemap.rs`: aggregation of small entries and the slice-and-dice layout, with its laws
    (blocks stay in the panel, never overlap, keep the total size).
  - `state.rs`, `control.rs`: navigation state and the decisions of the terminal loop.
  - `input.rs`, `cli.rs`: key bindings and the command line.
  - `layout.rs`, `ui.rs`, `text.rs`: sizes as text, labels, status bar, scrolling.
  - `gui.rs`, `heatmap.rs`, `os_actions.rs`: the graphical interface's state and messages,
    the heatmap boxes, the file browser command.
  - `geometry.rs`, `path.rs`: rectangles and path helpers.
- `app/`: the executable: disk scan, terminal and window loops, colours.
- `tests/`: tests of the library.
- `extras/`: icon artwork and macOS packaging scripts.

## Usage

```
treefold [-t|--tui] [path]
```

Without `-t` the graphical interface opens. Without a path, the working directory is scanned.

## Terminal controls

- `Up`/`k`, `Down`/`j`: move
- `PageUp`/`Ctrl+U`, `PageDown`/`Ctrl+D`: move by ten rows
- `g`, `G`: first, last row
- `Right`/`Enter`/`l`: open the selected directory
- `Left`/`Esc`/`h`: go to the parent
- `r`: scan again
- `q`, `Ctrl+C`: quit
